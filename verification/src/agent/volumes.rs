//! Where the volumes of a node are.

use vstd::prelude::*;
use vstd::string::*;

verus! {

/// The dataset of a volume.
pub open spec fn dataset_of(pool: Seq<char>, volume: Seq<char>) -> Seq<char> {
    pool + "/keel/volumes/"@ + volume
}

/// The dataset of a volume in a pool.
pub fn volume_dataset_path(pool: &str, volume_name: &str) -> (r: String)
    ensures
        r@ == dataset_of(pool@, volume_name@),
{
    let mut out = pool.to_owned();
    out.append("/keel/volumes/");
    out.append(volume_name);
    out
}

} // verus!
