//! Names of datasets and of their snapshots.

use crate::text::{chars_of, has_prefix, strip_prefix};
use vstd::prelude::*;
use vstd::string::*;

verus! {

/// The name of a snapshot of a dataset.
pub open spec fn snapshot_of(dataset: Seq<char>, snapshot: Seq<char>) -> Seq<char> {
    dataset + "@"@ + snapshot
}

/// The name of a snapshot of a dataset.
pub fn snapshot_name(dataset: &str, snapshot: &str) -> (r: String)
    ensures
        r@ == snapshot_of(dataset@, snapshot@),
{
    let mut out = dataset.to_owned();
    out.append("@");
    out.append(snapshot);
    out
}

/// A dataset directly below another one.
pub open spec fn is_child(parent: Seq<char>, name: Seq<char>) -> bool {
    let prefix = parent + "/"@;
    has_prefix(name, prefix) && !name.skip(prefix.len() as int).contains('/')
}

/// Whether a dataset stands directly below another one.
pub fn is_child_of(parent: &str, name: &str) -> (r: bool)
    ensures
        r == is_child(parent@, name@),
{
    let mut prefix = parent.to_owned();
    prefix.append("/");
    match strip_prefix(name, prefix.as_str()) {
        Some(rest) => {
            let v = chars_of(rest.as_str());
            let mut i: usize = 0;
            while i < v.len()
                invariant
                    v@ == rest@,
                    rest@ == name@.skip(prefix@.len() as int),
                    prefix@ == parent@ + "/"@,
                    has_prefix(name@, prefix@),
                    i <= v@.len(),
                    forall|j: int| 0 <= j < i ==> v@[j] != '/',
                decreases v.len() - i,
            {
                if v[i] == '/' {
                    return false;
                }
                i = i + 1;
            }
            true
        },
        None => false,
    }
}

} // verus!
