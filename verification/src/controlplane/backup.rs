//! Backups of the control plane: what they are called, and how they are made and brought back.

use crate::calendar::{civil_from_days, is_date, law_dates_follow_days, law_every_day_has_a_date};
use crate::decimal::{decimal, digit, is_digit, lemma_decimal_len, padded, push_padded};
use crate::fs_copy::{
    copied_from, copied_to, is_below, is_entry_name, law_copies_come_back, lemma_in_backups, same_at, skipped, top_name,
    wiped,
};
use crate::text::{before, between, bytes_before, lemma_str_before_order, str_before};
use crate::views::{opt_view, views};
use vstd::prelude::*;
use vstd::string::*;
use vstd::utf8::{encode_utf8, is_ascii_chars, is_ascii_chars_encode_utf8};

verus! {

/// Why a backup was not made or brought back.
#[derive(Debug, Clone, PartialEq, Eq)]
pub enum BackupError {
    Io(String),
    /// There is no backup of this id.
    UnknownBackup(String),
}

impl BackupError {
    pub open spec fn text(self) -> Seq<char> {
        match self {
            BackupError::Io(reason) => "I/O error: "@ + reason@,
            BackupError::UnknownBackup(id) => "no backup '"@ + id@ + "' found"@,
        }
    }

    /// The error in words.
    pub fn message(&self) -> (r: String)
        ensures
            r@ == self.text(),
    {
        match self {
            BackupError::Io(reason) => {
                let mut out = "I/O error: ".to_owned();
                out.append(reason.as_str());
                out
            },
            BackupError::UnknownBackup(id) => between("no backup '", id.as_str(), "' found"),
        }
    }
}

/// The date of a day that is counted from the first of January 1970.
pub open spec fn date_of(days: int) -> (int, int, int) {
    choose|date: (int, int, int)| is_date(days, date.0, date.1, date.2)
}

proof fn lemma_date_of(days: int, y: int, m: int, d: int)
    requires
        is_date(days, y, m, d),
    ensures
        date_of(days) == (y, m, d),
{
    let date = (y, m, d);
    assert(is_date(days, date.0, date.1, date.2));
    let other = date_of(days);
    law_dates_follow_days(days, y, m, d, days, other.0, other.1, other.2);
}

/// The id of a backup that is made at a time, in seconds from the beginning of 1970:
/// `YYYY-MM-DDTHH-MM-SSZ`.
pub open spec fn backup_id_of(unix_secs: int) -> Seq<char> {
    let (y, m, d) = date_of(unix_secs / 86400);
    let s = unix_secs % 86400;
    padded(y as nat, 4) + "-"@ + padded(m as nat, 2) + "-"@ + padded(d as nat, 2) + "T"@ + padded(
        (s / 3600) as nat,
        2,
    ) + "-"@ + padded((s % 3600 / 60) as nat, 2) + "-"@ + padded((s % 60) as nat, 2) + "Z"@
}

/// The id of a backup that is made at a time, in seconds from the beginning of 1970.
pub fn format_backup_id(unix_secs: u64) -> (r: String)
    ensures
        r@ == backup_id_of(unix_secs as int),
{
    let days: u64 = unix_secs / 86400;
    let secs_of_day: u64 = unix_secs % 86400;
    let (year, month, day) = civil_from_days(days as i64);
    proof {
        lemma_date_of(days as int, year as int, month as int, day as int);
    }
    let hour: u64 = secs_of_day / 3600;
    let minute: u64 = (secs_of_day % 3600) / 60;
    let second: u64 = secs_of_day % 60;
    let mut out = String::new();
    push_padded(&mut out, year as u64, 4);
    out.append("-");
    push_padded(&mut out, month as u64, 2);
    out.append("-");
    push_padded(&mut out, day as u64, 2);
    out.append("T");
    push_padded(&mut out, hour, 2);
    out.append("-");
    push_padded(&mut out, minute, 2);
    out.append("-");
    push_padded(&mut out, second, 2);
    out.append("Z");
    assert(out@ =~= backup_id_of(unix_secs as int));
    out
}

/// `SystemTime::elapsed` of `UNIX_EPOCH`, in whole seconds: the time on the system's clock, or nothing if
/// the clock stands before 1970. What the clock shows is not stated.
#[verifier::external_body]
fn unix_now() -> (r: Option<u64>) {
    std::time::UNIX_EPOCH.elapsed().ok().map(|d| d.as_secs())
}

/// The id of a backup that is made now; none if the system's clock stands before 1970.
pub fn generate_backup_id() -> (r: Option<String>)
    ensures
        exists|clock: Option<u64>| opt_view(r) == #[trigger] id_at(clock),
{
    let clock = unix_now();
    let r = backup_id_at(clock);
    assert(opt_view(r) == id_at(clock));
    r
}

/// The id of a backup that is made when the clock shows this many seconds from the beginning of 1970; none if
/// the clock stands before that.
pub open spec fn id_at(clock: Option<u64>) -> Option<Seq<char>> {
    match clock {
        Some(unix_secs) => Some(backup_id_of(unix_secs as int)),
        None => None,
    }
}

/// The id of a backup that is made when the clock shows this many seconds from the beginning of 1970; none if
/// the clock stands before that.
pub fn backup_id_at(clock: Option<u64>) -> (r: Option<String>)
    ensures
        opt_view(r) == id_at(clock),
{
    match clock {
        Some(unix_secs) => Some(format_backup_id(unix_secs)),
        None => None,
    }
}

/// A step on the files of the control plane. Paths are relative to the directory of its state.
#[derive(Debug, Clone, PartialEq, Eq)]
pub enum FileStep {
    /// Remove everything but the entry `backups` at the top.
    WipeState,
    /// Copy everything but the entry `backups` at the top to a directory.
    CopyTo(String),
    /// Copy everything in a directory to the top.
    CopyFrom(String),
}

/// What a [`FileStep`] holds.
#[verifier::ext_equal]
pub enum FileStepView {
    WipeState,
    CopyTo(Seq<char>),
    CopyFrom(Seq<char>),
}

impl View for FileStep {
    type V = FileStepView;

    open spec fn view(&self) -> FileStepView {
        match self {
            FileStep::WipeState => FileStepView::WipeState,
            FileStep::CopyTo(dir) => FileStepView::CopyTo(dir@),
            FileStep::CopyFrom(dir) => FileStepView::CopyFrom(dir@),
        }
    }
}

impl FileStepView {
    /// The files, by their paths, after a step.
    pub open spec fn on(self, files: Map<Seq<char>, Seq<u8>>) -> Map<Seq<char>, Seq<u8>> {
        match self {
            FileStepView::WipeState => wiped(files, skipped()),
            FileStepView::CopyTo(dir) => copied_to(files, dir, skipped()),
            FileStepView::CopyFrom(dir) => copied_from(files, dir),
        }
    }
}

/// The files after some steps.
pub open spec fn after_steps(files: Map<Seq<char>, Seq<u8>>, steps: Seq<FileStepView>) -> Map<Seq<char>, Seq<u8>>
    decreases steps.len(),
{
    if steps.len() == 0 {
        files
    } else {
        steps.last().on(after_steps(files, steps.drop_last()))
    }
}

/// Where the records of a backup are.
pub open spec fn controlplane_dir_of(id: Seq<char>) -> Seq<char> {
    "backups/"@ + id + "/controlplane"@
}

/// Where the records of a backup are.
pub fn controlplane_dir(backup_id: &str) -> (r: String)
    ensures
        r@ == controlplane_dir_of(backup_id@),
{
    let mut out = "backups/".to_owned();
    out.append(backup_id);
    out.append("/controlplane");
    out
}

/// The steps of a backup.
pub open spec fn backup_steps(id: Seq<char>) -> Seq<FileStepView> {
    seq![FileStepView::CopyTo(controlplane_dir_of(id))]
}

/// The steps that bring a backup back.
pub open spec fn restore_steps(id: Seq<char>) -> Seq<FileStepView> {
    seq![FileStepView::WipeState, FileStepView::CopyFrom(controlplane_dir_of(id))]
}

/// How the state is backed up.
pub fn backup_control_plane_state(backup_id: &str) -> (r: Vec<FileStep>)
    ensures
        views(r@) == backup_steps(backup_id@),
{
    let r = vec![FileStep::CopyTo(controlplane_dir(backup_id))];
    assert(views(r@) =~= backup_steps(backup_id@));
    r
}

/// How the state of a backup is brought back, from whether there is a directory of its records. Nothing
/// is removed for a backup that there is not.
pub fn restore_control_plane_state(backup_id: &str, has_records: bool) -> (r: Result<Vec<FileStep>, BackupError>)
    ensures
        match r {
            Ok(steps) => has_records && views(steps@) == restore_steps(backup_id@),
            Err(e) => !has_records && (e matches BackupError::UnknownBackup(id) && id@ == backup_id@),
        },
{
    if !has_records {
        return Err(BackupError::UnknownBackup(backup_id.to_owned()));
    }
    let r = vec![FileStep::WipeState, FileStep::CopyFrom(controlplane_dir(backup_id))];
    assert(views(r@) =~= restore_steps(backup_id@));
    Ok(r)
}

/// A restored backup gives back the state as it was when the backup was made, whatever has happened to it
/// since: every file is as it was, and what came later is gone. The backups themselves stay as they are.
/// The backup must have begun empty, and must not have been touched.
pub proof fn law_restore_gives_back_the_state(
    id: Seq<char>,
    before: Map<Seq<char>, Seq<u8>>,
    later: Map<Seq<char>, Seq<u8>>,
)
    requires
        is_entry_name(id),
        forall|path: Seq<char>| #[trigger] before.dom().contains(path) ==> !is_below(controlplane_dir_of(id), path),
        forall|path: Seq<char>|
            is_below(controlplane_dir_of(id), path) ==> #[trigger] same_at(
                later,
                after_steps(before, backup_steps(id)),
                path,
            ),
    ensures
        forall|path: Seq<char>|
            top_name(path) != "backups"@ ==> #[trigger] same_at(
                after_steps(later, restore_steps(id)),
                before,
                path,
            ),
        forall|path: Seq<char>|
            top_name(path) == "backups"@ ==> #[trigger] same_at(after_steps(later, restore_steps(id)), later, path),
{
    let dir = controlplane_dir_of(id);
    reveal_with_fuel(after_steps, 3);
    assert(backup_steps(id).drop_last() =~= Seq::empty());
    assert(restore_steps(id).drop_last() =~= seq![FileStepView::WipeState]);
    assert(restore_steps(id).drop_last().drop_last() =~= Seq::empty());
    assert(after_steps(before, backup_steps(id)) == copied_to(before, dir, skipped()));
    assert(after_steps(later, restore_steps(id)) == copied_from(wiped(later, skipped()), dir));
    assert(dir =~= "backups/"@ + (id + "/controlplane"@));
    lemma_in_backups(id + "/controlplane"@);
    law_copies_come_back(before, later, dir, skipped());
}

/// Where in a list that is ordered by id another entry goes: behind all whose ids are not greater.
pub open spec fn place_for<T>(s: Seq<(String, T)>, id: Seq<char>) -> int
    decreases s.len(),
{
    if s.len() == 0 {
        0
    } else if str_before(id, s.last().0@) {
        place_for(s.drop_last(), id)
    } else {
        s.len() as int
    }
}

/// Some entries ordered by id; those of one id stay in their order.
pub open spec fn sorted_by_id<T>(s: Seq<(String, T)>) -> Seq<(String, T)>
    decreases s.len(),
{
    if s.len() == 0 {
        s
    } else {
        let prior = sorted_by_id(s.drop_last());
        prior.insert(place_for(prior, s.last().0@), s.last())
    }
}

proof fn lemma_place_for<T>(s: Seq<(String, T)>, id: Seq<char>)
    ensures
        0 <= place_for(s, id) <= s.len(),
        forall|j: int| place_for(s, id) <= j < s.len() ==> str_before(id, (#[trigger] s[j]).0@),
        place_for(s, id) > 0 ==> !str_before(id, s[place_for(s, id) - 1].0@),
    decreases s.len(),
{
    if s.len() > 0 && str_before(id, s.last().0@) {
        lemma_place_for(s.drop_last(), id);
        assert forall|j: int| place_for(s, id) <= j < s.len() implies str_before(id, (#[trigger] s[j]).0@) by {
            if j < s.len() - 1 {
                assert(s.drop_last()[j] == s[j]);
            }
        }
    }
}

/// The entries come out in the order of their ids, and none is lost or added.
pub proof fn law_sorted_by_id<T>(s: Seq<(String, T)>)
    ensures
        sorted_by_id(s).to_multiset() == s.to_multiset(),
        forall|i: int, j: int|
            0 <= i < j < sorted_by_id(s).len() ==> !str_before(
                (#[trigger] sorted_by_id(s)[j]).0@,
                (#[trigger] sorted_by_id(s)[i]).0@,
            ),
    decreases s.len(),
{
    if s.len() > 0 {
        law_sorted_by_id(s.drop_last());
        let prior = sorted_by_id(s.drop_last());
        let x = s.last();
        let p = place_for(prior, x.0@);
        lemma_place_for(prior, x.0@);
        vstd::seq_lib::to_multiset_insert(prior, p, x);
        vstd::seq_lib::to_multiset_build(s.drop_last(), x);
        assert(s =~= s.drop_last().push(x));
        let all = prior.insert(p, x);
        assert forall|i: int, j: int| 0 <= i < j < all.len() implies !str_before(
            (#[trigger] all[j]).0@,
            (#[trigger] all[i]).0@,
        ) by {
            if i == p {
                assert(all[j] == prior[j - 1]);
                lemma_str_before_order(x.0@, prior[j - 1].0@, x.0@);
            } else if j == p {
                assert(all[i] == prior[i]);
                let w = prior[p - 1].0@;
                lemma_str_before_order(x.0@, prior[i].0@, w);
                lemma_str_before_order(prior[i].0@, w, x.0@);
                lemma_str_before_order(w, prior[i].0@, x.0@);
                lemma_str_before_order(w, x.0@, prior[i].0@);
                if i < p - 1 {
                    assert(!str_before(prior[p - 1].0@, prior[i].0@));
                }
            } else {
                let a = if i < p { i } else { i - 1 };
                let b = if j < p { j } else { j - 1 };
                assert(all[i] == prior[a] && all[j] == prior[b]);
            }
        }
    }
}

/// Orders the manifests of backups by the ids of the backups.
pub fn sort_manifests<T>(manifests: Vec<(String, T)>) -> (r: Vec<(String, T)>)
    ensures
        r@ == sorted_by_id(manifests@),
{
    let ghost all = manifests@;
    let mut rest = manifests;
    let mut out: Vec<(String, T)> = Vec::new();
    // Taken from the end, put in from the beginning.
    let mut turned: Vec<(String, T)> = Vec::new();
    loop
        invariant
            rest@.len() + turned@.len() == all.len(),
            rest@ == all.take(rest@.len() as int),
            forall|j: int| 0 <= j < turned@.len() ==> #[trigger] turned@[j] == all[all.len() - 1 - j],
        ensures
            turned@.len() == all.len(),
            forall|j: int| 0 <= j < turned@.len() ==> #[trigger] turned@[j] == all[all.len() - 1 - j],
        decreases rest@.len(),
    {
        match rest.pop() {
            Some(x) => {
                turned.push(x);
                assert(rest@ =~= all.take(rest@.len() as int));
            },
            None => {
                break;
            },
        }
    }
    assert(all.take(0) =~= Seq::empty());
    loop
        invariant
            turned@.len() + out@.len() == all.len(),
            forall|j: int| 0 <= j < turned@.len() ==> #[trigger] turned@[j] == all[all.len() - 1 - j],
            out@ == sorted_by_id(all.take(out@.len() as int)),
        ensures
            out@ == sorted_by_id(all),
        decreases turned@.len(),
    {
        match turned.pop() {
            Some(x) => {
                let ghost n = out@.len() as int;
                let ghost prior = out@;
                assert(x == all[n]);
                assert(all.take(n + 1).drop_last() =~= all.take(n));
                assert(all.take(n + 1).last() == x);
                let mut p: usize = out.len();
                assert(prior.take(prior.len() as int) =~= prior);
                while p > 0 && before(x.0.as_str(), out[p - 1].0.as_str())
                    invariant
                        out@ == prior,
                        p <= out@.len(),
                        place_for(prior, x.0@) == place_for(prior.take(p as int), x.0@),
                    decreases p,
                {
                    assert(prior.take(p as int).drop_last() =~= prior.take(p - 1));
                    p = p - 1;
                }
                assert(place_for(prior.take(p as int), x.0@) == p) by {
                    if p > 0 {
                        assert(prior.take(p as int).last() == prior[p - 1]);
                    }
                }
                out.insert(p, x);
            },
            None => {
                assert(all.take(out@.len() as int) =~= all);
                break;
            },
        }
    }
    out
}

/// Two texts agree up to a place, where the first has the smaller character.
spec fn smaller_at(a: Seq<char>, b: Seq<char>, k: int) -> bool {
    &&& 0 <= k < a.len()
    &&& k < b.len()
    &&& forall|j: int| 0 <= j < k ==> a[j] == b[j]
    &&& (a[k] as int) < (b[k] as int)
}

proof fn lemma_padded_width(n: nat, width: nat)
    requires
        width == 2 && n < 100 || width == 4 && n < 10000,
    ensures
        padded(n, width).len() == width,
        forall|i: int| 0 <= i < width ==> is_digit(#[trigger] padded(n, width)[i]),
        width == 2 ==> padded(n, width) == seq![digit((n / 10) as int), digit((n % 10) as int)],
        width == 4 ==> padded(n, width) == padded(n / 100, 2) + padded(n % 100, 2),
{
    lemma_decimal_len(n);
    reveal_with_fuel(decimal, 5);
    if width == 2 {
        assert(padded(n, 2) =~= seq![digit((n / 10) as int), digit((n % 10) as int)]);
    } else {
        let hi = n / 100;
        let lo = n % 100;
        lemma_decimal_len(hi);
        lemma_decimal_len(lo);
        assert(padded(hi, 2) =~= seq![digit((hi / 10) as int), digit((hi % 10) as int)]);
        assert(padded(lo, 2) =~= seq![digit((lo / 10) as int), digit((lo % 10) as int)]);
        assert(n / 10 / 10 == hi);
        assert(n / 10 / 10 / 10 == hi / 10);
        assert(padded(n, 4) =~= padded(hi, 2) + padded(lo, 2));
    }
}

proof fn lemma_padded_order(a: nat, b: nat, width: nat)
    requires
        width == 2 && b < 100 || width == 4 && b < 10000,
        a < b,
    ensures
        exists|k: int| k < width && #[trigger] smaller_at(padded(a, width), padded(b, width), k),
    decreases width,
{
    lemma_padded_width(a, width);
    lemma_padded_width(b, width);
    let x = padded(a, width);
    let y = padded(b, width);
    if width == 2 {
        if a / 10 < b / 10 {
            assert(smaller_at(x, y, 0));
        } else {
            assert(smaller_at(x, y, 1));
        }
    } else if a / 100 < b / 100 {
        lemma_padded_width(a / 100, 2);
        lemma_padded_width(b / 100, 2);
        lemma_padded_order(a / 100, b / 100, 2);
        let k = choose|k: int| k < 2 && #[trigger] smaller_at(padded(a / 100, 2), padded(b / 100, 2), k);
        assert(smaller_at(x, y, k));
    } else {
        lemma_padded_width(a / 100, 2);
        lemma_padded_width(b / 100, 2);
        lemma_padded_width(a % 100, 2);
        lemma_padded_width(b % 100, 2);
        lemma_padded_order(a % 100, b % 100, 2);
        let k = choose|k: int| k < 2 && #[trigger] smaller_at(padded(a % 100, 2), padded(b % 100, 2), k);
        assert(smaller_at(x, y, k + 2));
    }
}

/// The first text is the smaller one, at some place that both have.
spec fn smaller(a: Seq<char>, b: Seq<char>) -> bool {
    exists|k: int| smaller_at(a, b, k)
}

/// What follows does not matter.
proof fn lemma_smaller_head(a: Seq<char>, b: Seq<char>, s: Seq<char>, t: Seq<char>)
    requires
        smaller(a, b),
    ensures
        smaller(a + s, b + t),
{
    let k = choose|k: int| smaller_at(a, b, k);
    assert(smaller_at(a + s, b + t, k));
}

/// What goes before does not matter, if it is the same.
proof fn lemma_smaller_tail(p: Seq<char>, s: Seq<char>, t: Seq<char>)
    requires
        smaller(s, t),
    ensures
        smaller(p + s, p + t),
{
    let k = choose|k: int| smaller_at(s, t, k);
    let x = p + s;
    let y = p + t;
    assert forall|j: int| 0 <= j < p.len() + k implies x[j] == y[j] by {
        if j >= p.len() {
            assert(s[j - p.len()] == t[j - p.len()]);
        }
    }
    assert(smaller_at(x, y, p.len() + k));
}

proof fn lemma_bytes_before_at(a: Seq<u8>, b: Seq<u8>, k: int)
    requires
        0 <= k < a.len(),
        k < b.len(),
        forall|j: int| 0 <= j < k ==> a[j] == b[j],
        a[k] < b[k],
    ensures
        bytes_before(a, b),
    decreases k,
{
    if k > 0 {
        assert(a.skip(1)[k - 1] == a[k]);
        assert(b.skip(1)[k - 1] == b[k]);
        lemma_bytes_before_at(a.skip(1), b.skip(1), k - 1);
    }
}

/// A part with its separator, and what follows.
spec fn with_part(part: Seq<char>, sep: char, rest: Seq<char>) -> Seq<char> {
    part + (seq![sep] + rest)
}

/// An id from its parts.
spec fn id_text(a: Seq<char>, b: Seq<char>, c: Seq<char>, e: Seq<char>, f: Seq<char>, g: Seq<char>) -> Seq<char> {
    with_part(
        a,
        '-',
        with_part(b, '-', with_part(c, 'T', with_part(e, '-', with_part(f, '-', with_part(g, 'Z', Seq::empty()))))),
    )
}

/// The first part that differs decides.
proof fn lemma_part_decides(x: Seq<char>, y: Seq<char>, sep: char, s: Seq<char>, t: Seq<char>)
    requires
        smaller(x, y) || (x == y && smaller(s, t)),
    ensures
        smaller(with_part(x, sep, s), with_part(y, sep, t)),
{
    if smaller(x, y) {
        lemma_smaller_head(x, y, seq![sep] + s, seq![sep] + t);
    } else {
        lemma_smaller_tail(seq![sep], s, t);
        lemma_smaller_tail(x, seq![sep] + s, seq![sep] + t);
    }
}

spec fn digits_only(s: Seq<char>) -> bool {
    forall|i: int| 0 <= i < s.len() ==> is_digit(#[trigger] s[i])
}

proof fn lemma_ascii_part(part: Seq<char>, sep: char, rest: Seq<char>)
    requires
        digits_only(part),
        (sep as int) < 128,
        is_ascii_chars(rest),
    ensures
        is_ascii_chars(with_part(part, sep, rest)),
{
}

/// The id of a backup consists of these parts, and is ASCII.
proof fn lemma_id_parts(t: int)
    requires
        t >= 0,
        date_of(t / 86400).0 <= 9999,
    ensures
        ({
            let (y, m, d) = date_of(t / 86400);
            let s = t % 86400;
            &&& is_date(t / 86400, y, m, d)
            &&& 1970 <= y
            &&& backup_id_of(t) == id_text(
                padded(y as nat, 4),
                padded(m as nat, 2),
                padded(d as nat, 2),
                padded((s / 3600) as nat, 2),
                padded((s % 3600 / 60) as nat, 2),
                padded((s % 60) as nat, 2),
            )
        }),
        is_ascii_chars(backup_id_of(t)),
{
    let (y0, m0, d0) = law_every_day_has_a_date((t / 86400) as nat);
    lemma_date_of(t / 86400, y0, m0, d0);
    reveal_strlit("-");
    reveal_strlit("T");
    reveal_strlit("Z");
    let (y, m, d) = date_of(t / 86400);
    let s = t % 86400;
    let a = padded(y as nat, 4);
    let b = padded(m as nat, 2);
    let c = padded(d as nat, 2);
    let e = padded((s / 3600) as nat, 2);
    let f = padded((s % 3600 / 60) as nat, 2);
    let g = padded((s % 60) as nat, 2);
    lemma_padded_width(y as nat, 4);
    lemma_padded_width(m as nat, 2);
    lemma_padded_width(d as nat, 2);
    lemma_padded_width((s / 3600) as nat, 2);
    lemma_padded_width((s % 3600 / 60) as nat, 2);
    lemma_padded_width((s % 60) as nat, 2);
    assert("-"@ =~= seq!['-']);
    assert("T"@ =~= seq!['T']);
    assert("Z"@ =~= seq!['Z']);
    lemma_nested(a, b, c, e, f, g);
    let r6 = with_part(g, 'Z', Seq::empty());
    let r5 = with_part(f, '-', r6);
    let r4 = with_part(e, '-', r5);
    let r3 = with_part(c, 'T', r4);
    let r2 = with_part(b, '-', r3);
    lemma_ascii_part(g, 'Z', Seq::empty());
    lemma_ascii_part(f, '-', r6);
    lemma_ascii_part(e, '-', r5);
    lemma_ascii_part(c, 'T', r4);
    lemma_ascii_part(b, '-', r3);
    lemma_ascii_part(a, '-', r2);
}

proof fn lemma_nested(a: Seq<char>, b: Seq<char>, c: Seq<char>, e: Seq<char>, f: Seq<char>, g: Seq<char>)
    ensures
        a + seq!['-'] + b + seq!['-'] + c + seq!['T'] + e + seq!['-'] + f + seq!['-'] + g + seq!['Z'] == id_text(
            a,
            b,
            c,
            e,
            f,
            g,
        ),
{
    let r6 = with_part(g, 'Z', Seq::empty());
    let r5 = with_part(f, '-', r6);
    let r4 = with_part(e, '-', r5);
    let r3 = with_part(c, 'T', r4);
    let r2 = with_part(b, '-', r3);
    let p5 = a + seq!['-'] + b + seq!['-'] + c + seq!['T'] + e + seq!['-'] + f + seq!['-'];
    assert(p5 + g + seq!['Z'] =~= p5 + r6);
    let p4 = a + seq!['-'] + b + seq!['-'] + c + seq!['T'] + e + seq!['-'];
    assert(p5 + r6 =~= p4 + r5);
    let p3 = a + seq!['-'] + b + seq!['-'] + c + seq!['T'];
    assert(p4 + r5 =~= p3 + r4);
    let p2 = a + seq!['-'] + b + seq!['-'];
    assert(p3 + r4 =~= p2 + r3);
    let p1 = a + seq!['-'];
    assert(p2 + r3 =~= p1 + r2);
    assert(p1 + r2 =~= with_part(a, '-', r2));
}

/// Of two numbers with one width, the smaller is the smaller text.
proof fn lemma_padded_decides(a: int, b: int, width: nat)
    requires
        0 <= a <= b,
        width == 2 && b < 100 || width == 4 && b < 10000,
    ensures
        a < b ==> smaller(padded(a as nat, width), padded(b as nat, width)),
{
    if a < b {
        lemma_padded_order(a as nat, b as nat, width);
    }
}

/// The part of an id from the hour on.
spec fn time_text(secs: int) -> Seq<char> {
    with_part(
        padded((secs / 3600) as nat, 2),
        '-',
        with_part(
            padded((secs % 3600 / 60) as nat, 2),
            '-',
            with_part(padded((secs % 60) as nat, 2), 'Z', Seq::empty()),
        ),
    )
}

/// Of two times of one day, the earlier is the smaller text.
proof fn lemma_times(t1: int, t2: int)
    requires
        0 <= t1 < t2 < 86400,
    ensures
        smaller(time_text(t1), time_text(t2)),
{
    let (h1, i1, s1) = (t1 / 3600, t1 % 3600 / 60, t1 % 60);
    let (h2, i2, s2) = (t2 / 3600, t2 % 3600 / 60, t2 % 60);
    let (e1, f1, g1) = (padded(h1 as nat, 2), padded(i1 as nat, 2), padded(s1 as nat, 2));
    let (e2, f2, g2) = (padded(h2 as nat, 2), padded(i2 as nat, 2), padded(s2 as nat, 2));
    let (z1, z2) = (with_part(g1, 'Z', Seq::empty()), with_part(g2, 'Z', Seq::empty()));
    let (w1, w2) = (with_part(f1, '-', z1), with_part(f2, '-', z2));
    if h1 == h2 && i1 == i2 {
        assert(s1 < s2);
        lemma_padded_decides(s1, s2, 2);
        lemma_part_decides(g1, g2, 'Z', Seq::empty(), Seq::empty());
    }
    if h1 == h2 {
        assert(i1 <= i2);
        lemma_padded_decides(i1, i2, 2);
        lemma_part_decides(f1, f2, '-', z1, z2);
    }
    assert(h1 <= h2);
    lemma_padded_decides(h1, h2, 2);
    lemma_part_decides(e1, e2, '-', w1, w2);
}

/// A smaller text of ASCII characters comes first.
proof fn lemma_smaller_is_before(x: Seq<char>, y: Seq<char>)
    requires
        is_ascii_chars(x),
        is_ascii_chars(y),
        smaller(x, y),
    ensures
        str_before(x, y),
{
    let k = choose|k: int| smaller_at(x, y, k);
    is_ascii_chars_encode_utf8(x);
    is_ascii_chars_encode_utf8(y);
    lemma_bytes_before_at(encode_utf8(x), encode_utf8(y), k);
}

/// In the order of texts, an id that is made later comes later, up to the end of the year 9999.
pub proof fn law_ids_sort_by_time(t1: int, t2: int)
    requires
        0 <= t1 < t2,
        date_of(t2 / 86400).0 <= 9999,
    ensures
        str_before(backup_id_of(t1), backup_id_of(t2)),
{
    let n1 = t1 / 86400;
    let n2 = t2 / 86400;
    let (y0, m0, d0) = law_every_day_has_a_date(n1 as nat);
    lemma_date_of(n1, y0, m0, d0);
    let (y1, m1, d1) = date_of(n1);
    let (y2, m2, d2) = date_of(n2);
    lemma_id_parts(t2);
    law_dates_follow_days(n1, y1, m1, d1, n2, y2, m2, d2);
    lemma_id_parts(t1);
    let (a1, b1, c1) = (padded(y1 as nat, 4), padded(m1 as nat, 2), padded(d1 as nat, 2));
    let (a2, b2, c2) = (padded(y2 as nat, 4), padded(m2 as nat, 2), padded(d2 as nat, 2));
    let (v1, v2) = (time_text(t1 % 86400), time_text(t2 % 86400));
    let (u1, u2) = (with_part(c1, 'T', v1), with_part(c2, 'T', v2));
    let (r1, r2) = (with_part(b1, '-', u1), with_part(b2, '-', u2));
    if n1 == n2 {
        lemma_times(t1 % 86400, t2 % 86400);
    }
    if y1 == y2 && m1 == m2 {
        assert(d1 <= d2);
        lemma_padded_decides(d1, d2, 2);
        lemma_part_decides(c1, c2, 'T', v1, v2);
    }
    if y1 == y2 {
        lemma_padded_decides(m1, m2, 2);
        lemma_part_decides(b1, b2, '-', u1, u2);
    }
    lemma_padded_decides(y1, y2, 4);
    lemma_part_decides(a1, a2, '-', r1, r2);
    lemma_smaller_is_before(backup_id_of(t1), backup_id_of(t2));
}

} // verus!
