//! Strings as sequences of characters: building, comparing, cutting and ordering them.

use crate::views::views;
use vstd::prelude::*;
use vstd::string::*;
use vstd::utf8::*;

verus! {

broadcast use vstd::string::group_string_axioms;

/// `String::push` appends one character.
pub assume_specification[ String::push ](s: &mut String, ch: char)
    ensures
        final(s)@ == old(s)@.push(ch),
;

/// What `String::from_utf8` says of bytes that are not valid UTF-8.
pub uninterp spec fn utf8_error(bytes: Seq<u8>) -> Seq<char>;

/// `String::from_utf8` takes the bytes as a string exactly when they are valid UTF-8. The text of its error
/// depends on the bytes alone, and is named.
#[verifier::external_body]
pub(crate) fn from_utf8(bytes: Vec<u8>) -> (r: Result<String, String>)
    ensures
        r is Ok <==> valid_utf8(bytes@),
        r matches Ok(s) ==> s@ == decode_utf8(bytes@),
        r matches Err(e) ==> e@ == utf8_error(bytes@),
{
    String::from_utf8(bytes).map_err(|e| e.to_string())
}

/// The text that `String::from_utf8_lossy` makes of some bytes: what is not valid UTF-8 in them is
/// replaced by replacement characters.
pub uninterp spec fn lossy_utf8(bytes: Seq<u8>) -> Seq<char>;

/// `String::from_utf8_lossy` on the bytes, as an owned string. Valid UTF-8 is taken as it is; what becomes
/// of other bytes is named, and not stated further.
#[verifier::external_body]
pub(crate) fn from_utf8_lossy(bytes: &[u8]) -> (r: String)
    ensures
        r@ == lossy_utf8(bytes@),
        valid_utf8(bytes@) ==> r@ == decode_utf8(bytes@),
{
    String::from_utf8_lossy(bytes).into_owned()
}

/// The text of some bytes: their own if they are valid UTF-8, and else the mended one.
pub open spec fn text_of(bytes: Seq<u8>) -> Seq<char> {
    if valid_utf8(bytes) {
        decode_utf8(bytes)
    } else {
        lossy_utf8(bytes)
    }
}

/// The characters of a string.
pub fn chars_of(s: &str) -> (r: Vec<char>)
    ensures
        r@ == s@,
{
    let mut out: Vec<char> = Vec::new();
    for c in it: s.chars()
        invariant
            it.seq() == s@,
            out@ == s@.take(it.index()),
    {
        out.push(c);
    }
    assert(s@.take(s@.len() as int) =~= s@);
    out
}

/// The string made of the characters in `v` between two positions.
pub fn string_of(v: &Vec<char>, from: usize, to: usize) -> (r: String)
    requires
        from <= to <= v@.len(),
    ensures
        r@ == v@.subrange(from as int, to as int),
{
    let mut out = String::new();
    let mut i: usize = from;
    while i < to
        invariant
            from <= i <= to <= v@.len(),
            out@ == v@.subrange(from as int, i as int),
        decreases to - i,
    {
        out.push(v[i]);
        i = i + 1;
        assert(v@.subrange(from as int, i as int) =~= v@.subrange(from as int, i - 1).push(v@[i - 1]));
    }
    out
}

/// Whether two strings hold the same characters.
pub fn same(a: &str, b: &str) -> (r: bool)
    ensures
        r == (a@ == b@),
{
    let x = a.as_bytes();
    let y = b.as_bytes();
    proof {
        encode_utf8_decode_utf8(a@);
        encode_utf8_decode_utf8(b@);
    }
    if x.len() != y.len() {
        return false;
    }
    let mut i: usize = 0;
    while i < x.len()
        invariant
            x@ == encode_utf8(a@),
            y@ == encode_utf8(b@),
            i <= x@.len() == y@.len(),
            forall|j: int| 0 <= j < i ==> x@[j] == y@[j],
        decreases x.len() - i,
    {
        if x[i] != y[i] {
            return false;
        }
        i = i + 1;
    }
    assert(x@ =~= y@);
    true
}


/// Lexicographic order of byte strings.
pub open spec fn bytes_before(a: Seq<u8>, b: Seq<u8>) -> bool
    decreases a.len(),
{
    if b.len() == 0 {
        false
    } else if a.len() == 0 {
        true
    } else if a[0] != b[0] {
        a[0] < b[0]
    } else {
        bytes_before(a.skip(1), b.skip(1))
    }
}

/// The order of strings: that of their UTF-8 bytes.
pub open spec fn str_before(a: Seq<char>, b: Seq<char>) -> bool {
    bytes_before(encode_utf8(a), encode_utf8(b))
}

proof fn lemma_bytes_before_prefix(a: Seq<u8>, b: Seq<u8>, n: int)
    requires
        0 <= n <= a.len(),
        n <= b.len(),
        forall|j: int| 0 <= j < n ==> a[j] == b[j],
    ensures
        bytes_before(a, b) == bytes_before(a.skip(n), b.skip(n)),
    decreases n,
{
    if n == 0 {
        assert(a.skip(0) =~= a);
        assert(b.skip(0) =~= b);
    } else {
        lemma_bytes_before_prefix(a.skip(1), b.skip(1), n - 1);
        assert(a.skip(1).skip(n - 1) =~= a.skip(n));
        assert(b.skip(1).skip(n - 1) =~= b.skip(n));
    }
}

proof fn lemma_bytes_before_order(a: Seq<u8>, b: Seq<u8>, c: Seq<u8>)
    ensures
        !bytes_before(a, a),
        bytes_before(a, b) && bytes_before(b, c) ==> bytes_before(a, c),
        a == b || bytes_before(a, b) || bytes_before(b, a),
    decreases a.len(),
{
    if a.len() > 0 {
        lemma_bytes_before_order(a.skip(1), b.skip(1), c.skip(1));
        if b.len() > 0 && a[0] == b[0] && a.skip(1) == b.skip(1) {
            assert(a =~= seq![a[0]] + a.skip(1));
            assert(b =~= seq![b[0]] + b.skip(1));
        }
    } else if b.len() == 0 {
        assert(a =~= b);
    }
}

/// The order of strings is a strict total order.
pub proof fn lemma_str_before_order(a: Seq<char>, b: Seq<char>, c: Seq<char>)
    ensures
        !str_before(a, a),
        str_before(a, b) && str_before(b, c) ==> str_before(a, c),
        a == b || str_before(a, b) || str_before(b, a),
        !(str_before(a, b) && str_before(b, a)),
{
    lemma_bytes_before_order(encode_utf8(a), encode_utf8(b), encode_utf8(c));
    lemma_bytes_before_order(encode_utf8(a), encode_utf8(b), encode_utf8(a));
    encode_utf8_decode_utf8(a);
    encode_utf8_decode_utf8(b);
}

/// Whether `a` comes strictly before `b` in the order of strings.
pub fn before(a: &str, b: &str) -> (r: bool)
    ensures
        r == str_before(a@, b@),
{
    let x = a.as_bytes();
    let y = b.as_bytes();
    let mut i: usize = 0;
    while i < x.len() && i < y.len()
        invariant
            x@ == encode_utf8(a@),
            y@ == encode_utf8(b@),
            i <= x@.len(),
            i <= y@.len(),
            forall|j: int| 0 <= j < i ==> x@[j] == y@[j],
        decreases x.len() - i,
    {
        if x[i] != y[i] {
            proof {
                lemma_bytes_before_prefix(x@, y@, i as int);
            }
            return x[i] < y[i];
        }
        i = i + 1;
    }
    proof {
        lemma_bytes_before_prefix(x@, y@, i as int);
    }
    i < y.len()
}

/// A pattern stands at a place in a text.
pub open spec fn occurs_at(s: Seq<char>, pat: Seq<char>, i: int) -> bool {
    0 <= i && i + pat.len() <= s.len() && s.subrange(i, i + pat.len()) == pat
}

/// The first place from `i` on where a pattern stands.
pub open spec fn find_from(s: Seq<char>, pat: Seq<char>, i: int) -> Option<int>
    decreases s.len() + 1 - i,
{
    if i + pat.len() > s.len() {
        None
    } else if occurs_at(s, pat, i) {
        Some(i)
    } else {
        find_from(s, pat, i + 1)
    }
}

/// What stands before and behind the first occurrence of a pattern.
pub open spec fn split_at_first(s: Seq<char>, pat: Seq<char>) -> Option<(Seq<char>, Seq<char>)> {
    match find_from(s, pat, 0) {
        Some(i) => Some((s.take(i), s.skip(i + pat.len()))),
        None => None,
    }
}

/// A text begins with a prefix.
pub open spec fn has_prefix(s: Seq<char>, prefix: Seq<char>) -> bool {
    prefix.len() <= s.len() && s.take(prefix.len() as int) == prefix
}

/// What is found is the first occurrence.
pub proof fn lemma_find_from(s: Seq<char>, pat: Seq<char>, i: int)
    requires
        0 <= i,
    ensures
        match find_from(s, pat, i) {
            Some(k) => i <= k && occurs_at(s, pat, k) && forall|j: int| i <= j < k ==> !#[trigger] occurs_at(s, pat, j),
            None => forall|j: int| i <= j ==> !#[trigger] occurs_at(s, pat, j),
        },
    decreases s.len() + 1 - i,
{
    if i + pat.len() <= s.len() && !occurs_at(s, pat, i) {
        lemma_find_from(s, pat, i + 1);
    }
}

/// The first occurrence is what is found.
pub proof fn lemma_find_is(s: Seq<char>, pat: Seq<char>, i: int, k: int)
    requires
        0 <= i <= k,
        occurs_at(s, pat, k),
        forall|j: int| i <= j < k ==> !#[trigger] occurs_at(s, pat, j),
    ensures
        find_from(s, pat, i) == Some(k),
{
    lemma_find_from(s, pat, i);
}

fn occurs(v: &Vec<char>, pat: &Vec<char>, i: usize) -> (r: bool)
    requires
        i + pat@.len() <= v@.len(),
    ensures
        r == occurs_at(v@, pat@, i as int),
{
    let mut j: usize = 0;
    let n: usize = v.len();
    while j < pat.len()
        invariant
            j <= pat@.len(),
            n == v@.len(),
            i + pat@.len() <= n,
            forall|k: int| 0 <= k < j ==> v@[i + k] == pat@[k],
        decreases pat.len() - j,
    {
        if v[i + j] != pat[j] {
            assert(v@.subrange(i as int, i + pat@.len())[j as int] != pat@[j as int]);
            return false;
        }
        j = j + 1;
    }
    assert(v@.subrange(i as int, i + pat@.len()) =~= pat@);
    true
}

/// The first place where a pattern stands.
pub fn find(v: &Vec<char>, pat: &Vec<char>) -> (r: Option<usize>)
    ensures
        match r {
            Some(i) => find_from(v@, pat@, 0) == Some(i as int),
            None => find_from(v@, pat@, 0) is None,
        },
{
    if pat.len() > v.len() {
        return None;
    }
    let mut i: usize = 0;
    loop
        invariant
            pat@.len() <= v@.len(),
            i <= v@.len() - pat@.len(),
            find_from(v@, pat@, 0) == find_from(v@, pat@, i as int),
        decreases v.len() - i,
    {
        if occurs(v, pat, i) {
            return Some(i);
        }
        if i == v.len() - pat.len() {
            assert(find_from(v@, pat@, i + 1) is None);
            return None;
        }
        i = i + 1;
    }
}

/// What stands before and behind the first occurrence of a pattern, if there is one.
pub fn split_once(s: &str, pat: &str) -> (r: Option<(String, String)>)
    ensures
        match r {
            Some((a, b)) => split_at_first(s@, pat@) == Some((a@, b@)),
            None => split_at_first(s@, pat@) is None,
        },
{
    let v = chars_of(s);
    let p = chars_of(pat);
    match find(&v, &p) {
        Some(i) => {
            proof {
                lemma_find_from(s@, pat@, 0);
            }
            let n: usize = v.len();
            let a = string_of(&v, 0, i);
            let b = string_of(&v, i + p.len(), n);
            assert(a@ =~= s@.take(i as int));
            assert(b@ =~= s@.skip(i + pat@.len()));
            Some((a, b))
        },
        None => None,
    }
}

/// Whether a pattern stands anywhere in a text.
pub fn contains(s: &str, pat: &str) -> (r: bool)
    ensures
        r == (find_from(s@, pat@, 0) is Some),
{
    find(&chars_of(s), &chars_of(pat)).is_some()
}

/// What follows a prefix, if the text begins with it.
pub fn strip_prefix(s: &str, prefix: &str) -> (r: Option<String>)
    ensures
        r is Some <==> has_prefix(s@, prefix@),
        r matches Some(rest) ==> rest@ == s@.skip(prefix@.len() as int),
{
    let v = chars_of(s);
    let p = chars_of(prefix);
    if p.len() > v.len() {
        return None;
    }
    assert(s@.subrange(0, 0 + prefix@.len() as int) =~= s@.take(prefix@.len() as int));
    if occurs(&v, &p, 0) {
        let rest = string_of(&v, p.len(), v.len());
        assert(rest@ =~= s@.skip(prefix@.len() as int));
        Some(rest)
    } else {
        None
    }
}

/// Texts in ascending order; equal ones may stand side by side.
pub open spec fn in_order(s: Seq<Seq<char>>) -> bool {
    forall|i: int, j: int| 0 <= i < j < s.len() ==> !str_before(#[trigger] s[j], #[trigger] s[i])
}

/// Sorts texts.
pub fn sort(v: Vec<String>) -> (r: Vec<String>)
    ensures
        in_order(views(r@)),
        views(r@).to_multiset() == views(v@).to_multiset(),
{
    let mut out: Vec<String> = Vec::new();
    let ghost all = views(v@);
    let mut i: usize = 0;
    assert(views(out@) =~= all.take(0));
    while i < v.len()
        invariant
            all == views(v@),
            i <= v@.len(),
            in_order(views(out@)),
            views(out@).to_multiset() == all.take(i as int).to_multiset(),
        decreases v.len() - i,
    {
        let x = v[i].clone();
        proof {
            assert(all.take(i + 1) =~= all.take(i as int).push(x@));
            vstd::seq_lib::to_multiset_build(all.take(i as int), x@);
        }
        insert_sorted(&mut out, x);
        i = i + 1;
    }
    assert(all.take(i as int) =~= all);
    out
}

fn insert_sorted(v: &mut Vec<String>, x: String)
    requires
        in_order(views(old(v)@)),
    ensures
        in_order(views(final(v)@)),
        views(final(v)@).to_multiset() == views(old(v)@).to_multiset().insert(x@),
{
    let ghost s0 = views(v@);
    let ghost xv = x@;
    let mut k: usize = 0;
    while k < v.len() && !before(x.as_str(), v[k].as_str())
        invariant
            views(v@) == s0,
            xv == x@,
            k <= v@.len(),
            forall|j: int| 0 <= j < k ==> !str_before(xv, #[trigger] s0[j]),
        decreases v.len() - k,
    {
        assert(s0[k as int] == v@[k as int]@);
        k = k + 1;
    }
    if k < v.len() {
        assert(s0[k as int] == v@[k as int]@);
    }
    v.insert(k, x);
    let ghost s1 = views(v@);
    proof {
        assert(s1 =~= s0.insert(k as int, xv));
        vstd::seq_lib::to_multiset_insert(s0, k as int, xv);
        assert forall|i: int, j: int| 0 <= i < j < s1.len() implies !str_before(#[trigger] s1[j], #[trigger] s1[i]) by {
            if i == k {
                lemma_str_before_order(s0[k as int], s0[j - 1], xv);
                lemma_str_before_order(xv, s0[k as int], s0[j - 1]);
                lemma_str_before_order(s0[j - 1], xv, s0[k as int]);
                lemma_str_before_order(xv, s0[j - 1], xv);
            }
        }
    }
}

/// A character that the Unicode standard counts as white space.
pub open spec fn is_space(c: char) -> bool {
    let n = c as u32;
    ||| 0x9 <= n <= 0xd
    ||| n == 0x20
    ||| n == 0x85
    ||| n == 0xa0
    ||| n == 0x1680
    ||| 0x2000 <= n <= 0x200a
    ||| n == 0x2028
    ||| n == 0x2029
    ||| n == 0x202f
    ||| n == 0x205f
    ||| n == 0x3000
}

/// A text without the white space at its beginning.
pub open spec fn trimmed_start(s: Seq<char>) -> Seq<char>
    decreases s.len(),
{
    if s.len() > 0 && is_space(s[0]) {
        trimmed_start(s.skip(1))
    } else {
        s
    }
}

/// A text without the white space at its end.
pub open spec fn trimmed_end(s: Seq<char>) -> Seq<char>
    decreases s.len(),
{
    if s.len() > 0 && is_space(s.last()) {
        trimmed_end(s.drop_last())
    } else {
        s
    }
}

/// A text without the white space around it.
pub open spec fn trimmed(s: Seq<char>) -> Seq<char> {
    trimmed_end(trimmed_start(s))
}

fn space(c: char) -> (r: bool)
    ensures
        r == is_space(c),
{
    let n: u32 = c as u32;
    (0x9 <= n && n <= 0xd) || n == 0x20 || n == 0x85 || n == 0xa0 || n == 0x1680 || (0x2000 <= n && n <= 0x200a) || n
        == 0x2028 || n == 0x2029 || n == 0x202f || n == 0x205f || n == 0x3000
}

/// The text in `v` between two places, without the white space around it.
pub fn trim(v: &Vec<char>, from: usize, to: usize) -> (r: String)
    requires
        from <= to <= v@.len(),
    ensures
        r@ == trimmed(v@.subrange(from as int, to as int)),
{
    let ghost s = v@.subrange(from as int, to as int);
    let mut a: usize = from;
    while a < to && space(v[a])
        invariant
            from <= a <= to <= v@.len(),
            trimmed_start(s) == trimmed_start(v@.subrange(a as int, to as int)),
        decreases to - a,
    {
        assert(v@.subrange(a as int, to as int).skip(1) =~= v@.subrange(a + 1, to as int));
        a = a + 1;
    }
    let ghost t = v@.subrange(a as int, to as int);
    assert(trimmed_start(s) == t);
    let mut b: usize = to;
    while a < b && space(v[b - 1])
        invariant
            a <= b <= to <= v@.len(),
            t == v@.subrange(a as int, to as int),
            trimmed_end(t) == trimmed_end(v@.subrange(a as int, b as int)),
        decreases b,
    {
        assert(v@.subrange(a as int, b as int).drop_last() =~= v@.subrange(a as int, b - 1));
        b = b - 1;
    }
    string_of(v, a, b)
}

/// A text between two others.
pub fn between(front: &str, middle: &str, back: &str) -> (r: String)
    ensures
        r@ == front@ + middle@ + back@,
{
    let mut out = front.to_owned();
    out.append(middle);
    out.append(back);
    out
}

} // verus!
