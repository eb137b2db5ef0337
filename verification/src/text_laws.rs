//! What texts, numbers and sizes stand for.

use crate::calendar::{is_date, law_dates_follow_days};
use crate::controlplane::addresses::{leases_map, Ipv4Cidr};
use crate::controlplane::backup::{backup_id_of, date_of};
use crate::dashboard::basic_auth::{base64_bytes, credentials_are, granted};
use crate::dashboard::http::{lower, same_but_case};
use crate::decimal::{
    all_digits, decimal, digits_error, is_digit, lemma_value_of_decimal, number_error_of, padded, signed_decimal,
    unsigned_of, value, NumberError,
};
use crate::fs_copy::left_out;
use crate::resources::{memory_bytes, unit_of};
use crate::strmap::pairs_map;
use crate::text::{
    bytes_before, find_from, has_prefix, is_space, lemma_find_from, lossy_utf8, occurs_at, split_at_first, text_of,
    trimmed, trimmed_end, trimmed_start,
};
use vstd::arithmetic::power2::{lemma_pow2_pos, pow2};
use vstd::prelude::*;
use vstd::utf8::{encode_utf8, encode_utf8_decode_utf8, encode_utf8_valid_utf8, valid_utf8};

verus! {

/// Nothing but white space.
pub open spec fn all_space(s: Seq<char>) -> bool {
    forall|i: int| 0 <= i < s.len() ==> is_space(#[trigger] s[i])
}

proof fn lemma_trimmed_start(s: Seq<char>)
    ensures
        trimmed_start(s).len() <= s.len(),
        s.skip(s.len() - trimmed_start(s).len()) == trimmed_start(s),
        all_space(s.take(s.len() - trimmed_start(s).len())),
        trimmed_start(s).len() > 0 ==> !is_space(trimmed_start(s)[0]),
    decreases s.len(),
{
    if s.len() > 0 && is_space(s[0]) {
        let rest = s.skip(1);
        lemma_trimmed_start(rest);
        let k = rest.len() - trimmed_start(rest).len();
        assert(s.skip(k + 1) =~= rest.skip(k));
        assert forall|i: int| 0 <= i < k + 1 implies is_space(#[trigger] s.take(k + 1)[i]) by {
            if i > 0 {
                assert(rest.take(k)[i - 1] == s[i]);
            }
        }
    } else {
        assert(s.skip(0) =~= s);
    }
}

proof fn lemma_trimmed_end(s: Seq<char>)
    ensures
        trimmed_end(s).len() <= s.len(),
        s.take(trimmed_end(s).len() as int) == trimmed_end(s),
        all_space(s.skip(trimmed_end(s).len() as int)),
        trimmed_end(s).len() > 0 ==> !is_space(trimmed_end(s).last()),
    decreases s.len(),
{
    if s.len() > 0 && is_space(s.last()) {
        let rest = s.drop_last();
        lemma_trimmed_end(rest);
        let k = trimmed_end(rest).len() as int;
        assert(s.take(k) =~= rest.take(k));
        assert forall|i: int| 0 <= i < s.skip(k).len() implies is_space(#[trigger] s.skip(k)[i]) by {
            if i < rest.skip(k).len() {
                assert(rest.skip(k)[i] == s[k + i]);
            }
        }
    } else {
        assert(s.take(s.len() as int) =~= s);
    }
}

/// Trimming takes white space away at both ends, and nothing else: what is left neither begins nor ends with any.
pub proof fn law_trimming(s: Seq<char>)
    ensures
        exists|a: Seq<char>, b: Seq<char>|
            #![trigger a + trimmed(s) + b]
            s == a + trimmed(s) + b && all_space(a) && all_space(b),
        trimmed(s).len() > 0 ==> !is_space(trimmed(s)[0]) && !is_space(trimmed(s).last()),
{
    lemma_trimmed_start(s);
    let t = trimmed_start(s);
    lemma_trimmed_end(t);
    let a = s.take(s.len() - t.len());
    let b = t.skip(trimmed(s).len() as int);
    assert(s =~= a + s.skip(s.len() - t.len()));
    assert(t =~= t.take(trimmed(s).len() as int) + b);
    assert(s =~= a + trimmed(s) + b);
    if trimmed(s).len() > 0 {
        assert(trimmed(s)[0] == t[0]);
    }
}

/// Of the ASCII characters, the space and those from the tab to the carriage return are white space.
pub proof fn law_white_space(c: char)
    requires
        (c as int) < 128,
    ensures
        is_space(c) <==> c as int == 32 || 9 <= c as int <= 13,
{
}

/// A text is split into what stands before and behind a pattern, at the first place where the pattern stands.
pub proof fn law_splitting(s: Seq<char>, pat: Seq<char>)
    ensures
        match split_at_first(s, pat) {
            Some((a, b)) => s == a + pat + b && forall|j: int| 0 <= j < a.len() ==> !#[trigger] occurs_at(s, pat, j),
            None => forall|j: int| 0 <= j ==> !#[trigger] occurs_at(s, pat, j),
        },
{
    lemma_find_from(s, pat, 0);
    if let Some(k) = find_from(s, pat, 0) {
        assert(s =~= s.take(k) + s.subrange(k, k + pat.len()) + s.skip(k + pat.len()));
    }
}

/// The bytes of a text are that text again; bytes that are no text are mended as std does it.
pub proof fn law_bytes_of_texts(s: Seq<char>, bytes: Seq<u8>)
    ensures
        text_of(encode_utf8(s)) == s,
        !valid_utf8(bytes) ==> text_of(bytes) == lossy_utf8(bytes),
{
    encode_utf8_valid_utf8(s);
    encode_utf8_decode_utf8(s);
}

/// One row of bytes comes before another if it is a beginning of it, or has the lower byte where they first differ.
pub proof fn law_order_of_bytes(a: Seq<u8>, b: Seq<u8>)
    ensures
        bytes_before(a, b) <==> exists|k: int| #[trigger] differ_first(a, b, k) && k < b.len() && (k == a.len() || a[k] < b[k]),
    decreases a.len(),
{
    if a.len() == 0 || b.len() == 0 {
        assert(differ_first(a, b, 0));
    } else if a[0] != b[0] {
        assert(differ_first(a, b, 0));
        assert forall|k: int| #[trigger] differ_first(a, b, k) implies k == 0 by {}
    } else {
        let x = a.skip(1);
        let y = b.skip(1);
        law_order_of_bytes(x, y);
        if bytes_before(x, y) {
            let k = choose|k: int| #[trigger] differ_first(x, y, k) && k < y.len() && (k == x.len() || x[k] < y[k]);
            assert forall|j: int| 0 <= j < k + 1 implies a[j] == b[j] by {
                if j > 0 {
                    assert(x[j - 1] == a[j] && y[j - 1] == b[j]);
                }
            }
            assert(differ_first(a, b, k + 1));
        }
        if exists|k: int| #[trigger] differ_first(a, b, k) && k < b.len() && (k == a.len() || a[k] < b[k]) {
            let k = choose|k: int| #[trigger] differ_first(a, b, k) && k < b.len() && (k == a.len() || a[k] < b[k]);
            assert(k > 0);
            assert forall|j: int| 0 <= j < k - 1 implies x[j] == y[j] by {
                assert(a[j + 1] == b[j + 1]);
            }
            assert(differ_first(x, y, k - 1));
        }
    }
}

/// Two rows are the same up to a place, where they differ or one of them ends.
pub open spec fn differ_first(a: Seq<u8>, b: Seq<u8>, k: int) -> bool {
    &&& 0 <= k <= a.len() && k <= b.len()
    &&& forall|j: int| 0 <= j < k ==> a[j] == b[j]
    &&& k == a.len() || k == b.len() || a[k] != b[k]
}

/// A number that was written is read again, with a plus sign or without, and with zeros before it or without, if it is not
/// too large; a text with anything but digits in it is no number.
pub proof fn law_numbers(n: nat, max: nat, s: Seq<char>, k: int)
    ensures
        n <= max ==> unsigned_of(decimal(n), max) == Some(n),
        n <= max ==> unsigned_of(seq!['+'] + decimal(n), max) == Some(n),
        n <= max ==> unsigned_of(seq!['0'] + decimal(n), max) == Some(n),
        n > max ==> unsigned_of(decimal(n), max) is None,
        unsigned_of(seq![], max) is None,
        0 < k < s.len() && !is_digit(s[k]) ==> unsigned_of(s, max) is None,
        s.len() > 0 && !is_digit(s[0]) && s[0] != '+' ==> unsigned_of(s, max) is None,
{
    lemma_value_of_decimal(n);
    let d = decimal(n);
    assert(is_digit(d[0]));
    assert((seq!['+'] + d).skip(1) =~= d);
    let z = seq!['0'] + d;
    lemma_leading_zero(d);
    assert forall|i: int| 0 <= i < z.len() implies is_digit(#[trigger] z[i]) by {
        if i > 0 {
            assert(z[i] == d[i - 1]);
        }
    }
    if 0 < k < s.len() && !is_digit(s[k]) {
        if s[0] == '+' {
            assert(s.skip(1)[k - 1] == s[k]);
        }
    }
}

proof fn lemma_leading_zero(s: Seq<char>)
    requires
        all_digits(s),
    ensures
        value(seq!['0'] + s) == value(s),
    decreases s.len(),
{
    let z = seq!['0'] + s;
    if s.len() > 0 {
        lemma_leading_zero(s.drop_last());
        assert(z.drop_last() =~= seq!['0'] + s.drop_last());
        assert(z.last() == s.last());
    } else {
        assert(z.drop_last() =~= Seq::empty());
        assert(value(Seq::<char>::empty()) == 0);
        assert(z.last() == '0');
    }
}

/// Some digits have a character that is none at a place, behind nothing but digits of a number that is not too large; or the
/// digits up to a place are the first to make too large a number.
pub proof fn law_what_is_wrong_with_digits(s: Seq<char>, max: nat)
    ensures
        match digits_error(s, max) {
            None => all_digits(s) && (s.len() > 0 ==> value(s) <= max),
            Some(NumberError::InvalidDigit) => exists|k: int| #[trigger] first_wrong(s, max, k) && !is_digit(s[k]),
            Some(NumberError::TooLarge) => exists|k: int| #[trigger]
                first_wrong(s, max, k) && is_digit(s[k]) && value(s.take(k + 1)) > max,
            Some(NumberError::Empty) => false,
        },
    decreases s.len(),
{
    if s.len() > 0 {
        let rest = s.drop_last();
        law_what_is_wrong_with_digits(rest, max);
        let n = s.len() - 1;
        assert(s.take(n) =~= rest);
        assert(s.take(n + 1) =~= s);
        match digits_error(rest, max) {
            Some(NumberError::InvalidDigit) => {
                let k = choose|k: int| #[trigger] first_wrong(rest, max, k) && !is_digit(rest[k]);
                assert(s.take(k) =~= rest.take(k));
                assert(first_wrong(s, max, k));
            },
            Some(_) => {
                let k = choose|k: int| #[trigger]
                    first_wrong(rest, max, k) && is_digit(rest[k]) && value(rest.take(k + 1)) > max;
                assert(s.take(k) =~= rest.take(k));
                assert(s.take(k + 1) =~= rest.take(k + 1));
                assert(first_wrong(s, max, k));
            },
            None => {
                if rest.len() == 0 {
                    assert(rest =~= Seq::empty());
                    assert(value(rest) == 0);
                }
                assert(all_digits(s.take(n)));
                assert(value(s.take(n)) <= max);
                assert(first_wrong(s, max, n));
                if is_digit(s[n]) {
                    assert forall|i: int| 0 <= i < s.len() implies is_digit(#[trigger] s[i]) by {
                        if i < n {
                            assert(rest[i] == s[i]);
                        }
                    }
                }
            },
        }
    }
}

/// Up to a place there is nothing wrong with some digits.
pub open spec fn first_wrong(s: Seq<char>, max: nat, k: int) -> bool {
    0 <= k < s.len() && all_digits(s.take(k)) && value(s.take(k)) <= max
}

/// What is wrong with a number: nothing at all is told apart from what is wrong with its digits, before which a plus sign may
/// stand.
pub proof fn law_number_errors(s: Seq<char>, max: nat)
    ensures
        number_error_of(s, max) == Some(NumberError::Empty) <==> s.len() == 0,
        s.len() > 0 && s[0] != '+' ==> number_error_of(s, max) == digits_error(s, max),
        s.len() > 1 && s[0] == '+' ==> number_error_of(s, max) == digits_error(s.skip(1), max),
        s == seq!['+'] ==> number_error_of(s, max) == Some(NumberError::InvalidDigit),
{
    law_what_is_wrong_with_digits(s, max);
    if s.len() > 1 {
        law_what_is_wrong_with_digits(s.skip(1), max);
    }
}

/// A number with leading zeros up to a width has that width, or its own if that is greater, and is the same number. A
/// negative number is written with a minus sign before the positive one.
pub proof fn law_written_numbers(n: nat, width: nat)
    ensures
        all_digits(padded(n, width)),
        value(padded(n, width)) == n,
        padded(n, width).len() == if decimal(n).len() < width {
            width
        } else {
            decimal(n).len()
        },
        signed_decimal(n as int) == decimal(n),
        n > 0 ==> signed_decimal(-(n as int)) == seq!['-'] + decimal(n),
{
    lemma_value_of_decimal(n);
    if decimal(n).len() < width {
        lemma_zeros(decimal(n), (width - decimal(n).len()) as nat);
    }
}

proof fn lemma_zeros(s: Seq<char>, k: nat)
    requires
        all_digits(s),
    ensures
        all_digits(Seq::new(k, |i: int| '0') + s),
        value(Seq::new(k, |i: int| '0') + s) == value(s),
    decreases k,
{
    let zeros = Seq::new(k, |i: int| '0');
    if k > 0 {
        let fewer = Seq::new((k - 1) as nat, |i: int| '0');
        lemma_zeros(s, (k - 1) as nat);
        lemma_leading_zero(fewer + s);
        assert(zeros + s =~= seq!['0'] + (fewer + s));
    } else {
        assert(zeros + s =~= s);
    }
}

/// A size is a positive number of bytes, or of the unit that stands behind it: each unit is 1024 times the one below it. A
/// size of nothing, or of more bytes than can be counted, is none.
pub proof fn law_sizes(n: nat)
    requires
        n <= u64::MAX,
    ensures
        memory_bytes(decimal(n)) == if n > 0 {
            Some(n)
        } else {
            None
        },
        memory_bytes(decimal(n).push('K')) == if 0 < n && n * 1024 <= u64::MAX {
            Some(n * 1024)
        } else {
            None
        },
        memory_bytes(decimal(n).push('M')) == if 0 < n && n * 1_048_576 <= u64::MAX {
            Some(n * 1_048_576)
        } else {
            None
        },
        memory_bytes(decimal(n).push('G')) == if 0 < n && n * 1_073_741_824 <= u64::MAX {
            Some(n * 1_073_741_824)
        } else {
            None
        },
        memory_bytes(seq![]) is None,
{
    let d = decimal(n);
    law_numbers(n, u64::MAX as nat, d, 0);
    lemma_value_of_decimal(n);
    assert(is_digit(d[d.len() - 1]));
    assert(unit_of(d) == 1);
    assert(n * unit_of(d) == n) by (nonlinear_arith)
        requires
            unit_of(d) == 1,
    ;
    assert(d.push('K').drop_last() =~= d);
    assert(d.push('M').drop_last() =~= d);
    assert(d.push('G').drop_last() =~= d);
}

/// A size has digits, perhaps with a plus sign before them, and one unit at most: anything else is none.
pub proof fn law_sizes_have_digits(s: Seq<char>, k: int)
    requires
        0 < k < s.len() - 1,
        !is_digit(s[k]),
    ensures
        memory_bytes(s) is None,
{
    law_numbers(0, u64::MAX as nat, s, k);
    law_numbers(0, u64::MAX as nat, s.drop_last(), k);
}

/// The id of a backup names the day and the time of day at which it was made, down to the second.
pub proof fn law_ids_name_the_time(days: int, y: int, m: int, d: int, hour: int, minute: int, second: int)
    requires
        is_date(days, y, m, d),
        0 <= hour < 24,
        0 <= minute < 60,
        0 <= second < 60,
    ensures
        backup_id_of(days * 86_400 + hour * 3_600 + minute * 60 + second) == padded(y as nat, 4) + "-"@ + padded(
            m as nat,
            2,
        ) + "-"@ + padded(d as nat, 2) + "T"@ + padded(hour as nat, 2) + "-"@ + padded(minute as nat, 2) + "-"@ + padded(
            second as nat,
            2,
        ) + "Z"@,
{
    let of_day = hour * 3_600 + minute * 60 + second;
    let t = days * 86_400 + of_day;
    assert(t / 86_400 == days && t % 86_400 == of_day) by (nonlinear_arith)
        requires
            t == days * 86_400 + of_day,
            0 <= of_day < 86_400,
    ;
    let date = (y, m, d);
    assert(is_date(days, date.0, date.1, date.2));
    let other = date_of(days);
    law_dates_follow_days(days, y, m, d, days, other.0, other.1, other.2);
    assert(of_day / 3_600 == hour && of_day % 3_600 / 60 == minute && of_day % 60 == second);
}

/// The addresses of a block that replicas get are those that share its leading bits, but for the first two and the last.
pub proof fn law_blocks(block: Ipv4Cidr, a: int)
    requires
        block.prefix_len <= 32,
        0 <= a,
    ensures
        ({
            let size = pow2((32 - block.prefix_len) as nat) as int;
            block.assignable(a) <==> a / size == block.addr as int / size && a % size >= 2 && a % size != size - 1
        }),
{
    let size = pow2((32 - block.prefix_len) as nat) as int;
    lemma_pow2_pos((32 - block.prefix_len) as nat);
    let q = block.addr as int / size;
    vstd::arithmetic::div_mod::lemma_fundamental_div_mod(block.addr as int, size);
    vstd::arithmetic::div_mod::lemma_fundamental_div_mod(a, size);
    vstd::arithmetic::div_mod::lemma_mod_bound(a, size);
    assert(block.first() == size * q);
    let p = a / size;
    let r = a % size;
    assert(a == size * p + r);
    if p < q {
        assert(size * p + size <= size * q) by (nonlinear_arith)
            requires
                p + 1 <= q,
                size > 0,
        ;
    } else if q < p {
        assert(size * q + size <= size * p) by (nonlinear_arith)
            requires
                q + 1 <= p,
                size > 0,
        ;
    }
}

/// A header lets in who sends the credentials behind `Basic `, and nobody else.
pub proof fn law_headers_that_let_in(encoded: Seq<char>, header: Seq<char>, user: Seq<char>, password: Seq<char>)
    ensures
        granted(Some("Basic "@ + encoded), user, password) <==> (base64_bytes(encoded) matches Some(bytes)
            && credentials_are(bytes, user, password)),
        !has_prefix(header, "Basic "@) ==> !granted(Some(header), user, password),
        !granted(None, user, password),
{
    let h = "Basic "@ + encoded;
    assert(h.take("Basic "@.len() as int) =~= "Basic "@);
    assert(h.skip("Basic "@.len() as int) =~= encoded);
}

/// The case of ASCII letters does not matter for the name of a header, and nothing else is passed over.
pub proof fn law_names_of_headers(a: Seq<char>, b: Seq<char>)
    ensures
        same_but_case(a, a),
        same_but_case(a, b) == same_but_case(b, a),
        a.len() != b.len() ==> !same_but_case(a, b),
        forall|c: char| 'A' <= c <= 'Z' ==> #[trigger] lower(c) as int == c as int + 32,
        forall|c: char| !('A' <= c <= 'Z') ==> #[trigger] lower(c) == c,
{
    if same_but_case(a, b) {
        assert forall|i: int| 0 <= i < b.len() implies lower(#[trigger] b[i]) == lower(a[i]) by {
            assert(lower(a[i]) == lower(b[i]));
        }
    }
    if same_but_case(b, a) {
        assert forall|i: int| 0 <= i < a.len() implies lower(#[trigger] a[i]) == lower(b[i]) by {
            assert(lower(b[i]) == lower(a[i]));
        }
    }
}

/// The last pair with a key.
pub open spec fn is_last_pair<V>(pairs: Seq<(String, V)>, key: Seq<char>, i: int) -> bool {
    &&& 0 <= i < pairs.len()
    &&& pairs[i].0@ == key
    &&& forall|j: int| i < j < pairs.len() ==> (#[trigger] pairs[j]).0@ != key
}

/// The table that some pairs make holds under every key the value of the last pair with that key, and no other keys.
pub proof fn law_tables_of_pairs<V>(pairs: Seq<(String, V)>, key: Seq<char>)
    ensures
        if pairs_map(pairs).dom().contains(key) {
            exists|i: int| #[trigger] is_last_pair(pairs, key, i) && pairs_map(pairs)[key] == pairs[i].1
        } else {
            forall|j: int| 0 <= j < pairs.len() ==> (#[trigger] pairs[j]).0@ != key
        },
    decreases pairs.len(),
{
    if pairs.len() > 0 {
        let rest = pairs.drop_last();
        let n = pairs.len() - 1;
        law_tables_of_pairs(rest, key);
        if pairs[n].0@ == key {
            assert(is_last_pair(pairs, key, n));
        } else if pairs_map(rest).dom().contains(key) {
            let i = choose|i: int| #[trigger] is_last_pair(rest, key, i) && pairs_map(rest)[key] == rest[i].1;
            assert forall|j: int| i < j < pairs.len() implies (#[trigger] pairs[j]).0@ != key by {
                if j < n {
                    assert(rest[j] == pairs[j]);
                }
            }
            assert(is_last_pair(pairs, key, i));
        } else {
            assert forall|j: int| 0 <= j < pairs.len() implies (#[trigger] pairs[j]).0@ != key by {
                if j < n {
                    assert(rest[j] == pairs[j]);
                }
            }
        }
    }
}

/// The last lease of a replica.
pub open spec fn is_last_lease(leases: Seq<(String, String, u32)>, jail: Seq<char>, i: int) -> bool {
    &&& 0 <= i < leases.len()
    &&& leases[i].0@ == jail
    &&& forall|j: int| i < j < leases.len() ==> (#[trigger] leases[j]).0@ != jail
}

/// The table that some leases make holds for every replica its last lease, and no other replicas.
pub proof fn law_tables_of_leases(leases: Seq<(String, String, u32)>, jail: Seq<char>)
    ensures
        if leases_map(leases).dom().contains(jail) {
            exists|i: int| #[trigger]
                is_last_lease(leases, jail, i) && leases_map(leases)[jail].0 == leases[i].1@ && leases_map(leases)[jail].1
                    == leases[i].2
        } else {
            forall|j: int| 0 <= j < leases.len() ==> (#[trigger] leases[j]).0@ != jail
        },
    decreases leases.len(),
{
    if leases.len() > 0 {
        let rest = leases.drop_last();
        let n = leases.len() - 1;
        law_tables_of_leases(rest, jail);
        if leases[n].0@ == jail {
            assert(is_last_lease(leases, jail, n));
        } else if leases_map(rest).dom().contains(jail) {
            let i = choose|i: int| #[trigger]
                is_last_lease(rest, jail, i) && leases_map(rest)[jail].0 == rest[i].1@ && leases_map(rest)[jail].1
                    == rest[i].2;
            assert forall|j: int| i < j < leases.len() implies (#[trigger] leases[j]).0@ != jail by {
                if j < n {
                    assert(rest[j] == leases[j]);
                }
            }
            assert(is_last_lease(leases, jail, i));
        } else {
            assert forall|j: int| 0 <= j < leases.len() implies (#[trigger] leases[j]).0@ != jail by {
                if j < n {
                    assert(rest[j] == leases[j]);
                }
            }
        }
    }
}

/// An entry is left out exactly if it stands at the top and has one of the names.
pub proof fn law_left_out(depth: nat, name: Seq<char>, skip_names: Seq<Seq<char>>)
    ensures
        left_out(depth, name, skip_names) <==> depth == 0 && exists|i: int|
            0 <= i < skip_names.len() && #[trigger] skip_names[i] == name,
{
}

} // verus!
