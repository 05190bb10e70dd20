//! String helpers: decimal rendering and parsing of SIDs and deltas,
//! path-segment handling, and byte/string conversions.

use vstd::prelude::*;
use vstd::string::*;
use vstd::utf8::*;

verus! {

pub open spec fn is_digit(c: char) -> bool {
    '0' <= c && c <= '9'
}

pub open spec fn digit_val(c: char) -> int {
    c as u32 - 48
}

pub open spec fn digit_chr(d: int) -> char {
    ((48 + d) as u8) as char
}

pub open spec fn all_digits(s: Seq<char>) -> bool {
    forall|i: int| 0 <= i < s.len() ==> is_digit(#[trigger] s[i])
}

/// Value of a digit string, most significant digit first.
pub open spec fn dec_val(s: Seq<char>) -> int
    decreases s.len(),
{
    if s.len() == 0 {
        0
    } else {
        dec_val(s.drop_last()) * 10 + digit_val(s.last())
    }
}

/// Decimal rendering of a natural number.
pub open spec fn udec(n: nat) -> Seq<char>
    decreases n,
{
    if n < 10 {
        seq![digit_chr(n as int)]
    } else {
        udec(n / 10).push(digit_chr((n % 10) as int))
    }
}

/// Decimal rendering of an integer, with `-` for negative values.
pub open spec fn idec(n: int) -> Seq<char> {
    if n < 0 {
        seq!['-'] + udec((-n) as nat)
    } else {
        udec(n as nat)
    }
}

/// Meaning of a string as a decimal integer: an optional leading `-`,
/// then one or more digits; anything else has no meaning.
pub open spec fn parse_int(s: Seq<char>) -> Option<int> {
    if s.len() >= 1 && s[0] == '-' {
        let d = s.skip(1);
        if d.len() >= 1 && all_digits(d) {
            Some(-dec_val(d))
        } else {
            None
        }
    } else {
        if s.len() >= 1 && all_digits(s) {
            Some(dec_val(s))
        } else {
            None
        }
    }
}

pub open spec fn parse_int_i64(s: Seq<char>) -> Option<i64> {
    match parse_int(s) {
        Some(n) => if i64::MIN <= n <= i64::MAX {
            Some(n as i64)
        } else {
            None
        },
        None => None,
    }
}

pub open spec fn parse_int_u64(s: Seq<char>) -> Option<u64> {
    if s.len() >= 1 && all_digits(s) && dec_val(s) <= u64::MAX {
        Some(dec_val(s) as u64)
    } else {
        None
    }
}

pub proof fn lemma_dec_val_nonneg(s: Seq<char>)
    requires
        all_digits(s),
    ensures
        dec_val(s) >= 0,
    decreases s.len(),
{
    if s.len() > 0 {
        assert(all_digits(s.drop_last())) by {
            assert(forall|i: int|
                0 <= i < s.len() - 1 ==> s.drop_last()[i] == #[trigger] s[i]);
        }
        lemma_dec_val_nonneg(s.drop_last());
    }
}

pub proof fn lemma_udec_digits(n: nat)
    ensures
        all_digits(udec(n)),
        udec(n).len() >= 1,
        udec(n)[0] != '-',
    decreases n,
{
    if n < 10 {
        assert(is_digit(digit_chr(n as int)));
    } else {
        lemma_udec_digits(n / 10);
        assert(is_digit(digit_chr((n % 10) as int)));
    }
}

/// Rendering a natural number and reading the digits back is the identity.
pub proof fn lemma_udec_val(n: nat)
    ensures
        dec_val(udec(n)) == n,
    decreases n,
{
    if n < 10 {
        let s = udec(n);
        assert(s.drop_last() =~= Seq::<char>::empty());
        assert(dec_val(s) == dec_val(s.drop_last()) * 10 + digit_val(s.last()));
        assert(dec_val(s.drop_last()) == 0);
        assert(s.last() == digit_chr(n as int));
        assert(digit_val(digit_chr(n as int)) == n);
    } else {
        lemma_udec_val(n / 10);
        let s = udec(n);
        assert(s.drop_last() =~= udec(n / 10));
        assert(dec_val(s) == dec_val(udec(n / 10)) * 10 + digit_val(s.last()));
        assert(s.last() == digit_chr((n % 10) as int));
        assert(digit_val(digit_chr((n % 10) as int)) == n % 10);
        assert(dec_val(s) == (n / 10) * 10 + n % 10);
        assert(n == (n / 10) * 10 + n % 10) by {
            vstd::arithmetic::div_mod::lemma_fundamental_div_mod(n as int, 10);
        }
    }
}

pub open spec fn pow10(k: nat) -> nat
    decreases k,
{
    if k == 0 {
        1nat
    } else {
        10 * pow10((k - 1) as nat)
    }
}

pub proof fn lemma_udec_len(n: nat, k: nat)
    requires
        k >= 1,
        n < pow10(k),
    ensures
        udec(n).len() <= k,
    decreases k,
{
    if n >= 10 {
        assert(pow10(k) == 10 * pow10((k - 1) as nat));
        assert(n / 10 < pow10((k - 1) as nat)) by {
            vstd::arithmetic::div_mod::lemma_fundamental_div_mod(n as int, 10);
        }
        assert(k - 1 >= 1) by {
            assert(pow10(1) == 10) by {
                reveal_with_fuel(pow10, 2);
            }
            if k == 1 {
                assert(n < 10);
            }
        }
        lemma_udec_len(n / 10, (k - 1) as nat);
    }
}

/// The decimal text of a 64-bit integer: at most 21 ASCII characters.
pub proof fn lemma_idec_small(n: int)
    requires
        -0x10000000000000000 <= n <= 0xffffffffffffffff,
    ensures
        idec(n).len() <= 21,
        is_ascii_chars(idec(n)),
        encode_utf8(idec(n)).len() == idec(n).len(),
{
    let m: nat = if n < 0 {
        (-n) as nat
    } else {
        n as nat
    };
    assert(pow10(20) == 100000000000000000000) by {
        reveal_with_fuel(pow10, 21);
    }
    lemma_udec_len(m, 20);
    lemma_udec_digits(m);
    let s = idec(n);
    assert forall|i: int| 0 <= i < s.len() implies '\0' <= #[trigger] s[i] <= '\u{7f}' by {
        if n < 0 {
            if i == 0 {
                assert(s[i] == '-');
            } else {
                assert(s[i] == udec(m)[i - 1]);
                assert(is_digit(s[i]));
            }
        } else {
            assert(is_digit(s[i]));
        }
    }
    assert(is_ascii_chars(s));
    is_ascii_chars_encode_utf8(s);
}

/// Rendering an integer and parsing it back is the identity.
pub proof fn lemma_idec_parse(n: int)
    ensures
        parse_int(idec(n)) == Some(n),
{
    if n < 0 {
        let s = idec(n);
        lemma_udec_digits((-n) as nat);
        lemma_udec_val((-n) as nat);
        assert(s.skip(1) =~= udec((-n) as nat));
    } else {
        lemma_udec_digits(n as nat);
        lemma_udec_val(n as nat);
    }
}

/// Relies on std's String::from_utf8: it returns the decoded string
/// exactly when the bytes are valid UTF-8, and an error otherwise.
#[verifier::external_body]
pub fn string_from_utf8(b: Vec<u8>) -> (r: Option<String>)
    ensures
        match r {
            Some(s) => valid_utf8(b@) && s@ == decode_utf8(b@),
            None => !valid_utf8(b@),
        },
{
    match String::from_utf8(b) {
        Ok(s) => Some(s),
        Err(_) => None,
    }
}

pub open spec fn ascii_chars_of(b: Seq<u8>) -> Seq<char> {
    b.map_values(|x: u8| x as char)
}

/// A sequence of bytes below 128 decodes as the corresponding characters.
pub proof fn lemma_ascii_decode(b: Seq<u8>)
    requires
        forall|i: int| 0 <= i < b.len() ==> #[trigger] b[i] < 128,
    ensures
        valid_utf8(b),
        decode_utf8(b) == ascii_chars_of(b),
{
    let c = ascii_chars_of(b);
    assert forall|i: int| 0 <= i < c.len() implies '\0' <= #[trigger] c[i] <= '\u{7f}' by {
        assert(c[i] == b[i] as char);
        assert(b[i] < 128);
    }
    assert(is_ascii_chars(c));
    is_ascii_chars_encode_utf8(c);
    assert forall|i: int| 0 <= i < b.len() implies encode_utf8(c)[i] == b[i] by {
        assert(c[i] == b[i] as char);
        assert(c[i] as u8 == encode_utf8(c)[i]);
    }
    assert(encode_utf8(c) =~= b);
    encode_utf8_valid_utf8(c);
    encode_utf8_decode_utf8(c);
}

/// Builds a string from bytes below 128.
pub fn ascii_string(b: Vec<u8>) -> (r: String)
    requires
        forall|i: int| 0 <= i < b@.len() ==> #[trigger] b@[i] < 128,
    ensures
        r@ == ascii_chars_of(b@),
{
    proof {
        lemma_ascii_decode(b@);
    }
    let r = string_from_utf8(b);
    match r {
        Some(s) => s,
        None => {
            proof {
                assert(false);
            }
            String::new()
        },
    }
}

pub fn push_udec_bytes(out: &mut Vec<u8>, n: u64)
    requires
        forall|i: int| 0 <= i < old(out)@.len() ==> #[trigger] old(out)@[i] < 128,
    ensures
        ascii_chars_of(final(out)@) == ascii_chars_of(old(out)@) + udec(n as nat),
        forall|i: int| 0 <= i < final(out)@.len() ==> #[trigger] final(out)@[i] < 128,
    decreases n,
{
    if n >= 10 {
        push_udec_bytes(out, n / 10);
    }
    let ghost mid = out@;
    let d: u8 = (n % 10) as u8 + 48;
    out.push(d);
    proof {
        assert(out@ == mid.push(d));
        assert(ascii_chars_of(out@) =~= ascii_chars_of(mid).push(d as char));
        if n >= 10 {
            assert((d as char) == digit_chr((n % 10) as int));
            assert(udec(n as nat) == udec((n as nat) / 10).push(digit_chr(((n as nat) % 10) as int)));
            assert((n as nat) / 10 == (n / 10) as nat);
            assert(ascii_chars_of(out@) =~= ascii_chars_of(old(out)@) + udec(n as nat));
        } else {
            assert((d as char) == digit_chr(n as int));
            assert(udec(n as nat) =~= seq![digit_chr(n as int)]);
            assert(ascii_chars_of(mid) == ascii_chars_of(old(out)@));
            assert(ascii_chars_of(out@) =~= ascii_chars_of(old(out)@) + udec(n as nat));
        }
    }
}

/// Decimal rendering of a `u64`.
pub fn u64_to_string(n: u64) -> (r: String)
    ensures
        r@ == udec(n as nat),
{
    let mut out: Vec<u8> = Vec::new();
    push_udec_bytes(&mut out, n);
    let r = ascii_string(out);
    proof {
        assert(r@ =~= udec(n as nat));
    }
    r
}

/// Decimal rendering of an `i64`.
pub fn i64_to_string(n: i64) -> (r: String)
    ensures
        r@ == idec(n as int),
{
    if n >= 0 {
        u64_to_string(n as u64)
    } else {
        let mag: u64 = if n == i64::MIN {
            9223372036854775808u64
        } else {
            (-n) as u64
        };
        let mut out: Vec<u8> = Vec::new();
        out.push(45u8);
        push_udec_bytes(&mut out, mag);
        let r = ascii_string(out);
        proof {
            assert(('-') == (45u8 as char));
            assert(r@ =~= idec(n as int));
        }
        r
    }
}

pub proof fn lemma_dec_val_prefix(s: Seq<char>, k: int)
    requires
        all_digits(s),
        0 <= k <= s.len(),
    ensures
        dec_val(s) >= dec_val(s.take(k)),
        dec_val(s) >= 0,
    decreases s.len(),
{
    lemma_dec_val_nonneg(s);
    if k < s.len() {
        let t = s.drop_last();
        assert(all_digits(t)) by {
            assert(forall|i: int| 0 <= i < t.len() ==> t[i] == #[trigger] s[i]);
        }
        lemma_dec_val_prefix(t, k);
        assert(t.take(k) =~= s.take(k));
        lemma_dec_val_nonneg(t);
        assert(dec_val(s) == dec_val(t) * 10 + digit_val(s.last()));
        assert(digit_val(s.last()) >= 0);
        assert(dec_val(t) * 10 >= dec_val(t)) by {
            assert(dec_val(t) >= 0);
        }
    } else {
        assert(s.take(k) =~= s);
    }
}

/// Equality of two string slices, specified over their views.
pub fn str_eq(a: &str, b: &str) -> (r: bool)
    ensures
        r == (a@ == b@),
{
    let ab = a.as_bytes();
    let bb = b.as_bytes();
    if ab.len() != bb.len() {
        proof {
            assert(a@ != b@);
        }
        return false;
    }
    let mut i: usize = 0;
    while i < ab.len()
        invariant
            i <= ab.len(),
            ab.len() == bb.len(),
            ab@ == encode_utf8(a@),
            bb@ == encode_utf8(b@),
            forall|j: int| 0 <= j < i ==> ab@[j] == bb@[j],
        decreases ab.len() - i,
    {
        if ab[i] != bb[i] {
            proof {
                assert(encode_utf8(a@) != encode_utf8(b@));
            }
            return false;
        }
        i = i + 1;
    }
    proof {
        assert(ab@ =~= bb@);
        encode_utf8_decode_utf8(a@);
        encode_utf8_decode_utf8(b@);
    }
    true
}

/// Reads an unsigned decimal magnitude from position `start` on.
fn parse_mag(s: &str, start: usize) -> (r: Option<u64>)
    requires
        start <= s@.len(),
    ensures
        match r {
            Some(v) => {
                &&& s@.len() > start
                &&& all_digits(s@.skip(start as int))
                &&& dec_val(s@.skip(start as int)) == v
            },
            None => {
                ||| s@.len() <= start
                ||| !all_digits(s@.skip(start as int))
                ||| dec_val(s@.skip(start as int)) > u64::MAX
            },
        },
{
    let n = s.unicode_len();
    if start >= n {
        return None;
    }
    let ghost digits = s@.skip(start as int);
    let mut acc: u64 = 0;
    let mut i: usize = start;
    while i < n
        invariant
            start <= i <= n,
            n == s@.len(),
            start < n,
            digits == s@.skip(start as int),
            all_digits(s@.subrange(start as int, i as int)),
            acc == dec_val(s@.subrange(start as int, i as int)),
        decreases n - i,
    {
        let c = s.get_char(i);
        if c < '0' || c > '9' {
            proof {
                assert(digits[i - start] == s@[i as int]);
                assert(!is_digit(digits[i - start]));
            }
            return None;
        }
        let d: u64 = (c as u32 - 48) as u64;
        let wide: u128 = acc as u128 * 10 + d as u128;
        proof {
            let pre = s@.subrange(start as int, i as int);
            let post = s@.subrange(start as int, i + 1);
            assert(post.drop_last() =~= pre);
            assert(post.last() == s@[i as int]);
            assert(dec_val(post) == dec_val(pre) * 10 + digit_val(s@[i as int]));
            assert(digit_val(s@[i as int]) == d);
        }
        if wide > 0xFFFF_FFFF_FFFF_FFFFu128 {
            proof {
                let post = s@.subrange(start as int, i + 1);
                assert(dec_val(post) > u64::MAX);
                if all_digits(digits) {
                    lemma_dec_val_prefix(digits, i + 1 - start);
                    assert(digits.take(i + 1 - start) =~= post);
                    assert(dec_val(digits) > u64::MAX);
                }
            }
            return None;
        }
        acc = wide as u64;
        i = i + 1;
        proof {
            assert(forall|j: int|
                0 <= j < i - start ==> s@.subrange(start as int, i as int)[j]
                    == #[trigger] s@[start + j]);
        }
    }
    proof {
        assert(s@.subrange(start as int, n as int) =~= digits);
    }
    Some(acc)
}

/// Parses a decimal `i64`, exactly the strings `parse_int_i64` accepts.
pub fn parse_i64_str(s: &str) -> (r: Option<i64>)
    ensures
        r == parse_int_i64(s@),
{
    let n = s.unicode_len();
    if n == 0 {
        return None;
    }
    if s.get_char(0) == '-' {
        match parse_mag(s, 1) {
            Some(mag) => {
                proof {
                    lemma_dec_val_nonneg(s@.skip(1));
                }
                if mag <= 9223372036854775807u64 {
                    Some(-(mag as i64))
                } else if mag == 9223372036854775808u64 {
                    Some(i64::MIN)
                } else {
                    None
                }
            },
            None => {
                proof {
                    if s@.skip(1).len() >= 1 && all_digits(s@.skip(1)) {
                        lemma_dec_val_nonneg(s@.skip(1));
                    }
                }
                None
            },
        }
    } else {
        match parse_mag(s, 0) {
            Some(mag) => {
                proof {
                    assert(s@.skip(0) =~= s@);
                }
                if mag <= 9223372036854775807u64 {
                    Some(mag as i64)
                } else {
                    None
                }
            },
            None => {
                proof {
                    assert(s@.skip(0) =~= s@);
                }
                None
            },
        }
    }
}

/// Position of the next `/` at or after `i`, or the end of the string.
pub open spec fn seg_end(s: Seq<char>, i: int) -> int
    decreases s.len() - i,
{
    if i < 0 || i >= s.len() || s[i] == '/' {
        i
    } else {
        seg_end(s, i + 1)
    }
}

pub proof fn lemma_seg_end(s: Seq<char>, i: int)
    requires
        0 <= i <= s.len(),
    ensures
        i <= seg_end(s, i) <= s.len(),
        i < s.len() && s[i] != '/' ==> seg_end(s, i) > i,
    decreases s.len() - i,
{
    if i < s.len() && s[i] != '/' {
        lemma_seg_end(s, i + 1);
    }
}

#[via_fn]
proof fn segments_from_dec(s: Seq<char>, i: int) {
    if 0 <= i < s.len() && s[i] != '/' {
        lemma_seg_end(s, i);
    }
}

/// The non-empty `/`-separated segments of `s`, from position `i` on.
pub open spec fn segments_from(s: Seq<char>, i: int) -> Seq<Seq<char>>
    decreases s.len() - i,
        via segments_from_dec
{
    if i < 0 || i >= s.len() {
        Seq::empty()
    } else if s[i] == '/' {
        segments_from(s, i + 1)
    } else {
        seq![s.subrange(i, seg_end(s, i))] + segments_from(s, seg_end(s, i))
    }
}

/// The non-empty `/`-separated segments of a path.
pub open spec fn spec_segments(s: Seq<char>) -> Seq<Seq<char>> {
    segments_from(s, 0)
}

fn find_seg_end(s: &str, i: usize) -> (r: usize)
    requires
        i <= s@.len(),
    ensures
        r == seg_end(s@, i as int),
        i <= r <= s@.len(),
    decreases s@.len() - i,
{
    proof {
        lemma_seg_end(s@, i as int);
    }
    if i >= s.unicode_len() {
        i
    } else if s.get_char(i) == '/' {
        i
    } else {
        find_seg_end(s, i + 1)
    }
}

fn split_from(s: &str, i: usize, out: &mut Vec<String>)
    requires
        i <= s@.len(),
    ensures
        final(out)@.len() == old(out)@.len() + segments_from(s@, i as int).len(),
        forall|j: int|
            0 <= j < old(out)@.len() ==> final(out)@[j] == #[trigger] old(out)@[j],
        forall|j: int|
            0 <= j < segments_from(s@, i as int).len() ==> #[trigger] final(out)@[old(out)@.len()
                + j]@ == segments_from(s@, i as int)[j],
    decreases s@.len() - i,
{
    if i >= s.unicode_len() {
        return;
    }
    if s.get_char(i) == '/' {
        split_from(s, i + 1, out);
        return;
    }
    let j = find_seg_end(s, i);
    proof {
        lemma_seg_end(s@, i as int);
    }
    let seg = s.substring_char(i, j).to_owned();
    let ghost seg_v = seg@;
    let ghost pre = out@;
    out.push(seg);
    let ghost mid = out@;
    split_from(s, j, out);
    proof {
        let segs = segments_from(s@, i as int);
        let rest = segments_from(s@, j as int);
        assert(segs == seq![s@.subrange(i as int, j as int)] + rest);
        assert(mid == pre.push(seg));
        assert forall|k: int| 0 <= k < segs.len() implies #[trigger] out@[pre.len() + k]@
            == segs[k] by {
            if k == 0 {
                assert(out@[pre.len() as int] == mid[pre.len() as int]);
                assert(mid[pre.len() as int]@ == seg_v);
                assert(segs[0] == s@.subrange(i as int, j as int));
            } else {
                assert(out@[mid.len() + (k - 1)]@ == rest[k - 1]);
                assert(segs[k] == rest[k - 1]);
            }
        }
        assert forall|k: int| 0 <= k < pre.len() implies out@[k] == #[trigger] pre[k] by {
            assert(out@[k] == mid[k]);
            assert(mid[k] == pre[k]);
        }
    }
}

/// Splits a path into its non-empty `/`-separated segments.
pub fn split_segments(s: &str) -> (r: Vec<String>)
    ensures
        r@.len() == spec_segments(s@).len(),
        forall|j: int| 0 <= j < r@.len() ==> #[trigger] r@[j]@ == spec_segments(s@)[j],
{
    let mut out: Vec<String> = Vec::new();
    split_from(s, 0, &mut out);
    proof {
        assert forall|j: int| 0 <= j < out@.len() implies #[trigger] out@[j]@ == spec_segments(
            s@,
        )[j] by {
            assert(out@[0 + j]@ == segments_from(s@, 0)[j]);
        }
    }
    out
}

/// The suffix of `s` after the last occurrence of `c`; all of `s` if
/// `c` does not occur.
pub open spec fn suffix_after_last(s: Seq<char>, c: char) -> Seq<char>
    decreases s.len(),
{
    if s.len() == 0 {
        s
    } else if s.last() == c {
        Seq::empty()
    } else {
        suffix_after_last(s.drop_last(), c).push(s.last())
    }
}

pub proof fn lemma_suffix_found(s: Seq<char>, c: char, j: int)
    requires
        0 <= j < s.len(),
        s[j] == c,
        forall|k: int| j < k < s.len() ==> s[k] != c,
    ensures
        suffix_after_last(s, c) =~= s.subrange(j + 1, s.len() as int),
    decreases s.len(),
{
    if j == s.len() - 1 {
        assert(s.last() == c);
    } else {
        assert(s.last() != c);
        let t = s.drop_last();
        lemma_suffix_found(t, c, j);
        assert(suffix_after_last(s, c) =~= s.subrange(j + 1, s.len() as int));
    }
}

proof fn lemma_suffix_absent(s: Seq<char>, c: char)
    requires
        forall|k: int| 0 <= k < s.len() ==> s[k] != c,
    ensures
        suffix_after_last(s, c) =~= s,
    decreases s.len(),
{
    if s.len() > 0 {
        lemma_suffix_absent(s.drop_last(), c);
    }
}

/// The part of `s` after the last `c`, as a fresh string.
pub fn suffix_after_last_str(s: &str, c: char) -> (r: String)
    ensures
        r@ == suffix_after_last(s@, c),
{
    let n = s.unicode_len();
    let mut i: usize = n;
    while i > 0
        invariant
            i <= n,
            n == s@.len(),
            forall|k: int| i <= k < n ==> s@[k] != c,
        decreases i,
    {
        if s.get_char(i - 1) == c {
            proof {
                lemma_suffix_found(s@, c, i - 1);
            }
            let r = s.substring_char(i, n).to_owned();
            proof {
                assert(r@ =~= suffix_after_last(s@, c));
            }
            return r;
        }
        i = i - 1;
    }
    proof {
        lemma_suffix_absent(s@, c);
    }
    let r = s.substring_char(0, n).to_owned();
    proof {
        assert(r@ =~= s@);
    }
    r
}

/// Index of the first occurrence of `c` at or after `i`, if any.
pub open spec fn find_from(s: Seq<char>, c: char, i: int) -> Option<int>
    decreases s.len() - i,
{
    if i < 0 || i >= s.len() {
        None
    } else if s[i] == c {
        Some(i)
    } else {
        find_from(s, c, i + 1)
    }
}

pub fn find_char_from(s: &str, c: char, i: usize) -> (r: Option<usize>)
    requires
        i <= s@.len(),
    ensures
        match r {
            Some(j) => find_from(s@, c, i as int) == Some(j as int) && i <= j < s@.len(),
            None => find_from(s@, c, i as int) is None,
        },
    decreases s@.len() - i,
{
    if i >= s.unicode_len() {
        None
    } else if s.get_char(i) == c {
        Some(i)
    } else {
        find_char_from(s, c, i + 1)
    }
}

/// Concatenation of two string slices.
pub fn str_concat(a: &str, b: &str) -> (r: String)
    ensures
        r@ == a@ + b@,
{
    let s = String::from_str(a);
    s.concat(b)
}

/// Whether the string ends with the character `c`.
pub fn ends_with_char(s: &str, c: char) -> (r: bool)
    ensures
        r == (s@.len() > 0 && s@.last() == c),
{
    let n = s.unicode_len();
    if n == 0 {
        false
    } else {
        s.get_char(n - 1) == c
    }
}

/// Extracts the substring between two character positions.
pub fn substring(s: &str, from: usize, to: usize) -> (r: String)
    requires
        from <= to <= s@.len(),
    ensures
        r@ == s@.subrange(from as int, to as int),
{
    s.substring_char(from, to).to_owned()
}

/// Parses a decimal `u64`, exactly the strings `parse_int_u64` accepts.
pub fn parse_u64_str(s: &str) -> (r: Option<u64>)
    ensures
        r == parse_int_u64(s@),
{
    let n = s.unicode_len();
    if n == 0 {
        return None;
    }
    if s.get_char(0) == '-' {
        proof {
            assert(!is_digit(s@[0]));
        }
        return None;
    }
    proof {
        assert(s@.skip(0) =~= s@);
    }
    parse_mag(s, 0)
}

} // verus!
