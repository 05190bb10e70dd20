//! JSON text codec for the data model: a recursive-descent parser over
//! the UTF-8 bytes and a compact printer. Numbers are integers here;
//! fractions, exponents and `\u` escapes are not taken.

use vstd::prelude::*;
use vstd::string::*;
use vstd::utf8::*;
use crate::error::CoreconfError;
use crate::strutil::{i64_to_string, idec, string_from_utf8, u64_to_string, udec};
use crate::value::{SpecVal, Val};

verus! {

broadcast use vstd::std_specs::vec::group_vec_axioms;

pub open spec fn is_ws(c: u8) -> bool {
    c == 32 || c == 9 || c == 10 || c == 13
}

pub open spec fn is_digit_b(c: u8) -> bool {
    48 <= c <= 57
}

/// Value of a digit byte string, most significant first.
pub open spec fn dec_val_b(s: Seq<u8>) -> int
    decreases s.len(),
{
    if s.len() == 0 {
        0
    } else {
        dec_val_b(s.drop_last()) * 10 + (s.last() - 48)
    }
}

pub open spec fn all_digits_b(s: Seq<u8>) -> bool {
    forall|i: int| 0 <= i < s.len() ==> is_digit_b(#[trigger] s[i])
}

/// End of the digit run starting at `i`.
pub open spec fn digits_end(b: Seq<u8>, i: int) -> int
    decreases b.len() - i,
{
    if i < 0 || i >= b.len() || !is_digit_b(b[i]) {
        i
    } else {
        digits_end(b, i + 1)
    }
}

proof fn lemma_digits_end(b: Seq<u8>, i: int)
    requires
        0 <= i <= b.len(),
    ensures
        i <= digits_end(b, i) <= b.len(),
        forall|k: int| i <= k < digits_end(b, i) ==> is_digit_b(#[trigger] b[k]),
        digits_end(b, i) < b.len() ==> !is_digit_b(b[digits_end(b, i)]),
    decreases b.len() - i,
{
    if i < b.len() && is_digit_b(b[i]) {
        lemma_digits_end(b, i + 1);
    }
}

/// The unescaped content bytes of a string body starting at `i` (just
/// after the opening quote), with the position after the closing quote.
pub open spec fn jstring_bytes(b: Seq<u8>, i: int) -> Option<(Seq<u8>, int)>
    decreases b.len() - i,
{
    if i < 0 || i >= b.len() {
        None
    } else if b[i] == 34 {
        Some((Seq::empty(), i + 1))
    } else if b[i] == 92 {
        if i + 1 < b.len() {
            let e = b[i + 1];
            let rep: Option<u8> = if e == 34 {
                Some(34)
            } else if e == 92 {
                Some(92)
            } else if e == 47 {
                Some(47)
            } else if e == 98 {
                Some(8)
            } else if e == 102 {
                Some(12)
            } else if e == 110 {
                Some(10)
            } else if e == 114 {
                Some(13)
            } else if e == 116 {
                Some(9)
            } else {
                None
            };
            match rep {
                Some(c) => match jstring_bytes(b, i + 2) {
                    Some((rest, j)) => Some((seq![c] + rest, j)),
                    None => None,
                },
                None => None,
            }
        } else {
            None
        }
    } else if b[i] < 32 {
        None
    } else {
        match jstring_bytes(b, i + 1) {
            Some((rest, j)) => Some((seq![b[i]] + rest, j)),
            None => None,
        }
    }
}

/// A JSON string starting at `i` (just after the opening quote).
pub open spec fn jstring(b: Seq<u8>, i: int) -> Option<(Seq<char>, int)> {
    match jstring_bytes(b, i) {
        Some((bytes, j)) => if valid_utf8(bytes) {
            Some((decode_utf8(bytes), j))
        } else {
            None
        },
        None => None,
    }
}

/// A JSON number starting at `i`: an optional minus and digits; the
/// value must fit the data model's integers.
pub open spec fn jnumber(b: Seq<u8>, i: int) -> Option<(SpecVal, int)> {
    if i < 0 || i >= b.len() {
        None
    } else if b[i] == 45 {
        let j = digits_end(b, i + 1);
        if j == i + 1 {
            None
        } else {
            let n = dec_val_b(b.subrange(i + 1, j));
            if -n >= i64::MIN {
                Some((SpecVal::Int(-n), j))
            } else {
                None
            }
        }
    } else {
        let j = digits_end(b, i);
        if j == i {
            None
        } else {
            let n = dec_val_b(b.subrange(i, j));
            if n <= u64::MAX {
                Some((SpecVal::Int(n), j))
            } else {
                None
            }
        }
    }
}

/// A JSON value starting at or after `i`, leading whitespace skipped.
pub open spec fn jvalue(b: Seq<u8>, i: int) -> Option<(SpecVal, int)>
    decreases b.len() - i, 1int,
{
    if i < 0 || i >= b.len() {
        None
    } else if is_ws(b[i]) {
        jvalue(b, i + 1)
    } else if b[i] == 123 {
        match jobj_first(b, i + 1) {
            Some((entries, j)) => Some((SpecVal::Obj(entries), j)),
            None => None,
        }
    } else if b[i] == 91 {
        match jarr_first(b, i + 1) {
            Some((items, j)) => Some((SpecVal::Arr(items), j)),
            None => None,
        }
    } else if b[i] == 34 {
        match jstring(b, i + 1) {
            Some((s, j)) => Some((SpecVal::Text(s), j)),
            None => None,
        }
    } else if b[i] == 116 {
        if i + 4 <= b.len() && b[i + 1] == 114 && b[i + 2] == 117 && b[i + 3] == 101 {
            Some((SpecVal::Bool(true), i + 4))
        } else {
            None
        }
    } else if b[i] == 102 {
        if i + 5 <= b.len() && b[i + 1] == 97 && b[i + 2] == 108 && b[i + 3] == 115 && b[i + 4]
            == 101 {
            Some((SpecVal::Bool(false), i + 5))
        } else {
            None
        }
    } else if b[i] == 110 {
        if i + 4 <= b.len() && b[i + 1] == 117 && b[i + 2] == 108 && b[i + 3] == 108 {
            Some((SpecVal::Null, i + 4))
        } else {
            None
        }
    } else if b[i] == 45 || is_digit_b(b[i]) {
        jnumber(b, i)
    } else {
        None
    }
}

/// Array items after `[`: a first value or an immediate `]`.
pub open spec fn jarr_first(b: Seq<u8>, i: int) -> Option<(Seq<SpecVal>, int)>
    decreases b.len() - i, 3int,
{
    if i < 0 || i >= b.len() {
        None
    } else if is_ws(b[i]) {
        jarr_first(b, i + 1)
    } else if b[i] == 93 {
        Some((Seq::empty(), i + 1))
    } else {
        match jvalue(b, i) {
            Some((v, j)) => if j <= i || j > b.len() {
                None
            } else {
                match jarr_rest(b, j) {
                    Some((rest, k)) => Some((seq![v] + rest, k)),
                    None => None,
                }
            },
            None => None,
        }
    }
}

/// Array items after a value: `,` and another value, or `]`.
pub open spec fn jarr_rest(b: Seq<u8>, i: int) -> Option<(Seq<SpecVal>, int)>
    decreases b.len() - i, 3int,
{
    if i < 0 || i >= b.len() {
        None
    } else if is_ws(b[i]) {
        jarr_rest(b, i + 1)
    } else if b[i] == 93 {
        Some((Seq::empty(), i + 1))
    } else if b[i] == 44 {
        match jvalue(b, i + 1) {
            Some((v, j)) => if j <= i || j > b.len() {
                None
            } else {
                match jarr_rest(b, j) {
                    Some((rest, k)) => Some((seq![v] + rest, k)),
                    None => None,
                }
            },
            None => None,
        }
    } else {
        None
    }
}

/// One `"key": value` pair, leading whitespace skipped.
pub open spec fn jpair(b: Seq<u8>, i: int) -> Option<((Seq<char>, SpecVal), int)>
    decreases b.len() - i, 2int,
{
    if i < 0 || i >= b.len() {
        None
    } else if is_ws(b[i]) {
        jpair(b, i + 1)
    } else if b[i] == 34 {
        match jstring(b, i + 1) {
            Some((k, j)) => if j <= i || j > b.len() {
                None
            } else {
                match jcolon(b, j) {
                    Some(j2) => if j2 <= j || j2 > b.len() {
                        None
                    } else {
                        match jvalue(b, j2) {
                            Some((v, j3)) => Some(((k, v), j3)),
                            None => None,
                        }
                    },
                    None => None,
                }
            },
            None => None,
        }
    } else {
        None
    }
}

/// Position after the `:` that follows a key, whitespace skipped.
pub open spec fn jcolon(b: Seq<u8>, i: int) -> Option<int>
    decreases b.len() - i,
{
    if i < 0 || i >= b.len() {
        None
    } else if is_ws(b[i]) {
        jcolon(b, i + 1)
    } else if b[i] == 58 {
        Some(i + 1)
    } else {
        None
    }
}

/// Object entries after `{`: a first pair or an immediate `}`.
pub open spec fn jobj_first(b: Seq<u8>, i: int) -> Option<(Seq<(Seq<char>, SpecVal)>, int)>
    decreases b.len() - i, 3int,
{
    if i < 0 || i >= b.len() {
        None
    } else if is_ws(b[i]) {
        jobj_first(b, i + 1)
    } else if b[i] == 125 {
        Some((Seq::empty(), i + 1))
    } else {
        match jpair(b, i) {
            Some((kv, j)) => if j <= i || j > b.len() {
                None
            } else {
                match jobj_rest(b, j) {
                    Some((rest, k)) => Some((seq![kv] + rest, k)),
                    None => None,
                }
            },
            None => None,
        }
    }
}

/// Object entries after a pair: `,` and another pair, or `}`.
pub open spec fn jobj_rest(b: Seq<u8>, i: int) -> Option<(Seq<(Seq<char>, SpecVal)>, int)>
    decreases b.len() - i, 3int,
{
    if i < 0 || i >= b.len() {
        None
    } else if is_ws(b[i]) {
        jobj_rest(b, i + 1)
    } else if b[i] == 125 {
        Some((Seq::empty(), i + 1))
    } else if b[i] == 44 {
        match jpair(b, i + 1) {
            Some((kv, j)) => if j <= i || j > b.len() {
                None
            } else {
                match jobj_rest(b, j) {
                    Some((rest, k)) => Some((seq![kv] + rest, k)),
                    None => None,
                }
            },
            None => None,
        }
    } else {
        None
    }
}

/// Whether only whitespace remains from `i` on.
pub open spec fn ws_only(b: Seq<u8>, i: int) -> bool {
    forall|k: int| i <= k < b.len() ==> is_ws(#[trigger] b[k])
}

/// What a JSON document means: one value with only whitespace around it.
pub open spec fn spec_parse_json(b: Seq<u8>) -> Option<SpecVal> {
    match jvalue(b, 0) {
        Some((v, j)) => if ws_only(b, j) {
            Some(v)
        } else {
            None
        },
        None => None,
    }
}

proof fn lemma_dec_val_b_nonneg(s: Seq<u8>)
    requires
        all_digits_b(s),
    ensures
        dec_val_b(s) >= 0,
    decreases s.len(),
{
    if s.len() > 0 {
        assert(forall|i: int| 0 <= i < s.len() - 1 ==> s.drop_last()[i] == #[trigger] s[i]);
        lemma_dec_val_b_nonneg(s.drop_last());
    }
}

proof fn lemma_dec_val_b_prefix(s: Seq<u8>, k: int)
    requires
        all_digits_b(s),
        0 <= k <= s.len(),
    ensures
        dec_val_b(s) >= dec_val_b(s.take(k)),
        dec_val_b(s) >= 0,
    decreases s.len(),
{
    lemma_dec_val_b_nonneg(s);
    if k < s.len() {
        let t = s.drop_last();
        assert(forall|i: int| 0 <= i < t.len() ==> t[i] == #[trigger] s[i]);
        lemma_dec_val_b_prefix(t, k);
        assert(t.take(k) =~= s.take(k));
        lemma_dec_val_b_nonneg(t);
        assert(dec_val_b(s) == dec_val_b(t) * 10 + (s.last() - 48));
        assert(dec_val_b(t) * 10 >= dec_val_b(t)) by {
            assert(dec_val_b(t) >= 0);
        }
    } else {
        assert(s.take(k) =~= s);
    }
}

fn is_ws_b(c: u8) -> (r: bool)
    ensures
        r == is_ws(c),
{
    c == 32 || c == 9 || c == 10 || c == 13
}

fn digit_b(c: u8) -> (r: bool)
    ensures
        r == is_digit_b(c),
{
    48 <= c && c <= 57
}

fn find_digits_end(b: &[u8], i: usize) -> (r: usize)
    requires
        i <= b@.len(),
    ensures
        r == digits_end(b@, i as int),
        i <= r <= b@.len(),
    decreases b@.len() - i,
{
    proof {
        lemma_digits_end(b@, i as int);
    }
    if i >= b.len() {
        i
    } else if !digit_b(b[i]) {
        i
    } else {
        find_digits_end(b, i + 1)
    }
}

/// Reads the digit run from `start` to `end` as an integer, if it fits
/// an unsigned 64-bit value.
fn read_digits(b: &[u8], start: usize, end: usize) -> (r: Option<u64>)
    requires
        start <= end <= b@.len(),
        forall|k: int| start <= k < end ==> is_digit_b(#[trigger] b@[k]),
    ensures
        ({
            let n = dec_val_b(b@.subrange(start as int, end as int));
            match r {
                Some(v) => v == n,
                None => n > u64::MAX,
            }
        }),
{
    let ghost digits = b@.subrange(start as int, end as int);
    let mut acc: u64 = 0;
    let mut i: usize = start;
    while i < end
        invariant
            start <= i <= end <= b@.len(),
            digits == b@.subrange(start as int, end as int),
            forall|k: int| start <= k < end ==> is_digit_b(#[trigger] b@[k]),
            acc == dec_val_b(b@.subrange(start as int, i as int)),
        decreases end - i,
    {
        let d: u64 = (b[i] - 48) as u64;
        let wide: u128 = acc as u128 * 10 + d as u128;
        proof {
            let pre = b@.subrange(start as int, i as int);
            let post = b@.subrange(start as int, i + 1);
            assert(post.drop_last() =~= pre);
            assert(post.last() == b@[i as int]);
            assert(dec_val_b(post) == dec_val_b(pre) * 10 + (b@[i as int] - 48));
        }
        if wide > 0xFFFF_FFFF_FFFF_FFFFu128 {
            proof {
                let post = b@.subrange(start as int, i + 1);
                assert(all_digits_b(digits)) by {
                    assert(forall|k: int|
                        0 <= k < digits.len() ==> digits[k] == #[trigger] b@[start + k]);
                }
                lemma_dec_val_b_prefix(digits, i + 1 - start);
                assert(digits.take(i + 1 - start) =~= post);
            }
            return None;
        }
        acc = wide as u64;
        i = i + 1;
    }
    proof {
        assert(b@.subrange(start as int, i as int) =~= digits);
    }
    Some(acc)
}

/// Reads a number at `i`.
fn parse_number(b: &[u8], i: usize) -> (r: Option<(Val, usize)>)
    requires
        i <= b@.len(),
    ensures
        match r {
            Some((v, j)) => jnumber(b@, i as int) == Some((v@, j as int)) && i < j <= b@.len(),
            None => jnumber(b@, i as int) is None,
        },
{
    if i >= b.len() {
        return None;
    }
    if b[i] == 45 {
        let e = find_digits_end(b, i + 1);
        proof {
            lemma_digits_end(b@, i + 1);
        }
        if e == i + 1 {
            return None;
        }
        match read_digits(b, i + 1, e) {
            Some(v) => {
                proof {
                    lemma_dec_val_b_nonneg(b@.subrange(i + 1, e as int));
                }
                if v <= 9223372036854775807u64 {
                    Some((Val::Int(-(v as i64)), e))
                } else if v == 9223372036854775808u64 {
                    Some((Val::Int(i64::MIN), e))
                } else {
                    None
                }
            },
            None => None,
        }
    } else {
        let e = find_digits_end(b, i);
        proof {
            lemma_digits_end(b@, i as int);
        }
        if e == i {
            return None;
        }
        match read_digits(b, i, e) {
            Some(v) => {
                proof {
                    lemma_dec_val_b_nonneg(b@.subrange(i as int, e as int));
                }
                if v <= 9223372036854775807u64 {
                    Some((Val::Int(v as i64), e))
                } else {
                    Some((Val::UInt(v), e))
                }
            },
            None => None,
        }
    }
}

/// Reads a string body at `i` (after the opening quote), unescaping it.
fn parse_string_bytes(b: &[u8], i: usize) -> (r: Option<(Vec<u8>, usize)>)
    requires
        i <= b@.len(),
    ensures
        match r {
            Some((bytes, j)) => jstring_bytes(b@, i as int) == Some((bytes@, j as int)) && i < j
                <= b@.len(),
            None => jstring_bytes(b@, i as int) is None,
        },
    decreases b@.len() - i,
{
    if i >= b.len() {
        return None;
    }
    let c = b[i];
    if c == 34 {
        let bytes: Vec<u8> = Vec::new();
        proof {
            assert(bytes@ =~= Seq::<u8>::empty());
        }
        return Some((bytes, i + 1));
    }
    if c == 92 {
        if i + 1 < b.len() {
            let e = b[i + 1];
            let rep: Option<u8> = if e == 34 {
                Some(34)
            } else if e == 92 {
                Some(92)
            } else if e == 47 {
                Some(47)
            } else if e == 98 {
                Some(8)
            } else if e == 102 {
                Some(12)
            } else if e == 110 {
                Some(10)
            } else if e == 114 {
                Some(13)
            } else if e == 116 {
                Some(9)
            } else {
                None
            };
            match rep {
                Some(rc) => match parse_string_bytes(b, i + 2) {
                    Some((mut rest, j)) => {
                        rest.insert(0, rc);
                        proof {
                            assert(rest@ =~= seq![rc]
                                + jstring_bytes(b@, i + 2)->Some_0.0);
                        }
                        Some((rest, j))
                    },
                    None => None,
                },
                None => None,
            }
        } else {
            None
        }
    } else if c < 32 {
        None
    } else {
        match parse_string_bytes(b, i + 1) {
            Some((mut rest, j)) => {
                rest.insert(0, c);
                proof {
                    assert(rest@ =~= seq![c] + jstring_bytes(b@, i + 1)->Some_0.0);
                }
                Some((rest, j))
            },
            None => None,
        }
    }
}

/// Reads a string at `i` (after the opening quote).
fn parse_string(b: &[u8], i: usize) -> (r: Option<(String, usize)>)
    requires
        i <= b@.len(),
    ensures
        match r {
            Some((s, j)) => jstring(b@, i as int) == Some((s@, j as int)) && i < j <= b@.len(),
            None => jstring(b@, i as int) is None,
        },
{
    match parse_string_bytes(b, i) {
        Some((bytes, j)) => {
            match crate::strutil::string_from_utf8(bytes) {
                Some(s) => Some((s, j)),
                None => None,
            }
        },
        None => None,
    }
}

/// Reads a value at or after `i`.
fn parse_val(b: &[u8], i: usize) -> (r: Option<(Val, usize)>)
    requires
        i <= b@.len(),
    ensures
        match r {
            Some((v, j)) => jvalue(b@, i as int) == Some((v@, j as int)) && i < j <= b@.len(),
            None => jvalue(b@, i as int) is None,
        },
    decreases b@.len() - i, 1int,
{
    if i >= b.len() {
        return None;
    }
    let c = b[i];
    if is_ws_b(c) {
        return parse_val(b, i + 1);
    }
    if c == 123 {
        match parse_obj_first(b, i + 1) {
            Some((entries, j)) => Some((Val::Obj(entries), j)),
            None => None,
        }
    } else if c == 91 {
        match parse_arr_first(b, i + 1) {
            Some((items, j)) => Some((Val::Arr(items), j)),
            None => None,
        }
    } else if c == 34 {
        match parse_string(b, i + 1) {
            Some((s, j)) => Some((Val::Text(s), j)),
            None => None,
        }
    } else if c == 116 {
        if b.len() - i >= 4 && b[i + 1] == 114 && b[i + 2] == 117 && b[i + 3] == 101 {
            Some((Val::Bool(true), i + 4))
        } else {
            None
        }
    } else if c == 102 {
        if b.len() - i >= 5 && b[i + 1] == 97 && b[i + 2] == 108 && b[i + 3] == 115 && b[i + 4]
            == 101 {
            Some((Val::Bool(false), i + 5))
        } else {
            None
        }
    } else if c == 110 {
        if b.len() - i >= 4 && b[i + 1] == 117 && b[i + 2] == 108 && b[i + 3] == 108 {
            Some((Val::Null, i + 4))
        } else {
            None
        }
    } else if c == 45 || digit_b(c) {
        parse_number(b, i)
    } else {
        None
    }
}

fn parse_arr_first(b: &[u8], i: usize) -> (r: Option<(Vec<Val>, usize)>)
    requires
        i <= b@.len(),
    ensures
        match r {
            Some((items, j)) => jarr_first(b@, i as int) == Some(
                (crate::value::view_items(items@), j as int),
            ) && i < j <= b@.len(),
            None => jarr_first(b@, i as int) is None,
        },
    decreases b@.len() - i, 3int,
{
    if i >= b.len() {
        return None;
    }
    if is_ws_b(b[i]) {
        return parse_arr_first(b, i + 1);
    }
    if b[i] == 93 {
        let items: Vec<Val> = Vec::new();
        proof {
            assert(crate::value::view_items(items@) =~= Seq::<SpecVal>::empty());
        }
        return Some((items, i + 1));
    }
    match parse_val(b, i) {
        Some((v, j)) => {
            match parse_arr_rest(b, j) {
                Some((mut rest, k)) => {
                    rest.insert(0, v);
                    proof {
                        assert(crate::value::view_items(rest@) =~= seq![v@] + jarr_rest(
                            b@,
                            j as int,
                        )->Some_0.0);
                    }
                    Some((rest, k))
                },
                None => None,
            }
        },
        None => None,
    }
}

fn parse_arr_rest(b: &[u8], i: usize) -> (r: Option<(Vec<Val>, usize)>)
    requires
        i <= b@.len(),
    ensures
        match r {
            Some((items, j)) => jarr_rest(b@, i as int) == Some(
                (crate::value::view_items(items@), j as int),
            ) && i < j <= b@.len(),
            None => jarr_rest(b@, i as int) is None,
        },
    decreases b@.len() - i, 3int,
{
    if i >= b.len() {
        return None;
    }
    if is_ws_b(b[i]) {
        return parse_arr_rest(b, i + 1);
    }
    if b[i] == 93 {
        let items: Vec<Val> = Vec::new();
        proof {
            assert(crate::value::view_items(items@) =~= Seq::<SpecVal>::empty());
        }
        return Some((items, i + 1));
    }
    if b[i] == 44 {
        match parse_val(b, i + 1) {
            Some((v, j)) => {
                match parse_arr_rest(b, j) {
                    Some((mut rest, k)) => {
                        rest.insert(0, v);
                        proof {
                            assert(crate::value::view_items(rest@) =~= seq![v@] + jarr_rest(
                                b@,
                                j as int,
                            )->Some_0.0);
                        }
                        Some((rest, k))
                    },
                    None => None,
                }
            },
            None => None,
        }
    } else {
        None
    }
}

fn parse_colon(b: &[u8], i: usize) -> (r: Option<usize>)
    requires
        i <= b@.len(),
    ensures
        match r {
            Some(j) => jcolon(b@, i as int) == Some(j as int) && i < j <= b@.len(),
            None => jcolon(b@, i as int) is None,
        },
    decreases b@.len() - i,
{
    if i >= b.len() {
        None
    } else if is_ws_b(b[i]) {
        parse_colon(b, i + 1)
    } else if b[i] == 58 {
        Some(i + 1)
    } else {
        None
    }
}

fn parse_pair(b: &[u8], i: usize) -> (r: Option<((String, Val), usize)>)
    requires
        i <= b@.len(),
    ensures
        match r {
            Some((kv, j)) => jpair(b@, i as int) == Some(((kv.0@, kv.1@), j as int)) && i < j
                <= b@.len(),
            None => jpair(b@, i as int) is None,
        },
    decreases b@.len() - i, 2int,
{
    if i >= b.len() {
        return None;
    }
    if is_ws_b(b[i]) {
        return parse_pair(b, i + 1);
    }
    if b[i] == 34 {
        match parse_string(b, i + 1) {
            Some((k, j)) => {
                match parse_colon(b, j) {
                    Some(j2) => {
                        match parse_val(b, j2) {
                            Some((v, j3)) => Some(((k, v), j3)),
                            None => None,
                        }
                    },
                    None => None,
                }
            },
            None => None,
        }
    } else {
        None
    }
}

fn parse_obj_first(b: &[u8], i: usize) -> (r: Option<(Vec<(String, Val)>, usize)>)
    requires
        i <= b@.len(),
    ensures
        match r {
            Some((entries, j)) => jobj_first(b@, i as int) == Some(
                (crate::value::view_entries(entries@), j as int),
            ) && i < j <= b@.len(),
            None => jobj_first(b@, i as int) is None,
        },
    decreases b@.len() - i, 3int,
{
    if i >= b.len() {
        return None;
    }
    if is_ws_b(b[i]) {
        return parse_obj_first(b, i + 1);
    }
    if b[i] == 125 {
        let entries: Vec<(String, Val)> = Vec::new();
        proof {
            assert(crate::value::view_entries(entries@) =~= Seq::<(Seq<char>, SpecVal)>::empty());
        }
        return Some((entries, i + 1));
    }
    match parse_pair(b, i) {
        Some((kv, j)) => {
            match parse_obj_rest(b, j) {
                Some((mut rest, k)) => {
                    let ghost kv_v = (kv.0@, kv.1@);
                    rest.insert(0, kv);
                    proof {
                        assert(crate::value::view_entries(rest@) =~= seq![kv_v] + jobj_rest(
                            b@,
                            j as int,
                        )->Some_0.0);
                    }
                    Some((rest, k))
                },
                None => None,
            }
        },
        None => None,
    }
}

fn parse_obj_rest(b: &[u8], i: usize) -> (r: Option<(Vec<(String, Val)>, usize)>)
    requires
        i <= b@.len(),
    ensures
        match r {
            Some((entries, j)) => jobj_rest(b@, i as int) == Some(
                (crate::value::view_entries(entries@), j as int),
            ) && i < j <= b@.len(),
            None => jobj_rest(b@, i as int) is None,
        },
    decreases b@.len() - i, 3int,
{
    if i >= b.len() {
        return None;
    }
    if is_ws_b(b[i]) {
        return parse_obj_rest(b, i + 1);
    }
    if b[i] == 125 {
        let entries: Vec<(String, Val)> = Vec::new();
        proof {
            assert(crate::value::view_entries(entries@) =~= Seq::<(Seq<char>, SpecVal)>::empty());
        }
        return Some((entries, i + 1));
    }
    if b[i] == 44 {
        match parse_pair(b, i + 1) {
            Some((kv, j)) => {
                match parse_obj_rest(b, j) {
                    Some((mut rest, k)) => {
                        let ghost kv_v = (kv.0@, kv.1@);
                        rest.insert(0, kv);
                        proof {
                            assert(crate::value::view_entries(rest@) =~= seq![kv_v] + jobj_rest(
                                b@,
                                j as int,
                            )->Some_0.0);
                        }
                        Some((rest, k))
                    },
                    None => None,
                }
            },
            None => None,
        }
    } else {
        None
    }
}

pub open spec fn hex_chr(d: int) -> char {
    if d < 10 {
        ((48 + d) as u8) as char
    } else {
        ((87 + d) as u8) as char
    }
}

/// The escaped form of one character inside a JSON string.
pub open spec fn esc_char(c: char) -> Seq<char> {
    if c == '"' {
        seq!['\\', '"']
    } else if c == '\\' {
        seq!['\\', '\\']
    } else if c == '\u{8}' {
        seq!['\\', 'b']
    } else if c == '\u{c}' {
        seq!['\\', 'f']
    } else if c == '\n' {
        seq!['\\', 'n']
    } else if c == '\r' {
        seq!['\\', 'r']
    } else if c == '\t' {
        seq!['\\', 't']
    } else if (c as u32) < 32 {
        seq!['\\', 'u', '0', '0', hex_chr((c as u32) as int / 16), hex_chr((c as u32) as int % 16)]
    } else {
        seq![c]
    }
}

/// The escaped body of a JSON string.
pub open spec fn esc(s: Seq<char>) -> Seq<char>
    decreases s.len(),
{
    if s.len() == 0 {
        Seq::empty()
    } else {
        esc_char(s[0]) + esc(s.drop_first())
    }
}

proof fn lemma_esc_snoc(s: Seq<char>, c: char)
    ensures
        esc(s.push(c)) == esc(s) + esc_char(c),
    decreases s.len(),
{
    if s.len() == 0 {
        assert(s.push(c).drop_first() =~= Seq::<char>::empty());
        assert(s.push(c)[0] == c);
        assert(esc(s.push(c)) == esc_char(c) + esc(s.push(c).drop_first()));
        assert(esc_char(c) + esc(s.push(c).drop_first()) =~= esc_char(c));
        assert(esc(s) + esc_char(c) =~= esc_char(c));
    } else {
        assert(s.push(c).drop_first() =~= s.drop_first().push(c));
        lemma_esc_snoc(s.drop_first(), c);
        assert(esc(s.push(c)) == esc_char(s[0]) + (esc(s.drop_first()) + esc_char(c)));
        assert(esc_char(s[0]) + (esc(s.drop_first()) + esc_char(c)) =~= (esc_char(s[0]) + esc(
            s.drop_first(),
        )) + esc_char(c));
    }
}

/// The compact JSON text of a value. Byte strings print as arrays of
/// numbers, as the untyped wire-to-JSON direction reads them.
pub open spec fn json_of(v: SpecVal) -> Seq<char>
    decreases v, 0int,
{
    match v {
        SpecVal::Null => "null"@,
        SpecVal::Bool(t) => if t {
            "true"@
        } else {
            "false"@
        },
        SpecVal::Int(n) => idec(n),
        SpecVal::Text(s) => seq!['"'] + esc(s) + seq!['"'],
        SpecVal::Bytes(bs) => seq!['['] + byte_items(bs, 0) + seq![']'],
        SpecVal::Arr(items) => seq!['['] + arr_items_text(items, 0) + seq![']'],
        SpecVal::Obj(entries) => seq!['{'] + obj_entries_text(entries, 0) + seq!['}'],
    }
}

pub open spec fn byte_items(bs: Seq<u8>, i: int) -> Seq<char>
    decreases bs.len() - i,
{
    if i < 0 || i >= bs.len() {
        Seq::empty()
    } else {
        (if i > 0 {
            seq![',']
        } else {
            Seq::empty()
        }) + udec(bs[i] as nat) + byte_items(bs, i + 1)
    }
}

pub open spec fn arr_items_text(items: Seq<SpecVal>, i: int) -> Seq<char>
    decreases items, items.len() - i,
{
    if i < 0 || i >= items.len() {
        Seq::empty()
    } else {
        (if i > 0 {
            seq![',']
        } else {
            Seq::empty()
        }) + json_of(items[i]) + arr_items_text(items, i + 1)
    }
}

pub open spec fn obj_entries_text(entries: Seq<(Seq<char>, SpecVal)>, i: int) -> Seq<char>
    decreases entries, entries.len() - i,
{
    if i < 0 || i >= entries.len() {
        Seq::empty()
    } else {
        (if i > 0 {
            seq![',']
        } else {
            Seq::empty()
        }) + seq!['"'] + esc(entries[i].0) + seq!['"', ':'] + json_of(entries[i].1)
            + obj_entries_text(entries, i + 1)
    }
}

fn write_escaped(s: &str, out: &mut String)
    ensures
        final(out)@ == old(out)@ + esc(s@),
{
    let n = s.unicode_len();
    let mut i: usize = 0;
    #[verifier::loop_isolation(false)]
    while i < n
        invariant
            i <= n,
            out@ =~= old(out)@ + esc(s@.take(i as int)),
        decreases n - i,
    {
        let c = s.get_char(i);
        proof {
            reveal_strlit("\\\"");
            reveal_strlit("\\\\");
            reveal_strlit("\\b");
            reveal_strlit("\\f");
            reveal_strlit("\\n");
            reveal_strlit("\\r");
            reveal_strlit("\\t");
        }
        if c == '"' {
            out.append("\\\"");
        } else if c == '\\' {
            out.append("\\\\");
        } else if c == '\u{8}' {
            out.append("\\b");
        } else if c == '\u{c}' {
            out.append("\\f");
        } else if c == '\n' {
            out.append("\\n");
        } else if c == '\r' {
            out.append("\\r");
        } else if c == '\t' {
            out.append("\\t");
        } else if (c as u32) < 32 {
            let d = c as u32;
            let mut hexbytes: Vec<u8> = Vec::new();
            hexbytes.push(92u8);
            hexbytes.push(117u8);
            hexbytes.push(48u8);
            hexbytes.push(48u8);
            hexbytes.push(
                if d / 16 < 10 {
                    (48 + d / 16) as u8
                } else {
                    (87 + d / 16) as u8
                },
            );
            hexbytes.push(
                if d % 16 < 10 {
                    (48 + d % 16) as u8
                } else {
                    (87 + d % 16) as u8
                },
            );
            let piece = crate::strutil::ascii_string(hexbytes);
            proof {
                reveal_strlit("\\");
                assert(piece@ =~= esc_char(c));
            }
            out.append(piece.as_str());
        } else {
            let piece = s.substring_char(i, i + 1);
            proof {
                assert(piece@ =~= seq![c]);
            }
            out.append(piece);
        }
        proof {
            lemma_esc_snoc(s@.take(i as int), c);
            assert(s@.take(i + 1) =~= s@.take(i as int).push(c));
            assert(out@ =~= old(out)@ + esc(s@.take(i + 1)));
        }
        i = i + 1;
    }
    proof {
        assert(s@.take(n as int) =~= s@);
    }
}

/// Appends the compact JSON text of a value.
pub fn write_json(v: &Val, out: &mut String)
    ensures
        final(out)@ == old(out)@ + json_of(v@),
    decreases v,
{
    match v {
        Val::Null => {
            out.append("null");
        },
        Val::Bool(t) => {
            if *t {
                out.append("true");
            } else {
                out.append("false");
            }
        },
        Val::Int(n) => {
            let text = i64_to_string(*n);
            out.append(text.as_str());
        },
        Val::UInt(n) => {
            let text = u64_to_string(*n);
            out.append(text.as_str());
        },
        Val::Text(s) => {
            out.append("\"");
            write_escaped(s.as_str(), out);
            out.append("\"");
            proof {
                reveal_strlit("\"");
                assert(out@ =~= old(out)@ + json_of(v@));
            }
        },
        Val::Bytes(bs) => {
            out.append("[");
            write_bytes_items(bs, 0, out);
            out.append("]");
            proof {
                reveal_strlit("[");
                reveal_strlit("]");
                assert(out@ =~= old(out)@ + json_of(v@));
            }
        },
        Val::Arr(items) => {
            out.append("[");
            write_arr_items(items, 0, out);
            out.append("]");
            proof {
                reveal_strlit("[");
                reveal_strlit("]");
                assert(crate::value::view_items(items@) == v@->Arr_0);
                assert(out@ =~= old(out)@ + json_of(v@));
            }
        },
        Val::Obj(entries) => {
            out.append("{");
            write_obj_entries(entries, 0, out);
            out.append("}");
            proof {
                reveal_strlit("{");
                reveal_strlit("}");
                assert(crate::value::view_entries(entries@) == v@->Obj_0);
                assert(out@ =~= old(out)@ + json_of(v@));
            }
        },
    }
}

fn write_bytes_items(bs: &Vec<u8>, i: usize, out: &mut String)
    requires
        i <= bs@.len(),
    ensures
        final(out)@ == old(out)@ + byte_items(bs@, i as int),
    decreases bs@.len() - i,
{
    if i >= bs.len() {
        return ;
    }
    if i > 0 {
        out.append(",");
        proof {
            reveal_strlit(",");
        }
    }
    let text = u64_to_string(bs[i] as u64);
    out.append(text.as_str());
    write_bytes_items(bs, i + 1, out);
    proof {
        assert(out@ =~= old(out)@ + byte_items(bs@, i as int));
    }
}

fn write_arr_items(items: &Vec<Val>, i: usize, out: &mut String)
    requires
        i <= items@.len(),
    ensures
        final(out)@ == old(out)@ + arr_items_text(crate::value::view_items(items@), i as int),
    decreases items, items@.len() - i,
{
    let ghost iv = crate::value::view_items(items@);
    if i >= items.len() {
        return ;
    }
    if i > 0 {
        out.append(",");
        proof {
            reveal_strlit(",");
        }
    }
    proof {
        assert(decreases_to!(items => items@));
        assert(decreases_to!(items@ => items@[i as int]));
    }
    write_json(&items[i], out);
    write_arr_items(items, i + 1, out);
    proof {
        assert(iv[i as int] == items@[i as int]@);
        assert(out@ =~= old(out)@ + arr_items_text(iv, i as int));
    }
}

fn write_obj_entries(entries: &Vec<(String, Val)>, i: usize, out: &mut String)
    requires
        i <= entries@.len(),
    ensures
        final(out)@ == old(out)@ + obj_entries_text(
            crate::value::view_entries(entries@),
            i as int,
        ),
    decreases entries, entries@.len() - i,
{
    let ghost ev = crate::value::view_entries(entries@);
    if i >= entries.len() {
        return ;
    }
    if i > 0 {
        out.append(",");
        proof {
            reveal_strlit(",");
        }
    }
    out.append("\"");
    write_escaped(entries[i].0.as_str(), out);
    out.append("\":");
    proof {
        assert(decreases_to!(entries => entries@));
        assert(decreases_to!(entries@ => entries@[i as int]));
        assert(decreases_to!(entries@[i as int] => entries@[i as int].1));
    }
    write_json(&entries[i].1, out);
    write_obj_entries(entries, i + 1, out);
    proof {
        reveal_strlit("\"");
        reveal_strlit("\":");
        assert(ev[i as int].0 == entries@[i as int].0@);
        assert(ev[i as int].1 == entries@[i as int].1@);
        assert(out@ =~= old(out)@ + obj_entries_text(ev, i as int));
    }
}

/// The compact JSON text of a value, as a fresh string.
pub fn to_json_text(v: &Val) -> (r: String)
    ensures
        r@ == json_of(v@),
{
    let mut out = String::new();
    write_json(v, &mut out);
    proof {
        assert(out@ =~= json_of(v@));
    }
    out
}

fn json_err() -> (r: CoreconfError)
    ensures
        r is Json,
{
    CoreconfError::Json(String::from_str("malformed JSON document"))
}

/// Parses a JSON document: one value with only whitespace around it.
pub fn parse_json(s: &str) -> (r: Result<Val, CoreconfError>)
    ensures
        match r {
            Ok(v) => spec_parse_json(encode_utf8(s@)) == Some(v@),
            Err(e) => spec_parse_json(encode_utf8(s@)) is None && e is Json,
        },
{
    let b = s.as_bytes();
    match parse_val(b, 0) {
        Some((v, j)) => {
            let mut i: usize = j;
            #[verifier::loop_isolation(false)]
            while i < b.len()
                invariant
                    j <= i <= b@.len(),
                    forall|k: int| j <= k < i ==> is_ws(#[trigger] b@[k]),
                decreases b@.len() - i,
            {
                if !is_ws_b(b[i]) {
                    proof {
                        assert(!ws_only(b@, j as int));
                    }
                    return Err(json_err());
                }
                i = i + 1;
            }
            proof {
                assert(ws_only(b@, j as int));
            }
            Ok(v)
        },
        None => Err(json_err()),
    }
}

} // verus!
