//! CBOR subset codec for the CORECONF wire formats: definite-length
//! maps with text-string keys, definite-length arrays, integers, text
//! strings, byte strings, booleans and null.

use vstd::prelude::*;
use vstd::slice::*;
use vstd::string::*;
use vstd::utf8::*;
use crate::value::{SpecVal, Val};
use crate::strutil::string_from_utf8;
use crate::error::CoreconfError;

verus! {

broadcast use vstd::std_specs::vec::group_vec_axioms;

/// Header bytes (major type and argument) in shortest form.
pub open spec fn enc_arg(major: nat, n: nat) -> Seq<u8> {
    if n < 24 {
        seq![(32 * major + n) as u8]
    } else if n < 256 {
        seq![(32 * major + 24) as u8, n as u8]
    } else if n < 65536 {
        seq![(32 * major + 25) as u8, (n / 256) as u8, (n % 256) as u8]
    } else if n < 4294967296 {
        seq![
            (32 * major + 26) as u8,
            (n / 16777216) as u8,
            ((n / 65536) % 256) as u8,
            ((n / 256) % 256) as u8,
            (n % 256) as u8,
        ]
    } else {
        seq![
            (32 * major + 27) as u8,
            ((n / 72057594037927936) % 256) as u8,
            ((n / 281474976710656) % 256) as u8,
            ((n / 1099511627776) % 256) as u8,
            ((n / 4294967296) % 256) as u8,
            ((n / 16777216) % 256) as u8,
            ((n / 65536) % 256) as u8,
            ((n / 256) % 256) as u8,
            (n % 256) as u8,
        ]
    }
}

/// Encoding of a text string.
pub open spec fn text_enc(s: Seq<char>) -> Seq<u8> {
    enc_arg(3, encode_utf8(s).len()) + encode_utf8(s)
}

/// Encoding of one value.
pub open spec fn cbor_enc(v: SpecVal) -> Seq<u8>
    decreases v, 0int,
{
    match v {
        SpecVal::Null => seq![0xf6u8],
        SpecVal::Bool(b) => if b {
            seq![0xf5u8]
        } else {
            seq![0xf4u8]
        },
        SpecVal::Int(n) => if n >= 0 {
            enc_arg(0, n as nat)
        } else {
            enc_arg(1, (-1 - n) as nat)
        },
        SpecVal::Text(s) => text_enc(s),
        SpecVal::Bytes(b) => enc_arg(2, b.len()) + b,
        SpecVal::Arr(items) => enc_arg(4, items.len()) + enc_items(items, 0),
        SpecVal::Obj(entries) => enc_arg(5, entries.len()) + enc_entries(entries, 0),
    }
}

/// Encoding of the array elements from index `i` on.
pub open spec fn enc_items(items: Seq<SpecVal>, i: int) -> Seq<u8>
    decreases items, items.len() - i,
{
    if i < 0 || i >= items.len() {
        Seq::empty()
    } else {
        cbor_enc(items[i]) + enc_items(items, i + 1)
    }
}

/// Encoding of the map entries from index `i` on.
pub open spec fn enc_entries(entries: Seq<(Seq<char>, SpecVal)>, i: int) -> Seq<u8>
    decreases entries, entries.len() - i,
{
    if i < 0 || i >= entries.len() {
        Seq::empty()
    } else {
        text_enc(entries[i].0) + cbor_enc(entries[i].1) + enc_entries(entries, i + 1)
    }
}

/// Appends the bytes of a slice.
pub fn push_slice(out: &mut Vec<u8>, s: &[u8])
    ensures
        final(out)@ == old(out)@ + s@,
{
    let mut i: usize = 0;
    while i < s.len()
        invariant
            i <= s@.len(),
            out@ =~= old(out)@ + s@.subrange(0, i as int),
        decreases s@.len() - i,
    {
        out.push(s[i]);
        i = i + 1;
    }
    proof {
        assert(out@ =~= old(out)@ + s@);
    }
}

/// Appends a shortest-form header for `major` and argument `n`.
fn push_arg(out: &mut Vec<u8>, major: u8, n: u64)
    requires
        major <= 5,
    ensures
        final(out)@ == old(out)@ + enc_arg(major as nat, n as nat),
{
    let m: u8 = major * 32;
    if n < 24 {
        out.push(m + n as u8);
    } else if n < 256 {
        out.push(m + 24);
        out.push(n as u8);
    } else if n < 65536 {
        out.push(m + 25);
        out.push((n / 256) as u8);
        out.push((n % 256) as u8);
    } else if n < 4294967296 {
        out.push(m + 26);
        out.push((n / 16777216) as u8);
        out.push(((n / 65536) % 256) as u8);
        out.push(((n / 256) % 256) as u8);
        out.push((n % 256) as u8);
    } else {
        out.push(m + 27);
        out.push(((n / 72057594037927936) % 256) as u8);
        out.push(((n / 281474976710656) % 256) as u8);
        out.push(((n / 1099511627776) % 256) as u8);
        out.push(((n / 4294967296) % 256) as u8);
        out.push(((n / 16777216) % 256) as u8);
        out.push(((n / 65536) % 256) as u8);
        out.push(((n / 256) % 256) as u8);
        out.push((n % 256) as u8);
    }
    proof {
        assert(out@ =~= old(out)@ + enc_arg(major as nat, n as nat));
    }
}

/// Appends the encoding of a text string.
fn push_text(out: &mut Vec<u8>, s: &str)
    ensures
        final(out)@ == old(out)@ + text_enc(s@),
{
    let bytes = s.as_bytes();
    push_arg(out, 3, bytes.len() as u64);
    push_slice(out, bytes);
    proof {
        assert(out@ =~= old(out)@ + text_enc(s@));
    }
}

/// Appends the encoding of one value.
#[verifier::rlimit(60)]
pub fn cbor_encode_into(v: &Val, out: &mut Vec<u8>)
    ensures
        final(out)@ == old(out)@ + cbor_enc(v@),
    decreases v,
{
    match v {
        Val::Null => {
            out.push(0xf6u8);
            proof {
                assert(out@ =~= old(out)@ + cbor_enc(v@));
            }
        },
        Val::Bool(b) => {
            if *b {
                out.push(0xf5u8);
            } else {
                out.push(0xf4u8);
            }
            proof {
                assert(out@ =~= old(out)@ + cbor_enc(v@));
            }
        },
        Val::Int(n) => {
            if *n >= 0 {
                push_arg(out, 0, *n as u64);
            } else {
                let mag: u64 = (-1 - *n) as u64;
                push_arg(out, 1, mag);
            }
        },
        Val::UInt(n) => {
            push_arg(out, 0, *n);
        },
        Val::Text(s) => {
            push_text(out, s.as_str());
        },
        Val::Bytes(b) => {
            push_arg(out, 2, b.len() as u64);
            push_slice(out, b.as_slice());
        },
        Val::Arr(items) => {
            push_arg(out, 4, items.len() as u64);
            let mut i: usize = 0;
            #[verifier::loop_isolation(false)]
            while i < items.len()
                invariant
                    i <= items.len(),
                    out@ =~= old(out)@ + enc_arg(4, items@.len() as nat) + enc_items_to(
                        crate::value::view_items(items@),
                        i as int,
                    ),
                decreases items.len() - i,
            {
                proof {
                    assert(decreases_to!(items => items@));
                    assert(decreases_to!(items@ => items@[i as int]));
                }
                cbor_encode_into(&items[i], out);
                proof {
                    let iv = crate::value::view_items(items@);
                    lemma_enc_items_to_snoc(iv, i as int);
                    assert(iv[i as int] == items@[i as int]@);
                    assert(out@ =~= old(out)@ + enc_arg(4, items@.len() as nat) + enc_items_to(
                        iv,
                        i + 1,
                    ));
                }
                i = i + 1;
            }
            proof {
                let iv = crate::value::view_items(items@);
                lemma_enc_items_split(iv, iv.len() as int);
                assert(enc_items(iv, iv.len() as int) =~= Seq::empty());
                assert(enc_items_to(iv, iv.len() as int) + enc_items(iv, iv.len() as int)
                    =~= enc_items_to(iv, iv.len() as int));
                assert(out@ =~= old(out)@ + cbor_enc(v@));
            }
        },
        Val::Obj(entries) => {
            push_arg(out, 5, entries.len() as u64);
            let mut i: usize = 0;
            #[verifier::loop_isolation(false)]
            while i < entries.len()
                invariant
                    i <= entries.len(),
                    out@ =~= old(out)@ + enc_arg(5, entries@.len() as nat) + enc_entries_to(
                        crate::value::view_entries(entries@),
                        i as int,
                    ),
                decreases entries.len() - i,
            {
                proof {
                    assert(decreases_to!(entries => entries@));
                    assert(decreases_to!(entries@ => entries@[i as int]));
                    assert(decreases_to!(entries@[i as int] => entries@[i as int].1));
                }
                push_text(out, entries[i].0.as_str());
                cbor_encode_into(&entries[i].1, out);
                proof {
                    let ev = crate::value::view_entries(entries@);
                    lemma_enc_entries_to_snoc(ev, i as int);
                    assert(ev[i as int].0 == entries@[i as int].0@);
                    assert(ev[i as int].1 == entries@[i as int].1@);
                    assert(out@ =~= old(out)@ + enc_arg(5, entries@.len() as nat) + enc_entries_to(
                        ev,
                        i + 1,
                    ));
                }
                i = i + 1;
            }
            proof {
                let ev = crate::value::view_entries(entries@);
                lemma_enc_entries_split(ev, ev.len() as int);
                assert(enc_entries(ev, ev.len() as int) =~= Seq::empty());
                assert(enc_entries_to(ev, ev.len() as int) + enc_entries(ev, ev.len() as int)
                    =~= enc_entries_to(ev, ev.len() as int));
                assert(out@ =~= old(out)@ + cbor_enc(v@));
            }
        },
    }
}

/// Encoding of the array elements before index `i`.
pub open spec fn enc_items_to(items: Seq<SpecVal>, i: int) -> Seq<u8>
    decreases i,
{
    if i <= 0 || i > items.len() {
        Seq::empty()
    } else {
        enc_items_to(items, i - 1) + cbor_enc(items[i - 1])
    }
}

/// Encoding of the map entries before index `i`.
pub open spec fn enc_entries_to(entries: Seq<(Seq<char>, SpecVal)>, i: int) -> Seq<u8>
    decreases i,
{
    if i <= 0 || i > entries.len() {
        Seq::empty()
    } else {
        enc_entries_to(entries, i - 1) + text_enc(entries[i - 1].0) + cbor_enc(entries[i - 1].1)
    }
}

proof fn lemma_enc_items_to_snoc(items: Seq<SpecVal>, i: int)
    requires
        0 <= i < items.len(),
    ensures
        enc_items_to(items, i + 1) == enc_items_to(items, i) + cbor_enc(items[i]),
{
}

proof fn lemma_enc_entries_to_snoc(entries: Seq<(Seq<char>, SpecVal)>, i: int)
    requires
        0 <= i < entries.len(),
    ensures
        enc_entries_to(entries, i + 1) == enc_entries_to(entries, i) + text_enc(entries[i].0)
            + cbor_enc(entries[i].1),
{
}

/// The two spellings of the element encoding agree.
proof fn lemma_enc_items_split(items: Seq<SpecVal>, i: int)
    requires
        0 <= i <= items.len(),
    ensures
        enc_items(items, 0) == enc_items_to(items, i) + enc_items(items, i),
    decreases i,
{
    if i > 0 {
        lemma_enc_items_split(items, i - 1);
        assert(enc_items(items, i - 1) == cbor_enc(items[i - 1]) + enc_items(items, i));
        assert(enc_items_to(items, i) + enc_items(items, i) =~= enc_items_to(items, i - 1) + (
        cbor_enc(items[i - 1]) + enc_items(items, i)));
    } else {
        assert(enc_items_to(items, 0) + enc_items(items, 0) =~= enc_items(items, 0));
    }
}

proof fn lemma_enc_entries_split(entries: Seq<(Seq<char>, SpecVal)>, i: int)
    requires
        0 <= i <= entries.len(),
    ensures
        enc_entries(entries, 0) == enc_entries_to(entries, i) + enc_entries(entries, i),
    decreases i,
{
    if i > 0 {
        lemma_enc_entries_split(entries, i - 1);
        assert(enc_entries(entries, i - 1) == text_enc(entries[i - 1].0) + cbor_enc(
            entries[i - 1].1,
        ) + enc_entries(entries, i));
        assert(enc_entries_to(entries, i) + enc_entries(entries, i) =~= enc_entries_to(
            entries,
            i - 1,
        ) + (text_enc(entries[i - 1].0) + cbor_enc(entries[i - 1].1) + enc_entries(entries, i)));
    } else {
        assert(enc_entries_to(entries, 0) + enc_entries(entries, 0) =~= enc_entries(entries, 0));
    }
}

/// Reads a header: major type, argument, and header length. Indefinite
/// lengths and the reserved argument forms are refused.
pub open spec fn dec_arg(b: Seq<u8>) -> Option<(nat, nat, int)> {
    if b.len() < 1 {
        None
    } else {
        let m = (b[0] / 32) as nat;
        let ai = b[0] % 32;
        if ai < 24 {
            Some((m, ai as nat, 1))
        } else if ai == 24 {
            if b.len() >= 2 {
                Some((m, b[1] as nat, 2))
            } else {
                None
            }
        } else if ai == 25 {
            if b.len() >= 3 {
                Some((m, (b[1] as nat) * 256 + b[2] as nat, 3))
            } else {
                None
            }
        } else if ai == 26 {
            if b.len() >= 5 {
                Some(
                    (
                        m,
                        (b[1] as nat) * 16777216 + (b[2] as nat) * 65536 + (b[3] as nat) * 256 + (
                        b[4] as nat),
                        5,
                    ),
                )
            } else {
                None
            }
        } else if ai == 27 {
            if b.len() >= 9 {
                Some(
                    (
                        m,
                        (b[1] as nat) * 72057594037927936 + (b[2] as nat) * 281474976710656 + (
                        b[3] as nat) * 1099511627776 + (b[4] as nat) * 4294967296 + (b[5] as nat)
                            * 16777216 + (b[6] as nat) * 65536 + (b[7] as nat) * 256 + (b[8] as nat),
                        9,
                    ),
                )
            } else {
                None
            }
        } else {
            None
        }
    }
}

/// Decoding of one value from the front of `b`: the value and the
/// number of bytes it took. Floats, tags, indefinite lengths, non-text
/// map keys and integers outside the data model are refused.
pub open spec fn cbor_dec(b: Seq<u8>) -> Option<(SpecVal, int)>
    decreases b.len(), 0int,
{
    if b.len() == 0 {
        None
    } else if b[0] == 0xf4 {
        Some((SpecVal::Bool(false), 1))
    } else if b[0] == 0xf5 {
        Some((SpecVal::Bool(true), 1))
    } else if b[0] == 0xf6 {
        Some((SpecVal::Null, 1))
    } else if b[0] >= 0xc0 {
        None
    } else {
        match dec_arg(b) {
            None => None,
            Some((m, n, hl)) => {
                if m == 0 {
                    Some((SpecVal::Int(n as int), hl))
                } else if m == 1 {
                    if n < 0x8000000000000000 {
                        Some((SpecVal::Int(-1 - n), hl))
                    } else {
                        None
                    }
                } else if m == 2 {
                    if hl + n <= b.len() {
                        Some((SpecVal::Bytes(b.subrange(hl, hl + n)), hl + n))
                    } else {
                        None
                    }
                } else if m == 3 {
                    if hl + n <= b.len() && valid_utf8(b.subrange(hl, hl + n)) {
                        Some((SpecVal::Text(decode_utf8(b.subrange(hl, hl + n))), hl + n))
                    } else {
                        None
                    }
                } else if m == 4 {
                    match dec_items(b.skip(hl), n) {
                        None => None,
                        Some((items, used)) => Some((SpecVal::Arr(items), hl + used)),
                    }
                } else {
                    match dec_entries(b.skip(hl), n) {
                        None => None,
                        Some((entries, used)) => Some((SpecVal::Obj(entries), hl + used)),
                    }
                }
            },
        }
    }
}

/// Decoding of `n` successive values.
pub open spec fn dec_items(b: Seq<u8>, n: nat) -> Option<(Seq<SpecVal>, int)>
    decreases b.len(), n,
{
    if n == 0 {
        Some((Seq::empty(), 0))
    } else {
        match cbor_dec(b) {
            None => None,
            Some((v, used)) => {
                if used < 1 || used > b.len() {
                    None
                } else {
                    match dec_items(b.skip(used), (n - 1) as nat) {
                        None => None,
                        Some((rest, used2)) => Some((seq![v] + rest, used + used2)),
                    }
                }
            },
        }
    }
}

/// Decoding of `n` successive text-keyed map entries.
pub open spec fn dec_entries(b: Seq<u8>, n: nat) -> Option<(Seq<(Seq<char>, SpecVal)>, int)>
    decreases b.len(), n,
{
    if n == 0 {
        Some((Seq::empty(), 0))
    } else {
        match cbor_dec(b) {
            Some((SpecVal::Text(k), usedk)) => {
                if usedk < 1 || usedk > b.len() {
                    None
                } else {
                    match cbor_dec(b.skip(usedk)) {
                        None => None,
                        Some((v, usedv)) => {
                            if usedv < 1 || usedk + usedv > b.len() {
                                None
                            } else {
                                match dec_entries(b.skip(usedk + usedv), (n - 1) as nat) {
                                    None => None,
                                    Some((rest, used2)) => Some(
                                        (seq![(k, v)] + rest, usedk + usedv + used2),
                                    ),
                                }
                            }
                        },
                    }
                }
            },
            _ => None,
        }
    }
}

/// Reads a header at `pos`.
fn read_arg(b: &[u8], pos: usize) -> (r: Option<(u8, u64, usize)>)
    requires
        pos <= b@.len(),
    ensures
        match r {
            Some((m, n, hl)) => {
                &&& dec_arg(b@.skip(pos as int)) == Some((m as nat, n as nat, hl as int))
                &&& pos + hl <= b@.len()
                &&& 1 <= hl
            },
            None => dec_arg(b@.skip(pos as int)) is None,
        },
{
    proof {
        assert(forall|k: int|
            0 <= k < b@.len() - pos ==> b@.skip(pos as int)[k] == #[trigger] b@[pos + k]);
    }
    if pos >= b.len() {
        return None;
    }
    let b0 = b[pos];
    let m = b0 / 32;
    let ai = b0 % 32;
    if ai < 24 {
        Some((m, ai as u64, 1))
    } else if ai == 24 {
        if b.len() - pos >= 2 {
            Some((m, b[pos + 1] as u64, 2))
        } else {
            None
        }
    } else if ai == 25 {
        if b.len() - pos >= 3 {
            Some((m, (b[pos + 1] as u64) * 256 + b[pos + 2] as u64, 3))
        } else {
            None
        }
    } else if ai == 26 {
        if b.len() - pos >= 5 {
            Some(
                (
                    m,
                    (b[pos + 1] as u64) * 16777216 + (b[pos + 2] as u64) * 65536 + (b[pos
                        + 3] as u64) * 256 + (b[pos + 4] as u64),
                    5,
                ),
            )
        } else {
            None
        }
    } else if ai == 27 {
        if b.len() - pos >= 9 {
            Some(
                (
                    m,
                    (b[pos + 1] as u64) * 72057594037927936 + (b[pos + 2] as u64) * 281474976710656
                        + (b[pos + 3] as u64) * 1099511627776 + (b[pos + 4] as u64) * 4294967296 + (
                    b[pos + 5] as u64) * 16777216 + (b[pos + 6] as u64) * 65536 + (b[pos
                        + 7] as u64) * 256 + (b[pos + 8] as u64),
                    9,
                ),
            )
        } else {
            None
        }
    } else {
        None
    }
}

fn dec_err() -> (r: CoreconfError)
    ensures
        r is CborDecode,
{
    CoreconfError::CborDecode(String::from_str("malformed CBOR item"))
}

/// Decodes one value at `pos`; returns it with the position after it.
pub fn cbor_decode_at(b: &[u8], pos: usize) -> (r: Result<(Val, usize), CoreconfError>)
    requires
        pos <= b@.len(),
    ensures
        match r {
            Ok((v, end)) => {
                &&& cbor_dec(b@.skip(pos as int)) == Some((v@, end - pos as int))
                &&& pos < end <= b@.len()
            },
            Err(e) => cbor_dec(b@.skip(pos as int)) is None && e is CborDecode,
        },
    decreases b@.len() - pos, 0int,
{
    let ghost tail = b@.skip(pos as int);
    proof {
        assert(forall|k: int|
            0 <= k < b@.len() - pos ==> tail[k] == #[trigger] b@[pos + k]);
    }
    if pos >= b.len() {
        return Err(dec_err());
    }
    let b0 = b[pos];
    if b0 == 0xf4 {
        return Ok((Val::Bool(false), pos + 1));
    }
    if b0 == 0xf5 {
        return Ok((Val::Bool(true), pos + 1));
    }
    if b0 == 0xf6 {
        return Ok((Val::Null, pos + 1));
    }
    if b0 >= 0xc0 {
        return Err(dec_err());
    }
    let arg = read_arg(b, pos);
    match arg {
        None => Err(dec_err()),
        Some((m, n, hl)) => {
            if m == 0 {
                if n <= 0x7fffffffffffffffu64 {
                    Ok((Val::Int(n as i64), pos + hl))
                } else {
                    Ok((Val::UInt(n), pos + hl))
                }
            } else if m == 1 {
                if n < 0x8000000000000000u64 {
                    let v: i64 = -1 - (n as i64);
                    Ok((Val::Int(v), pos + hl))
                } else {
                    Err(dec_err())
                }
            } else if m == 2 {
                if n <= (b.len() - pos - hl) as u64 {
                    let start = pos + hl;
                    let end = start + n as usize;
                    let sub = slice_subrange(b, start, end);
                    let bytes = slice_to_vec(sub);
                    proof {
                        assert(bytes@ =~= tail.subrange(hl as int, hl + n as int));
                    }
                    Ok((Val::Bytes(bytes), end))
                } else {
                    Err(dec_err())
                }
            } else if m == 3 {
                if n <= (b.len() - pos - hl) as u64 {
                    let start = pos + hl;
                    let end = start + n as usize;
                    let sub = slice_subrange(b, start, end);
                    let bytes = slice_to_vec(sub);
                    proof {
                        assert(bytes@ =~= tail.subrange(hl as int, hl + n as int));
                    }
                    match string_from_utf8(bytes) {
                        Some(s) => Ok((Val::Text(s), end)),
                        None => Err(dec_err()),
                    }
                } else {
                    Err(dec_err())
                }
            } else if m == 4 {
                proof {
                    assert(tail.skip(hl as int) =~= b@.skip(pos + hl));
                }
                match dec_items_at(b, pos + hl, n) {
                    Ok((items, end)) => {
                        proof {
                            assert(crate::value::view_items(items@) == dec_items(
                                tail.skip(hl as int),
                                n as nat,
                            )->Some_0.0);
                        }
                        Ok((Val::Arr(items), end))
                    },
                    Err(e) => Err(e),
                }
            } else {
                proof {
                    assert(tail.skip(hl as int) =~= b@.skip(pos + hl));
                }
                match dec_entries_at(b, pos + hl, n) {
                    Ok((entries, end)) => Ok((Val::Obj(entries), end)),
                    Err(e) => Err(e),
                }
            }
        },
    }
}

/// Decodes `n` successive values starting at `pos`.
fn dec_items_at(b: &[u8], pos: usize, n: u64) -> (r: Result<(Vec<Val>, usize), CoreconfError>)
    requires
        pos <= b@.len(),
    ensures
        match r {
            Ok((items, end)) => {
                &&& dec_items(b@.skip(pos as int), n as nat) == Some(
                    (crate::value::view_items(items@), end - pos as int),
                )
                &&& pos <= end <= b@.len()
            },
            Err(e) => dec_items(b@.skip(pos as int), n as nat) is None && e is CborDecode,
        },
    decreases b@.len() - pos, n,
{
    if n == 0 {
        let items: Vec<Val> = Vec::new();
        proof {
            assert(crate::value::view_items(items@) =~= Seq::<SpecVal>::empty());
        }
        return Ok((items, pos));
    }
    match cbor_decode_at(b, pos) {
        Err(e) => Err(e),
        Ok((v, end1)) => {
            proof {
                assert(b@.skip(pos as int).skip(end1 - pos as int) =~= b@.skip(end1 as int));
            }
            match dec_items_at(b, end1, n - 1) {
                Err(e) => Err(e),
                Ok((mut rest, end2)) => {
                    rest.insert(0, v);
                    proof {
                        let whole = dec_items(b@.skip(pos as int), n as nat);
                        let restv = dec_items(b@.skip(end1 as int), (n - 1) as nat);
                        assert(crate::value::view_items(rest@) =~= seq![v@]
                            + restv->Some_0.0);
                    }
                    Ok((rest, end2))
                },
            }
        },
    }
}

/// Decodes `n` successive text-keyed entries starting at `pos`.
fn dec_entries_at(b: &[u8], pos: usize, n: u64) -> (r: Result<
    (Vec<(String, Val)>, usize),
    CoreconfError,
>)
    requires
        pos <= b@.len(),
    ensures
        match r {
            Ok((entries, end)) => {
                &&& dec_entries(b@.skip(pos as int), n as nat) == Some(
                    (crate::value::view_entries(entries@), end - pos as int),
                )
                &&& pos <= end <= b@.len()
            },
            Err(e) => dec_entries(b@.skip(pos as int), n as nat) is None && e is CborDecode,
        },
    decreases b@.len() - pos, n,
{
    if n == 0 {
        let entries: Vec<(String, Val)> = Vec::new();
        proof {
            assert(crate::value::view_entries(entries@) =~= Seq::<(Seq<char>, SpecVal)>::empty());
        }
        return Ok((entries, pos));
    }
    match cbor_decode_at(b, pos) {
        Err(e) => Err(e),
        Ok((kv, end1)) => {
            match kv {
                Val::Text(k) => {
                    match cbor_decode_at(b, end1) {
                        Err(e) => {
                            proof {
                                assert(b@.skip(pos as int).skip(end1 - pos as int) =~= b@.skip(
                                    end1 as int,
                                ));
                            }
                            Err(e)
                        },
                        Ok((v, end2)) => {
                            proof {
                                assert(b@.skip(pos as int).skip(end1 - pos as int) =~= b@.skip(
                                    end1 as int,
                                ));
                                assert(b@.skip(pos as int).skip(end2 - pos as int) =~= b@.skip(
                                    end2 as int,
                                ));
                            }
                            match dec_entries_at(b, end2, n - 1) {
                                Err(e) => Err(e),
                                Ok((mut rest, end3)) => {
                                    rest.insert(0, (k, v));
                                    proof {
                                        let restv = dec_entries(
                                            b@.skip(end2 as int),
                                            (n - 1) as nat,
                                        );
                                        assert(crate::value::view_entries(rest@) =~= seq![
                                            (k@, v@),
                                        ] + restv->Some_0.0);
                                    }
                                    Ok((rest, end3))
                                },
                            }
                        },
                    }
                },
                _ => {
                    proof {
                        let tail = b@.skip(pos as int);
                        assert(!(cbor_dec(tail)->Some_0.0 is Text));
                    }
                    Err(dec_err())
                },
            }
        },
    }
}

/// Decodes one value from the front of the buffer; trailing bytes are
/// left alone, as the stream decoders read item by item.
pub fn cbor_decode(b: &[u8]) -> (r: Result<Val, CoreconfError>)
    ensures
        match r {
            Ok(v) => cbor_dec(b@) matches Some((sv, used)) && sv == v@,
            Err(e) => cbor_dec(b@) is None && e is CborDecode,
        },
{
    proof {
        assert(b@.skip(0) =~= b@);
    }
    match cbor_decode_at(b, 0) {
        Ok((v, _end)) => Ok(v),
        Err(e) => Err(e),
    }
}

/// Values the wire encoding can carry: integers within the model's
/// range and lengths below 2^64.
pub open spec fn cbor_wf(v: SpecVal) -> bool
    decreases v, 0int,
{
    match v {
        SpecVal::Int(n) => -0x8000000000000000 <= n < 0x10000000000000000,
        SpecVal::Text(s) => encode_utf8(s).len() < 0x10000000000000000,
        SpecVal::Bytes(b) => b.len() < 0x10000000000000000,
        SpecVal::Arr(items) => items.len() < 0x10000000000000000 && wf_items_from(items, 0),
        SpecVal::Obj(entries) => entries.len() < 0x10000000000000000 && wf_entries_from(entries, 0),
        _ => true,
    }
}

pub open spec fn wf_items_from(items: Seq<SpecVal>, i: int) -> bool
    decreases items, items.len() - i,
{
    if i < 0 || i >= items.len() {
        true
    } else {
        cbor_wf(items[i]) && wf_items_from(items, i + 1)
    }
}

pub open spec fn wf_entries_from(entries: Seq<(Seq<char>, SpecVal)>, i: int) -> bool
    decreases entries, entries.len() - i,
{
    if i < 0 || i >= entries.len() {
        true
    } else {
        encode_utf8(entries[i].0).len() < 0x10000000000000000 && cbor_wf(entries[i].1)
            && wf_entries_from(entries, i + 1)
    }
}

pub proof fn lemma_enc_arg_len(major: nat, n: nat)
    ensures
        1 <= enc_arg(major, n).len() <= 9,
{
}

pub proof fn lemma_enc_len_pos(v: SpecVal)
    ensures
        cbor_enc(v).len() >= 1,
{
    match v {
        SpecVal::Int(n) => {
            if n >= 0 {
                lemma_enc_arg_len(0, n as nat);
            } else {
                lemma_enc_arg_len(1, (-1 - n) as nat);
            }
        },
        SpecVal::Text(s) => lemma_enc_arg_len(3, encode_utf8(s).len()),
        SpecVal::Bytes(b) => lemma_enc_arg_len(2, b.len()),
        SpecVal::Arr(items) => lemma_enc_arg_len(4, items.len()),
        SpecVal::Obj(entries) => lemma_enc_arg_len(5, entries.len()),
        _ => {},
    }
}

/// Reading back a shortest-form header gives the major type and the
/// argument it was made from.
pub proof fn lemma_dec_enc_arg(major: nat, n: nat, rest: Seq<u8>)
    requires
        major <= 5,
        n < 0x10000000000000000,
    ensures
        dec_arg(enc_arg(major, n) + rest) == Some((major, n, enc_arg(major, n).len() as int)),
        (enc_arg(major, n) + rest)[0] < 0xc0,
{
    let e = enc_arg(major, n);
    let b = e + rest;
    let x = n as u64;
    assert(b.len() == e.len() + rest.len());
    assert(forall|k: int| 0 <= k < e.len() ==> b[k] == #[trigger] e[k]);
    if n < 24 {
        let b0: u8 = (32 * major + n) as u8;
        assert(32 * major + n < 192);
        assert(b0 / 32 == major && b0 % 32 == n) by (nonlinear_arith)
            requires
                b0 == 32 * major + n,
                0 <= n < 24,
                0 <= major <= 5,
        ;
    } else {
        let ai: nat = if n < 256 {
            24
        } else if n < 65536 {
            25
        } else if n < 4294967296 {
            26
        } else {
            27
        };
        let b0: u8 = (32 * major + ai) as u8;
        assert(32 * major + ai < 192);
        assert(b[0] == b0);
        assert(b0 / 32 == major && b0 % 32 == ai) by (nonlinear_arith)
            requires
                b0 == 32 * major + ai,
                24 <= ai <= 27,
                0 <= major <= 5,
        ;
        if n < 256 {
            assert(b[1] == n as u8);
        } else if n < 65536 {
            assert(n / 256 < 256) by (nonlinear_arith)
                requires
                    n < 65536,
            ;
            assert(b[1] as nat == n / 256 && b[2] as nat == n % 256);
            assert((x / 256) * 256 + (x % 256) == x) by (bit_vector);
        } else if n < 4294967296 {
            assert(n / 16777216 < 256) by (nonlinear_arith)
                requires
                    n < 4294967296,
            ;
            assert((x / 16777216) * 16777216 + ((x / 65536) % 256) * 65536 + ((x / 256) % 256) * 256
                + (x % 256) == x) by (bit_vector)
                requires
                    x < 4294967296u64,
            ;
            assert(b[1] as nat == n / 16777216);
            assert(b[2] as nat == (n / 65536) % 256);
            assert(b[3] as nat == (n / 256) % 256);
            assert(b[4] as nat == n % 256);
        } else {
            assert(((x / 72057594037927936) % 256) * 72057594037927936 + ((x / 281474976710656)
                % 256) * 281474976710656 + ((x / 1099511627776) % 256) * 1099511627776 + ((x
                / 4294967296) % 256) * 4294967296 + ((x / 16777216) % 256) * 16777216 + ((x / 65536)
                % 256) * 65536 + ((x / 256) % 256) * 256 + (x % 256) == x) by (bit_vector);
            assert(b[1] as nat == (n / 72057594037927936) % 256);
            assert(b[2] as nat == (n / 281474976710656) % 256);
            assert(b[3] as nat == (n / 1099511627776) % 256);
            assert(b[4] as nat == (n / 4294967296) % 256);
            assert(b[5] as nat == (n / 16777216) % 256);
            assert(b[6] as nat == (n / 65536) % 256);
            assert(b[7] as nat == (n / 256) % 256);
            assert(b[8] as nat == n % 256);
        }
    }
}

/// Decoding inverts encoding: the encoded value comes back, whatever
/// follows it in the buffer.
#[verifier::rlimit(100)]
pub proof fn lemma_cbor_roundtrip(v: SpecVal, rest: Seq<u8>)
    requires
        cbor_wf(v),
    ensures
        cbor_dec(cbor_enc(v) + rest) == Some((v, cbor_enc(v).len() as int)),
    decreases v, 0int,
{
    let e = cbor_enc(v);
    let b = e + rest;
    match v {
        SpecVal::Null => {
            assert(b[0] == 0xf6);
        },
        SpecVal::Bool(t) => {
            assert(b[0] == (if t { 0xf5u8 } else { 0xf4u8 }));
        },
        SpecVal::Int(n) => {
            if n >= 0 {
                lemma_dec_enc_arg(0, n as nat, rest);
                assert(b[0] < 0xc0);
            } else {
                lemma_dec_enc_arg(1, (-1 - n) as nat, rest);
                assert(b[0] < 0xc0);
                assert(-1 - ((-1 - n) as nat) == n);
            }
        },
        SpecVal::Bytes(bs) => {
            let h = enc_arg(2, bs.len());
            assert(b =~= h + (bs + rest));
            lemma_dec_enc_arg(2, bs.len(), bs + rest);
            let hl = h.len() as int;
            assert(b.subrange(hl, hl + bs.len()) =~= bs);
            assert(hl + bs.len() <= b.len());
        },
        SpecVal::Text(s) => {
            let u = encode_utf8(s);
            let h = enc_arg(3, u.len());
            assert(b =~= h + (u + rest));
            lemma_dec_enc_arg(3, u.len(), u + rest);
            let hl = h.len() as int;
            assert(b.subrange(hl, hl + u.len()) =~= u);
            encode_utf8_valid_utf8(s);
            encode_utf8_decode_utf8(s);
            assert(hl + u.len() <= b.len());
        },
        SpecVal::Arr(items) => {
            let body = enc_items(items, 0);
            let h = enc_arg(4, items.len());
            assert(b =~= h + (body + rest));
            lemma_dec_enc_arg(4, items.len(), body + rest);
            let hl = h.len() as int;
            assert(b.skip(hl) =~= body + rest);
            lemma_items_roundtrip(items, 0, rest);
            assert(items.skip(0) =~= items);
        },
        SpecVal::Obj(entries) => {
            let body = enc_entries(entries, 0);
            let h = enc_arg(5, entries.len());
            assert(b =~= h + (body + rest));
            lemma_dec_enc_arg(5, entries.len(), body + rest);
            let hl = h.len() as int;
            assert(b.skip(hl) =~= body + rest);
            lemma_entries_roundtrip(entries, 0, rest);
            assert(entries.skip(0) =~= entries);
        },
    }
}

proof fn lemma_items_roundtrip(items: Seq<SpecVal>, i: int, rest: Seq<u8>)
    requires
        0 <= i <= items.len(),
        wf_items_from(items, i),
    ensures
        dec_items(enc_items(items, i) + rest, (items.len() - i) as nat) == Some(
            (items.skip(i), enc_items(items, i).len() as int),
        ),
    decreases items, items.len() - i,
{
    let body = enc_items(items, i);
    if i == items.len() {
        assert(body =~= Seq::empty());
        assert(body + rest =~= rest);
        assert(items.skip(i) =~= Seq::empty());
    } else {
        let e0 = cbor_enc(items[i]);
        let tailenc = enc_items(items, i + 1);
        assert(body + rest =~= e0 + (tailenc + rest));
        lemma_cbor_roundtrip(items[i], tailenc + rest);
        lemma_enc_len_pos(items[i]);
        let used = e0.len() as int;
        assert((body + rest).skip(used) =~= tailenc + rest);
        lemma_items_roundtrip(items, i + 1, rest);
        assert(seq![items[i]] + items.skip(i + 1) =~= items.skip(i));
        assert(used <= (body + rest).len());
    }
}

#[verifier::rlimit(100)]
proof fn lemma_entries_roundtrip(entries: Seq<(Seq<char>, SpecVal)>, i: int, rest: Seq<u8>)
    requires
        0 <= i <= entries.len(),
        wf_entries_from(entries, i),
    ensures
        dec_entries(enc_entries(entries, i) + rest, (entries.len() - i) as nat) == Some(
            (entries.skip(i), enc_entries(entries, i).len() as int),
        ),
    decreases entries, entries.len() - i,
{
    let body = enc_entries(entries, i);
    if i == entries.len() {
        assert(body =~= Seq::empty());
        assert(body + rest =~= rest);
        assert(entries.skip(i) =~= Seq::empty());
    } else {
        let k = entries[i].0;
        let v = entries[i].1;
        let ek = text_enc(k);
        let ev = cbor_enc(v);
        let tailenc = enc_entries(entries, i + 1);
        assert(body + rest =~= ek + (ev + (tailenc + rest)));
        let u = encode_utf8(k);
        let hk = enc_arg(3, u.len());
        lemma_enc_arg_len(3, u.len());
        assert(ek + (ev + (tailenc + rest)) =~= hk + (u + (ev + (tailenc + rest))));
        lemma_dec_enc_arg(3, u.len(), u + (ev + (tailenc + rest)));
        let hkl = hk.len() as int;
        assert((body + rest).subrange(hkl, hkl + u.len()) =~= u);
        encode_utf8_valid_utf8(k);
        encode_utf8_decode_utf8(k);
        let usedk = ek.len() as int;
        assert(cbor_dec(body + rest) == Some((SpecVal::Text(k), usedk)));
        assert((body + rest).skip(usedk) =~= ev + (tailenc + rest));
        lemma_cbor_roundtrip(v, tailenc + rest);
        lemma_enc_len_pos(v);
        let usedv = ev.len() as int;
        assert((body + rest).skip(usedk + usedv) =~= tailenc + rest);
        lemma_entries_roundtrip(entries, i + 1, rest);
        assert(seq![(k, v)] + entries.skip(i + 1) =~= entries.skip(i));
        assert(usedk + usedv <= (body + rest).len());
    }
}

/// Elementwise well-formedness gives the recursive form.
pub proof fn lemma_wf_items_pointwise(items: Seq<SpecVal>, i: int)
    requires
        0 <= i <= items.len(),
        forall|k: int| 0 <= k < items.len() ==> cbor_wf(#[trigger] items[k]),
    ensures
        wf_items_from(items, i),
    decreases items.len() - i,
{
    if i < items.len() {
        lemma_wf_items_pointwise(items, i + 1);
    }
}

/// Encodes one value to fresh bytes.
pub fn cbor_encode(v: &Val) -> (r: Vec<u8>)
    ensures
        r@ == cbor_enc(v@),
{
    let mut out: Vec<u8> = Vec::new();
    cbor_encode_into(v, &mut out);
    proof {
        assert(out@ =~= cbor_enc(v@));
    }
    out
}

} // verus!
