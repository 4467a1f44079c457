//! The framed binary record format both ends of the pipeline agree on.
//!
//! Values are encoded self-describingly: a header byte carries a major tag
//! in its top three bits and a width selector in the low five, followed by
//! a big-endian argument (a scalar, or a length that drives the decoder).
//! The encoder always picks the shortest argument width; the decoder
//! accepts every width.

use vstd::prelude::*;

verus! {

use vstd::string::StringSliceAdditionalSpecFns;
use vstd::utf8::encode_utf8;
use vstd::utf8::decode_utf8;
use vstd::utf8::valid_utf8;
use crate::kv::KV;
use crate::kv::ValView;
use crate::kv::Value;
use crate::kv::view_of;
use crate::kv::view_of_seq;
use crate::kv::kv_sorted;
use crate::kv::lemma_view_of_seq_index;
use crate::kv::lemma_view_of_seq_push;
use crate::Error;

// ---------------------------------------------------------------------
// Specification: encoding
// ---------------------------------------------------------------------

/// The low byte of an integer.
pub open spec fn low8(n: u64) -> u8 {
    (n & 0xff) as u8
}

/// Big-endian bytes of a 16-bit argument.
pub open spec fn be2(n: u64) -> Seq<u8> {
    seq![low8(n >> 8), low8(n)]
}

/// Big-endian bytes of a 32-bit argument.
pub open spec fn be4(n: u64) -> Seq<u8> {
    seq![low8(n >> 24), low8(n >> 16), low8(n >> 8), low8(n)]
}

/// Big-endian bytes of a 64-bit argument.
pub open spec fn be8(n: u64) -> Seq<u8> {
    seq![
        low8(n >> 56),
        low8(n >> 48),
        low8(n >> 40),
        low8(n >> 32),
        low8(n >> 24),
        low8(n >> 16),
        low8(n >> 8),
        low8(n),
    ]
}

/// Width selector the shortest encoding of argument `n` uses.
pub open spec fn hdr_add(n: u64) -> u8 {
    if n < 24 {
        n as u8
    } else if n <= 0xff {
        24
    } else if n <= 0xffff {
        25
    } else if n <= 0xffff_ffff {
        26
    } else {
        27
    }
}

/// Header of one item: major tag plus the shortest argument encoding.
pub open spec fn hdr(major: u8, n: u64) -> Seq<u8>
    recommends
        major < 8,
{
    if n < 24 {
        seq![(major << 5) | (n as u8)]
    } else if n <= 0xff {
        seq![(major << 5) | 24u8, low8(n)]
    } else if n <= 0xffff {
        seq![(major << 5) | 25u8] + be2(n)
    } else if n <= 0xffff_ffff {
        seq![(major << 5) | 26u8] + be4(n)
    } else {
        seq![(major << 5) | 27u8] + be8(n)
    }
}

/// Encoding of a text item: length-prefixed UTF-8 bytes.
pub open spec fn enc_text(s: Seq<char>) -> Seq<u8> {
    hdr(3, encode_utf8(s).len() as u64) + encode_utf8(s)
}

/// Encoding of one value.
pub open spec fn enc_val(v: ValView) -> Seq<u8>
    decreases v,
{
    match v {
        ValView::Null => seq![0xf6u8],
        ValView::Bool(x) => if x {
            seq![0xf5u8]
        } else {
            seq![0xf4u8]
        },
        ValView::U64(x) => hdr(0, x),
        ValView::I64(x) => if x >= 0 {
            hdr(0, x as u64)
        } else {
            hdr(1, (-1 - x) as u64)
        },
        ValView::F32(bits) => seq![0xfau8] + be4(bits as u64),
        ValView::F64(bits) => seq![0xfbu8] + be8(bits),
        ValView::Text(s) => enc_text(s),
        ValView::Bytes(b) => hdr(2, b.len() as u64) + b,
        ValView::Array(elems) => hdr(4, elems.len() as u64) + enc_vseq(elems),
    }
}

/// Encoding of a sequence of values, back to back.
pub open spec fn enc_vseq(s: Seq<ValView>) -> Seq<u8>
    decreases s,
{
    if s.len() == 0 {
        Seq::empty()
    } else {
        enc_val(s[0]) + enc_vseq(s.drop_first())
    }
}

/// Encoding of the pairs of a key-value mapping, back to back.
pub open spec fn enc_pairs(m: Seq<(Seq<char>, ValView)>) -> Seq<u8>
    decreases m,
{
    if m.len() == 0 {
        Seq::empty()
    } else {
        enc_text(m[0].0) + enc_val(m[0].1) + enc_pairs(m.drop_first())
    }
}

/// Encoding of a key-value mapping: a length-prefixed map item.
pub open spec fn enc_kv(m: Seq<(Seq<char>, ValView)>) -> Seq<u8> {
    hdr(5, m.len() as u64) + enc_pairs(m)
}

/// Appending a value to a sequence appends its encoding to the sequence's
/// encoding.
pub proof fn lemma_enc_vseq_push(s: Seq<ValView>, v: ValView)
    ensures
        enc_vseq(s.push(v)) == enc_vseq(s) + enc_val(v),
    decreases s.len(),
{
    if s.len() == 0 {
        let sp = s.push(v);
        assert(sp[0] == v);
        assert(sp.drop_first() =~= Seq::<ValView>::empty());
        assert(enc_vseq(sp) == enc_val(sp[0]) + enc_vseq(sp.drop_first()));
        assert(enc_vseq(Seq::<ValView>::empty()) == Seq::<u8>::empty());
        assert(enc_vseq(s.push(v)) =~= enc_vseq(s) + enc_val(v));
    } else {
        assert(s.push(v).drop_first() =~= s.drop_first().push(v));
        assert(s.push(v)[0] == s[0]);
        lemma_enc_vseq_push(s.drop_first(), v);
        assert(enc_vseq(s.push(v)) =~= enc_vseq(s) + enc_val(v));
    }
}

/// Appending a pair to a mapping appends its encoding to the mapping's
/// encoding.
pub proof fn lemma_enc_pairs_push(m: Seq<(Seq<char>, ValView)>, p: (Seq<char>, ValView))
    ensures
        enc_pairs(m.push(p)) == enc_pairs(m) + enc_text(p.0) + enc_val(p.1),
    decreases m.len(),
{
    if m.len() == 0 {
        let mp = m.push(p);
        assert(mp[0] == p);
        assert(mp.drop_first() =~= Seq::<(Seq<char>, ValView)>::empty());
        assert(enc_pairs(mp) == enc_text(mp[0].0) + enc_val(mp[0].1) + enc_pairs(mp.drop_first()));
        assert(enc_pairs(Seq::<(Seq<char>, ValView)>::empty()) == Seq::<u8>::empty());
        assert(enc_pairs(m.push(p)) =~= enc_pairs(m) + enc_text(p.0) + enc_val(p.1));
    } else {
        assert(m.push(p).drop_first() =~= m.drop_first().push(p));
        assert(m.push(p)[0] == m[0]);
        lemma_enc_pairs_push(m.drop_first(), p);
        assert(enc_pairs(m.push(p)) =~= enc_pairs(m) + enc_text(p.0) + enc_val(p.1));
    }
}

// ---------------------------------------------------------------------
// Specification: decoding
// ---------------------------------------------------------------------

/// Decoded header of one item at `pos`: major tag, width selector,
/// argument, and the position just past the header. `None` on truncation.
pub open spec fn dec_hdr(b: Seq<u8>, pos: int) -> Option<(u8, u8, u64, int)> {
    if pos < 0 || pos >= b.len() {
        Option::None
    } else {
        let h = b[pos];
        let major = h >> 5;
        let add = h & 0x1f;
        if add < 24 {
            Option::Some((major, add, add as u64, pos + 1))
        } else if add == 24 {
            if pos + 2 <= b.len() {
                Option::Some((major, add, b[pos + 1] as u64, pos + 2))
            } else {
                Option::None
            }
        } else if add == 25 {
            if pos + 3 <= b.len() {
                Option::Some(
                    (major, add, ((b[pos + 1] as u64) << 8) | (b[pos + 2] as u64), pos + 3),
                )
            } else {
                Option::None
            }
        } else if add == 26 {
            if pos + 5 <= b.len() {
                Option::Some(
                    (
                        major,
                        add,
                        ((b[pos + 1] as u64) << 24) | ((b[pos + 2] as u64) << 16) | ((b[pos
                            + 3] as u64) << 8) | (b[pos + 4] as u64),
                        pos + 5,
                    ),
                )
            } else {
                Option::None
            }
        } else if add == 27 {
            if pos + 9 <= b.len() {
                Option::Some(
                    (
                        major,
                        add,
                        ((b[pos + 1] as u64) << 56) | ((b[pos + 2] as u64) << 48) | ((b[pos
                            + 3] as u64) << 40) | ((b[pos + 4] as u64) << 32) | ((b[pos
                            + 5] as u64) << 24) | ((b[pos + 6] as u64) << 16) | ((b[pos
                            + 7] as u64) << 8) | (b[pos + 8] as u64),
                        pos + 9,
                    ),
                )
            } else {
                Option::None
            }
        } else {
            Option::None
        }
    }
}

/// Decoded value at `pos` and the position just past it. `None` on
/// truncation, an unknown tag, a negative integer below the signed 64-bit
/// range, or malformed UTF-8 in a text item.
pub open spec fn dec_val(b: Seq<u8>, pos: int) -> Option<(ValView, int)>
    decreases b.len() - pos, 0int, 0int,
{
    match dec_hdr(b, pos) {
        Option::None => Option::None,
        Option::Some((major, add, arg, next)) => {
            if major == 0 {
                Option::Some((ValView::U64(arg), next))
            } else if major == 1 {
                if arg <= 0x7fff_ffff_ffff_ffff {
                    Option::Some((ValView::I64((-1 - arg as int) as i64), next))
                } else {
                    Option::None
                }
            } else if major == 2 {
                if next + arg <= b.len() {
                    Option::Some((ValView::Bytes(b.subrange(next, next + arg)), next + arg))
                } else {
                    Option::None
                }
            } else if major == 3 {
                if next + arg <= b.len() && valid_utf8(b.subrange(next, next + arg)) {
                    Option::Some(
                        (ValView::Text(decode_utf8(b.subrange(next, next + arg))), next + arg),
                    )
                } else {
                    Option::None
                }
            } else if major == 4 {
                if next <= b.len() {
                    match dec_vseq(b, next, arg) {
                        Option::None => Option::None,
                        Option::Some((elems, end)) => Option::Some((ValView::Array(elems), end)),
                    }
                } else {
                    Option::None
                }
            } else if major == 7 {
                if add == 20 {
                    Option::Some((ValView::Bool(false), next))
                } else if add == 21 {
                    Option::Some((ValView::Bool(true), next))
                } else if add == 22 {
                    Option::Some((ValView::Null, next))
                } else if add == 26 {
                    Option::Some((ValView::F32(arg as u32), next))
                } else if add == 27 {
                    Option::Some((ValView::F64(arg), next))
                } else {
                    Option::None
                }
            } else {
                Option::None
            }
        },
    }
}

/// Decoded run of `n` values starting at `pos`.
pub open spec fn dec_vseq(b: Seq<u8>, pos: int, n: u64) -> Option<(Seq<ValView>, int)>
    decreases b.len() - pos, 1int, n,
{
    if n == 0 {
        Option::Some((Seq::empty(), pos))
    } else if pos >= b.len() {
        Option::None
    } else {
        match dec_val(b, pos) {
            Option::None => Option::None,
            Option::Some((v, p2)) => {
                if p2 <= pos || p2 > b.len() {
                    Option::None
                } else {
                    match dec_vseq(b, p2, (n - 1) as u64) {
                        Option::None => Option::None,
                        Option::Some((rest, end)) => Option::Some((seq![v] + rest, end)),
                    }
                }
            },
        }
    }
}

/// Decoded text item at `pos`.
pub open spec fn dec_text(b: Seq<u8>, pos: int) -> Option<(Seq<char>, int)> {
    match dec_hdr(b, pos) {
        Option::None => Option::None,
        Option::Some((major, add, arg, next)) => {
            if major == 3 && next + arg <= b.len() && valid_utf8(b.subrange(next, next + arg)) {
                Option::Some((decode_utf8(b.subrange(next, next + arg)), next + arg))
            } else {
                Option::None
            }
        },
    }
}

/// Decoded run of `n` key-value pairs starting at `pos`.
pub open spec fn dec_pairs(b: Seq<u8>, pos: int, n: u64) -> Option<
    (Seq<(Seq<char>, ValView)>, int),
>
    decreases b.len() - pos, n,
{
    if n == 0 {
        Option::Some((Seq::empty(), pos))
    } else if pos >= b.len() {
        Option::None
    } else {
        match dec_text(b, pos) {
            Option::None => Option::None,
            Option::Some((k, p2)) => {
                if p2 <= pos || p2 > b.len() {
                    Option::None
                } else {
                    match dec_val(b, p2) {
                        Option::None => Option::None,
                        Option::Some((v, p3)) => {
                            if p3 < p2 || p3 > b.len() {
                                Option::None
                            } else {
                                match dec_pairs(b, p3, (n - 1) as u64) {
                                    Option::None => Option::None,
                                    Option::Some((rest, end)) => Option::Some(
                                        (seq![(k, v)] + rest, end),
                                    ),
                                }
                            }
                        },
                    }
                }
            },
        }
    }
}

/// Decoded key-value mapping at `pos`: a map item whose keys must be
/// strictly increasing.
pub open spec fn dec_kv(b: Seq<u8>, pos: int) -> Option<(Seq<(Seq<char>, ValView)>, int)> {
    match dec_hdr(b, pos) {
        Option::None => Option::None,
        Option::Some((major, add, arg, next)) => {
            if major == 5 {
                match dec_pairs(b, next, arg) {
                    Option::None => Option::None,
                    Option::Some((ps, end)) => {
                        if kv_sorted(ps) {
                            Option::Some((ps, end))
                        } else {
                            Option::None
                        }
                    },
                }
            } else {
                Option::None
            }
        },
    }
}

// ---------------------------------------------------------------------
// Round trip: what the decoder makes of the encoder's bytes
// ---------------------------------------------------------------------

/// A decoded value is in normal form: non-negative signed integers come
/// back as the unsigned variant (integer widening; all other members are
/// preserved exactly).
pub open spec fn norm_val(v: ValView) -> ValView
    decreases v,
{
    match v {
        ValView::I64(x) => if x >= 0 {
            ValView::U64(x as u64)
        } else {
            v
        },
        ValView::Array(es) => ValView::Array(norm_vseq(es)),
        _ => v,
    }
}

/// Normal form of a sequence of values, element by element.
pub open spec fn norm_vseq(s: Seq<ValView>) -> Seq<ValView>
    decreases s,
{
    if s.len() == 0 {
        Seq::empty()
    } else {
        seq![norm_val(s[0])] + norm_vseq(s.drop_first())
    }
}

/// Normal form of the pairs of a mapping: keys are untouched, values are
/// normalized.
pub open spec fn norm_pairs(m: Seq<(Seq<char>, ValView)>) -> Seq<(Seq<char>, ValView)> {
    Seq::new(m.len(), |i: int| (m[i].0, norm_val(m[i].1)))
}

/// Well-formed value: every length fits the 64-bit arguments the format
/// carries. Every value built from in-memory strings, byte vectors and
/// arrays is well-formed.
pub open spec fn wf_val(v: ValView) -> bool
    decreases v,
{
    match v {
        ValView::Text(s) => encode_utf8(s).len() <= u64::MAX,
        ValView::Bytes(bs) => bs.len() <= u64::MAX,
        ValView::Array(es) => es.len() <= u64::MAX && wf_vseq(es),
        _ => true,
    }
}

/// Well-formed sequence of values.
pub open spec fn wf_vseq(s: Seq<ValView>) -> bool
    decreases s,
{
    s.len() != 0 ==> (wf_val(s[0]) && wf_vseq(s.drop_first()))
}

/// Well-formed pairs of a mapping.
pub open spec fn wf_pairs(m: Seq<(Seq<char>, ValView)>) -> bool
    decreases m,
{
    m.len() != 0 ==> (encode_utf8(m[0].0).len() <= u64::MAX && wf_val(m[0].1) && wf_pairs(
        m.drop_first(),
    ))
}

/// A header byte splits back into the major tag and width selector it was
/// packed from.
proof fn lemma_pack(major: u8, low: u8)
    requires
        major < 8,
        low < 32,
    ensures
        ((major << 5) | low) >> 5 == major,
        ((major << 5) | low) & 0x1f == low,
{
    assert(((major << 5) | low) >> 5 == major && ((major << 5) | low) & 0x1f == low)
        by (bit_vector)
        requires
            major < 8,
            low < 32,
    ;
}

/// Two big-endian bytes recombine to the 16-bit argument they encode.
proof fn lemma_rt2(n: u64)
    requires
        n <= 0xffff,
    ensures
        (((low8(n >> 8)) as u64) << 8) | ((low8(n)) as u64) == n,
{
    assert((((((n >> 8) & 0xff) as u8) as u64) << 8) | (((n & 0xff) as u8) as u64) == n)
        by (bit_vector)
        requires
            n <= 0xffff,
    ;
}

/// Four big-endian bytes recombine to the 32-bit argument they encode.
proof fn lemma_rt4(n: u64)
    requires
        n <= 0xffff_ffff,
    ensures
        (((low8(n >> 24)) as u64) << 24) | (((low8(n >> 16)) as u64) << 16) | (((low8(
            n >> 8,
        )) as u64) << 8) | ((low8(n)) as u64) == n,
{
    assert((((((n >> 24) & 0xff) as u8) as u64) << 24) | (((((n >> 16) & 0xff) as u8) as u64)
        << 16) | (((((n >> 8) & 0xff) as u8) as u64) << 8) | (((n & 0xff) as u8) as u64) == n)
        by (bit_vector)
        requires
            n <= 0xffff_ffff,
    ;
}

/// Eight big-endian bytes recombine to the 64-bit argument they encode.
proof fn lemma_rt8(n: u64)
    ensures
        (((low8(n >> 56)) as u64) << 56) | (((low8(n >> 48)) as u64) << 48) | (((low8(
            n >> 40,
        )) as u64) << 40) | (((low8(n >> 32)) as u64) << 32) | (((low8(n >> 24)) as u64) << 24) | ((
        (low8(n >> 16)) as u64) << 16) | (((low8(n >> 8)) as u64) << 8) | ((low8(n)) as u64) == n,
{
    assert((((((n >> 56) & 0xff) as u8) as u64) << 56) | (((((n >> 48) & 0xff) as u8) as u64)
        << 48) | (((((n >> 40) & 0xff) as u8) as u64) << 40) | (((((n >> 32) & 0xff) as u8) as u64)
        << 32) | (((((n >> 24) & 0xff) as u8) as u64) << 24) | (((((n >> 16) & 0xff) as u8) as u64)
        << 16) | (((((n >> 8) & 0xff) as u8) as u64) << 8) | (((n & 0xff) as u8) as u64) == n)
        by (bit_vector);
}

/// A buffer that holds `e1 + e2` at `pos` holds `e1` at `pos` and `e2`
/// just after it.
pub proof fn lemma_subrange_split(b: Seq<u8>, pos: int, e1: Seq<u8>, e2: Seq<u8>)
    requires
        0 <= pos,
        pos + e1.len() + e2.len() <= b.len(),
        b.subrange(pos, pos + e1.len() + e2.len()) == e1 + e2,
    ensures
        b.subrange(pos, pos + e1.len()) == e1,
        b.subrange(pos + e1.len(), pos + e1.len() + e2.len()) == e2,
{
    let whole = b.subrange(pos, pos + e1.len() + e2.len());
    assert forall|k: int| 0 <= k < e1.len() implies b.subrange(pos, pos + e1.len())[k] == e1[k] by {
        assert(whole[k] == (e1 + e2)[k]);
    }
    assert(b.subrange(pos, pos + e1.len()) =~= e1);
    assert forall|k: int| 0 <= k < e2.len() implies b.subrange(
        pos + e1.len(),
        pos + e1.len() + e2.len(),
    )[k] == e2[k] by {
        assert(whole[e1.len() + k] == (e1 + e2)[e1.len() + k]);
    }
    assert(b.subrange(pos + e1.len(), pos + e1.len() + e2.len()) =~= e2);
}

/// One byte of a buffer that holds `e` at `pos`.
pub proof fn lemma_byte_at(b: Seq<u8>, pos: int, e: Seq<u8>, k: int)
    requires
        0 <= pos,
        pos + e.len() <= b.len(),
        b.subrange(pos, pos + e.len()) == e,
        0 <= k < e.len(),
    ensures
        b[pos + k] == e[k],
{
    assert(b.subrange(pos, pos + e.len() as int)[k] == e[k]);
}

/// The decoder reads back from a header exactly the major tag and
/// argument the encoder packed into it.
pub proof fn lemma_dec_hdr_rt(b: Seq<u8>, pos: int, major: u8, n: u64)
    requires
        major < 8,
        0 <= pos,
        pos + hdr(major, n).len() <= b.len(),
        b.subrange(pos, pos + hdr(major, n).len()) == hdr(major, n),
    ensures
        dec_hdr(b, pos) == Option::Some((major, hdr_add(n), n, pos + hdr(major, n).len())),
{
    let e = hdr(major, n);
    let el = e.len() as int;
    lemma_byte_at(b, pos, e, 0);
    if el > 1 {
        lemma_byte_at(b, pos, e, 1);
    }
    if el > 2 {
        lemma_byte_at(b, pos, e, 2);
    }
    if el > 3 {
        lemma_byte_at(b, pos, e, 3);
        lemma_byte_at(b, pos, e, 4);
    }
    if el > 5 {
        lemma_byte_at(b, pos, e, 5);
        lemma_byte_at(b, pos, e, 6);
        lemma_byte_at(b, pos, e, 7);
        lemma_byte_at(b, pos, e, 8);
    }
    if n < 24 {
        lemma_pack(major, n as u8);
        assert(b[pos] == (major << 5) | (n as u8));
    } else if n <= 0xff {
        lemma_pack(major, 24);
        assert(b[pos] == (major << 5) | 24u8);
        assert(b[pos + 1] == low8(n));
        assert((low8(n)) as u64 == n) by (bit_vector)
            requires
                n <= 0xff,
        ;
    } else if n <= 0xffff {
        lemma_pack(major, 25);
        assert(b[pos] == (major << 5) | 25u8);
        assert(b[pos + 1] == low8(n >> 8) && b[pos + 2] == low8(n));
        lemma_rt2(n);
    } else if n <= 0xffff_ffff {
        lemma_pack(major, 26);
        assert(b[pos] == (major << 5) | 26u8);
        assert(b[pos + 1] == low8(n >> 24) && b[pos + 2] == low8(n >> 16) && b[pos + 3] == low8(
            n >> 8,
        ) && b[pos + 4] == low8(n));
        lemma_rt4(n);
    } else {
        lemma_pack(major, 27);
        assert(b[pos] == (major << 5) | 27u8);
        assert(b[pos + 1] == low8(n >> 56) && b[pos + 2] == low8(n >> 48) && b[pos + 3] == low8(
            n >> 40,
        ) && b[pos + 4] == low8(n >> 32) && b[pos + 5] == low8(n >> 24) && b[pos + 6] == low8(
            n >> 16,
        ) && b[pos + 7] == low8(n >> 8) && b[pos + 8] == low8(n));
        lemma_rt8(n);
    }
}

/// Every value encoding is at least one byte long.
pub proof fn lemma_enc_val_min_len(v: ValView)
    ensures
        enc_val(v).len() >= 1,
{
}

/// Run the specification decoder over the specification encoder's bytes
/// for one value: it succeeds, consumes exactly the encoding, and returns
/// the value's normal form.
pub proof fn lemma_dec_enc_val(v: ValView, b: Seq<u8>, pos: int)
    requires
        wf_val(v),
        0 <= pos,
        pos + enc_val(v).len() <= b.len(),
        b.subrange(pos, pos + enc_val(v).len()) == enc_val(v),
    ensures
        dec_val(b, pos) == Option::Some((norm_val(v), pos + enc_val(v).len())),
    decreases v,
{
    let e = enc_val(v);
    match v {
        ValView::Null => {
            lemma_byte_at(b, pos, e, 0);
            assert(b[pos] == 0xf6);
            assert(0xf6u8 >> 5 == 7 && 0xf6u8 & 0x1f == 22) by (bit_vector);
        },
        ValView::Bool(x) => {
            lemma_byte_at(b, pos, e, 0);
            if x {
                assert(b[pos] == 0xf5);
                assert(0xf5u8 >> 5 == 7 && 0xf5u8 & 0x1f == 21) by (bit_vector);
            } else {
                assert(b[pos] == 0xf4);
                assert(0xf4u8 >> 5 == 7 && 0xf4u8 & 0x1f == 20) by (bit_vector);
            }
        },
        ValView::U64(x) => {
            lemma_dec_hdr_rt(b, pos, 0, x);
            assert(hdr_add(x) < 28) by {
                if x < 24 {
                    assert(hdr_add(x) == x as u8 && x < 24);
                }
            }
        },
        ValView::I64(x) => {
            if x >= 0 {
                lemma_dec_hdr_rt(b, pos, 0, x as u64);
            } else {
                lemma_dec_hdr_rt(b, pos, 1, (-1 - x) as u64);
                assert(((-1 - x) as u64) <= 0x7fff_ffff_ffff_ffff);
                assert((-1 - ((-1 - x) as u64) as int) as i64 == x);
            }
        },
        ValView::F32(bits) => {
            lemma_byte_at(b, pos, e, 0);
            lemma_byte_at(b, pos, e, 1);
            lemma_byte_at(b, pos, e, 2);
            lemma_byte_at(b, pos, e, 3);
            lemma_byte_at(b, pos, e, 4);
            assert(b[pos] == 0xfa);
            assert(0xfau8 >> 5 == 7 && 0xfau8 & 0x1f == 26) by (bit_vector);
            assert(b[pos + 1] == low8((bits as u64) >> 24) && b[pos + 2] == low8(
                (bits as u64) >> 16,
            ) && b[pos + 3] == low8((bits as u64) >> 8) && b[pos + 4] == low8((bits as u64)));
            lemma_rt4(bits as u64);
            assert(((bits as u64) as u32) == bits);
        },
        ValView::F64(bits) => {
            lemma_byte_at(b, pos, e, 0);
            lemma_byte_at(b, pos, e, 1);
            lemma_byte_at(b, pos, e, 2);
            lemma_byte_at(b, pos, e, 3);
            lemma_byte_at(b, pos, e, 4);
            lemma_byte_at(b, pos, e, 5);
            lemma_byte_at(b, pos, e, 6);
            lemma_byte_at(b, pos, e, 7);
            lemma_byte_at(b, pos, e, 8);
            assert(b[pos] == 0xfb);
            assert(0xfbu8 >> 5 == 7 && 0xfbu8 & 0x1f == 27) by (bit_vector);
            assert(b[pos + 1] == low8(bits >> 56) && b[pos + 2] == low8(bits >> 48) && b[pos + 3]
                == low8(bits >> 40) && b[pos + 4] == low8(bits >> 32) && b[pos + 5] == low8(
                bits >> 24,
            ) && b[pos + 6] == low8(bits >> 16) && b[pos + 7] == low8(bits >> 8) && b[pos + 8]
                == low8(bits));
            lemma_rt8(bits);
        },
        ValView::Text(s) => {
            let u = encode_utf8(s);
            let h = hdr(3, u.len() as u64);
            lemma_subrange_split(b, pos, h, u);
            lemma_dec_hdr_rt(b, pos, 3, u.len() as u64);
            vstd::utf8::encode_utf8_valid_utf8(s);
            vstd::utf8::encode_utf8_decode_utf8(s);
            assert(b.subrange(pos + h.len(), pos + h.len() + u.len()) == u);
        },
        ValView::Bytes(bs) => {
            let h = hdr(2, bs.len() as u64);
            lemma_subrange_split(b, pos, h, bs);
            lemma_dec_hdr_rt(b, pos, 2, bs.len() as u64);
        },
        ValView::Array(es) => {
            let h = hdr(4, es.len() as u64);
            let body = enc_vseq(es);
            lemma_subrange_split(b, pos, h, body);
            lemma_dec_hdr_rt(b, pos, 4, es.len() as u64);
            lemma_dec_enc_vseq(es, b, pos + h.len());
        },
    }
}

/// Run the specification decoder over the encodings of a run of values.
pub proof fn lemma_dec_enc_vseq(s: Seq<ValView>, b: Seq<u8>, pos: int)
    requires
        wf_vseq(s),
        s.len() <= u64::MAX,
        0 <= pos,
        pos + enc_vseq(s).len() <= b.len(),
        b.subrange(pos, pos + enc_vseq(s).len()) == enc_vseq(s),
    ensures
        dec_vseq(b, pos, s.len() as u64) == Option::Some(
            (norm_vseq(s), pos + enc_vseq(s).len()),
        ),
    decreases s,
{
    if s.len() == 0 {
    } else {
        let e0 = enc_val(s[0]);
        let rest = enc_vseq(s.drop_first());
        lemma_subrange_split(b, pos, e0, rest);
        lemma_enc_val_min_len(s[0]);
        lemma_dec_enc_val(s[0], b, pos);
        let p2 = pos + e0.len();
        lemma_dec_enc_vseq(s.drop_first(), b, p2);
        assert((s.len() as u64 - 1) as u64 == s.drop_first().len() as u64);
        assert(norm_vseq(s) == seq![norm_val(s[0])] + norm_vseq(s.drop_first()));
    }
}

/// Run the specification decoder over one encoded text item.
proof fn lemma_dec_enc_text(s: Seq<char>, b: Seq<u8>, pos: int)
    requires
        encode_utf8(s).len() <= u64::MAX,
        0 <= pos,
        pos + enc_text(s).len() <= b.len(),
        b.subrange(pos, pos + enc_text(s).len()) == enc_text(s),
    ensures
        dec_text(b, pos) == Option::Some((s, pos + enc_text(s).len())),
{
    let u = encode_utf8(s);
    let h = hdr(3, u.len() as u64);
    lemma_subrange_split(b, pos, h, u);
    lemma_dec_hdr_rt(b, pos, 3, u.len() as u64);
    vstd::utf8::encode_utf8_valid_utf8(s);
    vstd::utf8::encode_utf8_decode_utf8(s);
}

/// Run the specification decoder over the encodings of a run of pairs.
proof fn lemma_dec_enc_pairs(m: Seq<(Seq<char>, ValView)>, b: Seq<u8>, pos: int)
    requires
        wf_pairs(m),
        m.len() <= u64::MAX,
        0 <= pos,
        pos + enc_pairs(m).len() <= b.len(),
        b.subrange(pos, pos + enc_pairs(m).len()) == enc_pairs(m),
    ensures
        dec_pairs(b, pos, m.len() as u64) == Option::Some(
            (norm_pairs(m), pos + enc_pairs(m).len()),
        ),
    decreases m,
{
    if m.len() == 0 {
        assert(norm_pairs(m) =~= Seq::<(Seq<char>, ValView)>::empty());
    } else {
        let et = enc_text(m[0].0);
        let ev = enc_val(m[0].1);
        let rest = enc_pairs(m.drop_first());
        assert(enc_pairs(m) == et + ev + rest);
        assert(et + ev + rest =~= et + (ev + rest));
        lemma_subrange_split(b, pos, et, ev + rest);
        lemma_dec_enc_text(m[0].0, b, pos);
        let p2 = pos + et.len();
        lemma_subrange_split(b, p2, ev, rest);
        lemma_enc_val_min_len(m[0].1);
        lemma_dec_enc_val(m[0].1, b, p2);
        let p3 = p2 + ev.len();
        lemma_dec_enc_pairs(m.drop_first(), b, p3);
        assert((m.len() as u64 - 1) as u64 == m.drop_first().len() as u64);
        assert(norm_pairs(m) =~= seq![(m[0].0, norm_val(m[0].1))] + norm_pairs(m.drop_first()));
    }
}

/// Run the specification decoder over an encoded mapping: it returns the
/// pairs with each value in normal form, keys and order untouched.
pub proof fn lemma_dec_enc_kv(m: Seq<(Seq<char>, ValView)>, b: Seq<u8>, pos: int)
    requires
        wf_pairs(m),
        kv_sorted(m),
        m.len() <= u64::MAX,
        0 <= pos,
        pos + enc_kv(m).len() <= b.len(),
        b.subrange(pos, pos + enc_kv(m).len()) == enc_kv(m),
    ensures
        dec_kv(b, pos) == Option::Some((norm_pairs(m), pos + enc_kv(m).len())),
{
    let h = hdr(5, m.len() as u64);
    let body = enc_pairs(m);
    lemma_subrange_split(b, pos, h, body);
    lemma_dec_hdr_rt(b, pos, 5, m.len() as u64);
    lemma_dec_enc_pairs(m, b, pos + h.len());
    assert(kv_sorted(norm_pairs(m))) by {
        assert(forall|i: int|
            0 <= i < m.len() ==> (#[trigger] norm_pairs(m)[i]).0 == m[i].0);
    }
}

/// Decoding an encoded value out of any longer buffer yields the value's
/// normal form and consumes exactly the encoding: nothing of a value is
/// lost on the wire but the width of non-negative integers.
pub proof fn lemma_value_round_trip(v: ValView, tail: Seq<u8>)
    requires
        wf_val(v),
    ensures
        dec_val(enc_val(v) + tail, 0) == Option::Some((norm_val(v), enc_val(v).len() as int)),
{
    let b = enc_val(v) + tail;
    assert(b.subrange(0, enc_val(v).len() as int) =~= enc_val(v));
    lemma_dec_enc_val(v, b, 0);
}

/// Prefixing a run of decoded values with already-decoded ones.
pub open spec fn join_vals(prefix: Seq<ValView>, o: Option<(Seq<ValView>, int)>) -> Option<
    (Seq<ValView>, int),
> {
    match o {
        Option::None => Option::None,
        Option::Some((s, e)) => Option::Some((prefix + s, e)),
    }
}

/// Prefixing a run of decoded pairs with already-decoded ones.
pub open spec fn join_pairs(
    prefix: Seq<(Seq<char>, ValView)>,
    o: Option<(Seq<(Seq<char>, ValView)>, int)>,
) -> Option<(Seq<(Seq<char>, ValView)>, int)> {
    match o {
        Option::None => Option::None,
        Option::Some((s, e)) => Option::Some((prefix + s, e)),
    }
}

// ---------------------------------------------------------------------
// Executable decoder
// ---------------------------------------------------------------------

/// Relies on `String::from_utf8`: it succeeds exactly on valid UTF-8 input
/// and returns the string reading of those bytes.
#[verifier::external_body]
fn string_from_utf8(bytes: Vec<u8>) -> (r: Option<String>)
    ensures
        r is Some <==> valid_utf8(bytes@),
        r matches Some(s) ==> s@ == decode_utf8(bytes@),
{
    match String::from_utf8(bytes) {
        Ok(s) => Some(s),
        Err(_) => None,
    }
}

/// Reads the header of the item at `pos`.
pub(crate) fn decode_header(b: &Vec<u8>, pos: usize) -> (r: Result<(u8, u8, u64, usize), Error>)
    ensures
        match r {
            Result::Ok((major, add, arg, next)) => dec_hdr(b@, pos as int) == Option::Some(
                (major, add, arg, next as int),
            ) && pos < next <= b@.len(),
            Result::Err(e) => e == Error::Format && dec_hdr(b@, pos as int) is None,
        },
{
    if pos >= b.len() {
        return Result::Err(Error::Format);
    }
    let h = b[pos];
    let major = h >> 5;
    let add = h & 0x1f;
    if add < 24 {
        Result::Ok((major, add, add as u64, pos + 1))
    } else if add == 24 {
        if b.len() - pos >= 2 {
            Result::Ok((major, add, b[pos + 1] as u64, pos + 2))
        } else {
            Result::Err(Error::Format)
        }
    } else if add == 25 {
        if b.len() - pos >= 3 {
            Result::Ok((major, add, ((b[pos + 1] as u64) << 8) | (b[pos + 2] as u64), pos + 3))
        } else {
            Result::Err(Error::Format)
        }
    } else if add == 26 {
        if b.len() - pos >= 5 {
            Result::Ok(
                (
                    major,
                    add,
                    ((b[pos + 1] as u64) << 24) | ((b[pos + 2] as u64) << 16) | ((b[pos
                        + 3] as u64) << 8) | (b[pos + 4] as u64),
                    pos + 5,
                ),
            )
        } else {
            Result::Err(Error::Format)
        }
    } else if add == 27 {
        if b.len() - pos >= 9 {
            Result::Ok(
                (
                    major,
                    add,
                    ((b[pos + 1] as u64) << 56) | ((b[pos + 2] as u64) << 48) | ((b[pos
                        + 3] as u64) << 40) | ((b[pos + 4] as u64) << 32) | ((b[pos
                        + 5] as u64) << 24) | ((b[pos + 6] as u64) << 16) | ((b[pos
                        + 7] as u64) << 8) | (b[pos + 8] as u64),
                    pos + 9,
                ),
            )
        } else {
            Result::Err(Error::Format)
        }
    } else {
        Result::Err(Error::Format)
    }
}

/// Reads the raw bytes of a length-`arg` payload starting at `next`.
fn take_payload(b: &Vec<u8>, next: usize, arg: u64) -> (r: Result<(Vec<u8>, usize), Error>)
    requires
        next <= b@.len(),
    ensures
        match r {
            Result::Ok((payload, end)) => next + arg == end && end <= b@.len() && payload@
                == b@.subrange(next as int, next as int + arg),
            Result::Err(e) => e == Error::Format && next + arg > b@.len(),
        },
{
    if arg > (b.len() - next) as u64 {
        return Result::Err(Error::Format);
    }
    let end = next + (arg as usize);
    let sl = vstd::slice::slice_subrange(b.as_slice(), next, end);
    Result::Ok((vstd::slice::slice_to_vec(sl), end))
}

/// Decodes the value at `pos`; on success returns it with the position
/// just past it. Fails with `Error::Format` exactly where the
/// specification decoder yields nothing.
pub fn decode_value(b: &Vec<u8>, pos: usize) -> (r: Result<(Value, usize), Error>)
    ensures
        match r {
            Result::Ok((v, end)) => dec_val(b@, pos as int) == Option::Some((v@, end as int)) && pos
                < end <= b@.len(),
            Result::Err(e) => e == Error::Format && dec_val(b@, pos as int) is None,
        },
    decreases b@.len() - pos,
{
    let (major, add, arg, next) = match decode_header(b, pos) {
        Result::Ok(h) => h,
        Result::Err(e) => {
            return Result::Err(e);
        },
    };
    if major == 0 {
        Result::Ok((Value::U64(arg), next))
    } else if major == 1 {
        if arg <= 0x7fff_ffff_ffff_ffff {
            Result::Ok((Value::I64(-1 - (arg as i64)), next))
        } else {
            Result::Err(Error::Format)
        }
    } else if major == 2 {
        let (payload, end) = match take_payload(b, next, arg) {
            Result::Ok(p) => p,
            Result::Err(e) => {
                return Result::Err(e);
            },
        };
        Result::Ok((Value::Bytes(payload), end))
    } else if major == 3 {
        let (payload, end) = match take_payload(b, next, arg) {
            Result::Ok(p) => p,
            Result::Err(e) => {
                return Result::Err(e);
            },
        };
        match string_from_utf8(payload) {
            Option::Some(s) => Result::Ok((Value::Text(s), end)),
            Option::None => Result::Err(Error::Format),
        }
    } else if major == 4 {
        let mut elems: Vec<Value> = Vec::new();
        let mut cur: usize = next;
        let mut i: u64 = 0;
        let ghost gstart = next as int;
        loop
            invariant
                i <= arg,
                pos < cur <= b@.len(),
                elems@.len() == i,
                dec_val(b@, pos as int) == (match dec_vseq(b@, gstart, arg) {
                    Option::None => Option::None,
                    Option::Some((es, end)) => Option::Some((ValView::Array(es), end)),
                }),
                dec_vseq(b@, gstart, arg) == join_vals(
                    view_of_seq(elems@),
                    dec_vseq(b@, cur as int, (arg - i) as u64),
                ),
            ensures
                i == arg,
                pos < cur <= b@.len(),
                dec_val(b@, pos as int) == (match dec_vseq(b@, gstart, arg) {
                    Option::None => Option::None,
                    Option::Some((es, end)) => Option::Some((ValView::Array(es), end)),
                }),
                dec_vseq(b@, gstart, arg) == Option::Some((view_of_seq(elems@), cur as int)),
            decreases arg - i,
        {
            if i >= arg {
                proof {
                    assert(dec_vseq(b@, cur as int, 0) == Option::Some(
                        (Seq::<ValView>::empty(), cur as int),
                    ));
                    assert(view_of_seq(elems@) + Seq::<ValView>::empty() =~= view_of_seq(elems@));
                }
                break ;
            }
            let ghost pre = elems@;
            let ghost rem = (arg - i) as u64;
            let (v, p2) = match decode_value(b, cur) {
                Result::Ok(x) => x,
                Result::Err(e) => {
                    proof {
                        assert(dec_vseq(b@, cur as int, rem) is None);
                    }
                    return Result::Err(e);
                },
            };
            proof {
                assert(dec_vseq(b@, cur as int, rem) == join_vals(
                    seq![v@],
                    dec_vseq(b@, p2 as int, (rem - 1) as u64),
                ));
                lemma_view_of_seq_push(pre, v);
                assert forall|o: Option<(Seq<ValView>, int)>|
                    join_vals(view_of_seq(pre), join_vals(seq![v@], o)) == join_vals(
                        view_of_seq(pre.push(v)),
                        o,
                    ) by {
                    match o {
                        Option::None => {},
                        Option::Some((s, e)) => {
                            assert(view_of_seq(pre) + (seq![v@] + s) =~= view_of_seq(pre.push(v))
                                + s);
                        },
                    }
                }
            }
            elems.push(v);
            cur = p2;
            i = i + 1;
        }
        proof {
            lemma_view_of_seq_index(elems@);
        }
        Result::Ok((Value::Array(elems), cur))
    } else if major == 7 {
        if add == 20 {
            Result::Ok((Value::Bool(false), next))
        } else if add == 21 {
            Result::Ok((Value::Bool(true), next))
        } else if add == 22 {
            Result::Ok((Value::Null, next))
        } else if add == 26 {
            Result::Ok((Value::F32Bits(arg as u32), next))
        } else if add == 27 {
            Result::Ok((Value::F64Bits(arg), next))
        } else {
            Result::Err(Error::Format)
        }
    } else {
        Result::Err(Error::Format)
    }
}

/// Decodes the text item at `pos`.
fn decode_text(b: &Vec<u8>, pos: usize) -> (r: Result<(String, usize), Error>)
    ensures
        match r {
            Result::Ok((s, end)) => dec_text(b@, pos as int) == Option::Some((s@, end as int))
                && pos < end <= b@.len(),
            Result::Err(e) => e == Error::Format && dec_text(b@, pos as int) is None,
        },
{
    let (major, add, arg, next) = match decode_header(b, pos) {
        Result::Ok(h) => h,
        Result::Err(e) => {
            return Result::Err(e);
        },
    };
    if major != 3 {
        return Result::Err(Error::Format);
    }
    let (payload, end) = match take_payload(b, next, arg) {
        Result::Ok(p) => p,
        Result::Err(e) => {
            return Result::Err(e);
        },
    };
    match string_from_utf8(payload) {
        Option::Some(s) => Result::Ok((s, end)),
        Option::None => Result::Err(Error::Format),
    }
}

/// Decodes the key-value mapping at `pos`; its keys must come strictly
/// increasing, as the encoder writes them.
pub fn decode_kv(b: &Vec<u8>, pos: usize) -> (r: Result<(KV, usize), Error>)
    ensures
        match r {
            Result::Ok((kv, end)) => dec_kv(b@, pos as int) == Option::Some((kv@, end as int))
                && pos < end <= b@.len() && kv.wf(),
            Result::Err(e) => e == Error::Format && dec_kv(b@, pos as int) is None,
        },
{
    let (major, add, arg, next) = match decode_header(b, pos) {
        Result::Ok(h) => h,
        Result::Err(e) => {
            return Result::Err(e);
        },
    };
    if major != 5 {
        return Result::Err(Error::Format);
    }
    let mut acc: Vec<(String, Value)> = Vec::new();
    let mut cur: usize = next;
    let mut i: u64 = 0;
    let ghost gnext = next as int;
    let ghost kv_of_pairs = |o: Option<(Seq<(Seq<char>, ValView)>, int)>| match o {
        Option::None => Option::<(Seq<(Seq<char>, ValView)>, int)>::None,
        Option::Some((ps, end)) => if kv_sorted(ps) {
            Option::Some((ps, end))
        } else {
            Option::None
        },
    };
    proof {
        assert(dec_kv(b@, pos as int) == kv_of_pairs(dec_pairs(b@, gnext, arg)));
    }
    loop
        invariant
            i <= arg,
            pos < cur <= b@.len(),
            acc@.len() == i,
            dec_kv(b@, pos as int) == kv_of_pairs(dec_pairs(b@, gnext, arg)),
            kv_of_pairs == (|o: Option<(Seq<(Seq<char>, ValView)>, int)>| match o {
                Option::None => Option::<(Seq<(Seq<char>, ValView)>, int)>::None,
                Option::Some((ps, end)) => if kv_sorted(ps) {
                    Option::Some((ps, end))
                } else {
                    Option::None
                },
            }),
            dec_pairs(b@, gnext, arg) == join_pairs(
                Seq::new(acc@.len(), |j: int| (acc@[j].0@, view_of(acc@[j].1))),
                dec_pairs(b@, cur as int, (arg - i) as u64),
            ),
        ensures
            i == arg,
            pos < cur <= b@.len(),
            dec_kv(b@, pos as int) == kv_of_pairs(dec_pairs(b@, gnext, arg)),
            kv_of_pairs == (|o: Option<(Seq<(Seq<char>, ValView)>, int)>| match o {
                Option::None => Option::<(Seq<(Seq<char>, ValView)>, int)>::None,
                Option::Some((ps, end)) => if kv_sorted(ps) {
                    Option::Some((ps, end))
                } else {
                    Option::None
                },
            }),
            dec_pairs(b@, gnext, arg) == Option::Some(
                (Seq::new(acc@.len(), |j: int| (acc@[j].0@, view_of(acc@[j].1))), cur as int),
            ),
        decreases arg - i,
    {
        let ghost gps = Seq::new(acc@.len(), |j: int| (acc@[j].0@, view_of(acc@[j].1)));
        if i >= arg {
            proof {
                assert(dec_pairs(b@, cur as int, 0) == Option::Some(
                    (Seq::<(Seq<char>, ValView)>::empty(), cur as int),
                ));
                assert(gps + Seq::<(Seq<char>, ValView)>::empty() =~= gps);
            }
            break ;
        }
        let ghost rem = (arg - i) as u64;
        let (key, p2) = match decode_text(b, cur) {
            Result::Ok(x) => x,
            Result::Err(e) => {
                proof {
                    assert(dec_pairs(b@, cur as int, rem) is None);
                }
                return Result::Err(e);
            },
        };
        let (value, p3) = match decode_value(b, p2) {
            Result::Ok(x) => x,
            Result::Err(e) => {
                proof {
                    assert(dec_pairs(b@, cur as int, rem) is None);
                }
                return Result::Err(e);
            },
        };
        proof {
            assert(dec_pairs(b@, cur as int, rem) == join_pairs(
                seq![(key@, value@)],
                dec_pairs(b@, p3 as int, (rem - 1) as u64),
            ));
            let gps2 = Seq::new(
                acc@.push((key, value)).len(),
                |j: int|
                    (
                        acc@.push((key, value))[j].0@,
                        view_of(acc@.push((key, value))[j].1),
                    ),
            );
            assert(gps2 =~= gps + seq![(key@, value@)]);
            assert forall|o: Option<(Seq<(Seq<char>, ValView)>, int)>|
                join_pairs(gps, join_pairs(seq![(key@, value@)], o)) == join_pairs(gps2, o) by {
                match o {
                    Option::None => {},
                    Option::Some((s, e)) => {
                        assert(gps + (seq![(key@, value@)] + s) =~= gps2 + s);
                    },
                }
            }
        }
        acc.push((key, value));
        cur = p3;
        i = i + 1;
    }
    let ghost gps = Seq::new(acc@.len(), |j: int| (acc@[j].0@, view_of(acc@[j].1)));
    // The keys must be strictly increasing.
    let n_pairs = acc.len();
    let mut j: usize = 1;
    while j < n_pairs
        invariant
            1 <= j,
            n_pairs == acc@.len(),
            gps == Seq::new(acc@.len(), |t: int| (acc@[t].0@, view_of(acc@[t].1))),
            dec_kv(b@, pos as int) == kv_of_pairs(dec_pairs(b@, gnext, arg)),
            kv_of_pairs == (|o: Option<(Seq<(Seq<char>, ValView)>, int)>| match o {
                Option::None => Option::<(Seq<(Seq<char>, ValView)>, int)>::None,
                Option::Some((ps, end)) => if kv_sorted(ps) {
                    Option::Some((ps, end))
                } else {
                    Option::None
                },
            }),
            dec_pairs(b@, gnext, arg) == Option::Some((gps, cur as int)),
            pos < cur <= b@.len(),
            forall|t: int| 0 <= t && t + 1 < j ==> crate::kv::key_lt(#[trigger] gps[t].0, gps[t + 1].0),
        decreases n_pairs - j,
    {
        let r = crate::kv::str_cmp(acc[j - 1].0.as_str(), acc[j].0.as_str());
        if r != crate::kv::KeyOrder::Lt {
            proof {
                assert(!crate::kv::key_lt(gps[j - 1].0, gps[j as int].0));
                assert(!kv_sorted(gps));
            }
            return Result::Err(Error::Format);
        }
        j = j + 1;
    }
    proof {
        assert(kv_sorted(gps));
    }
    let kv = KV { pairs: acc };
    proof {
        assert(kv@ =~= gps);
    }
    Result::Ok((kv, cur))
}

// ---------------------------------------------------------------------
// Executable encoder
// ---------------------------------------------------------------------

/// Appends the header of one item: major tag and shortest argument form.
pub(crate) fn encode_header(major: u8, n: u64, out: &mut Vec<u8>)
    requires
        major < 8,
    ensures
        final(out)@ == old(out)@ + hdr(major, n),
{
    if n < 24 {
        out.push((major << 5) | (n as u8));
        assert(out@ =~= old(out)@ + hdr(major, n));
    } else if n <= 0xff {
        out.push((major << 5) | 24u8);
        out.push((n & 0xff) as u8);
        assert(out@ =~= old(out)@ + hdr(major, n));
    } else if n <= 0xffff {
        out.push((major << 5) | 25u8);
        out.push(((n >> 8) & 0xff) as u8);
        out.push((n & 0xff) as u8);
        assert(out@ =~= old(out)@ + hdr(major, n));
    } else if n <= 0xffff_ffff {
        out.push((major << 5) | 26u8);
        out.push(((n >> 24) & 0xff) as u8);
        out.push(((n >> 16) & 0xff) as u8);
        out.push(((n >> 8) & 0xff) as u8);
        out.push((n & 0xff) as u8);
        assert(out@ =~= old(out)@ + hdr(major, n));
    } else {
        out.push((major << 5) | 27u8);
        out.push(((n >> 56) & 0xff) as u8);
        out.push(((n >> 48) & 0xff) as u8);
        out.push(((n >> 40) & 0xff) as u8);
        out.push(((n >> 32) & 0xff) as u8);
        out.push(((n >> 24) & 0xff) as u8);
        out.push(((n >> 16) & 0xff) as u8);
        out.push(((n >> 8) & 0xff) as u8);
        out.push((n & 0xff) as u8);
        assert(out@ =~= old(out)@ + hdr(major, n));
    }
}

/// Appends the encoding of a text item.
pub(crate) fn encode_str(s: &str, out: &mut Vec<u8>)
    ensures
        final(out)@ == old(out)@ + enc_text(s@),
{
    let bytes = s.as_bytes();
    encode_header(3, bytes.len() as u64, out);
    out.extend_from_slice(bytes);
    assert(out@ =~= old(out)@ + enc_text(s@));
}

/// Appends the encoding of one value. Encoding is total: it succeeds for
/// every value.
pub fn encode_value(v: &Value, out: &mut Vec<u8>)
    ensures
        final(out)@ == old(out)@ + enc_val(v@),
    decreases *v,
{
    match v {
        Value::Null => {
            out.push(0xf6u8);
            assert(out@ =~= old(out)@ + enc_val(v@));
        },
        Value::Bool(x) => {
            if *x {
                out.push(0xf5u8);
            } else {
                out.push(0xf4u8);
            }
            assert(out@ =~= old(out)@ + enc_val(v@));
        },
        Value::U64(x) => {
            encode_header(0, *x, out);
        },
        Value::I64(x) => {
            if *x >= 0 {
                encode_header(0, *x as u64, out);
            } else {
                encode_header(1, (-1 - *x) as u64, out);
            }
        },
        Value::F32Bits(bits) => {
            out.push(0xfau8);
            out.push(((*bits >> 24) & 0xff) as u8);
            out.push(((*bits >> 16) & 0xff) as u8);
            out.push(((*bits >> 8) & 0xff) as u8);
            out.push((*bits & 0xff) as u8);
            assert(out@ =~= old(out)@ + enc_val(v@)) by {
                assert(((*bits as u64) >> 24) & 0xff == ((*bits >> 24) & 0xff) as u64
                    && ((*bits as u64) >> 16) & 0xff == ((*bits >> 16) & 0xff) as u64 && ((
                *bits as u64) >> 8) & 0xff == ((*bits >> 8) & 0xff) as u64 && (*bits as u64) & 0xff
                    == (*bits & 0xff) as u64) by (bit_vector);
            }
        },
        Value::F64Bits(bits) => {
            out.push(0xfbu8);
            out.push(((*bits >> 56) & 0xff) as u8);
            out.push(((*bits >> 48) & 0xff) as u8);
            out.push(((*bits >> 40) & 0xff) as u8);
            out.push(((*bits >> 32) & 0xff) as u8);
            out.push(((*bits >> 24) & 0xff) as u8);
            out.push(((*bits >> 16) & 0xff) as u8);
            out.push(((*bits >> 8) & 0xff) as u8);
            out.push((*bits & 0xff) as u8);
            assert(out@ =~= old(out)@ + enc_val(v@));
        },
        Value::Text(s) => {
            encode_str(s.as_str(), out);
        },
        Value::Bytes(b) => {
            encode_header(2, b.len() as u64, out);
            out.extend_from_slice(b.as_slice());
            assert(out@ =~= old(out)@ + enc_val(v@));
        },
        Value::Array(elems) => {
            let ghost base = out@;
            encode_header(4, elems.len() as u64, out);
            let n = elems.len();
            let mut i: usize = 0;
            proof {
                assert(elems@.subrange(0, 0) =~= Seq::<Value>::empty());
            }
            while i < n
                invariant
                    i <= n,
                    n == elems@.len(),
                    *v == Value::Array(*elems),
                    out@ == base + hdr(4, elems@.len() as u64) + enc_vseq(
                        view_of_seq(elems@.subrange(0, i as int)),
                    ),
                decreases n - i,
            {
                let ghost pre = elems@.subrange(0, i as int);
                proof {
                    assert(*elems == (*v)->Array_0);
                    assert(decreases_to!(*v => (*v)->Array_0));
                    assert(decreases_to!(*elems => elems@));
                    assert(decreases_to!(elems@ => elems@[i as int]));
                    assert(decreases_to!(*v => elems@[i as int]));
                }
                encode_value(&elems[i], out);
                proof {
                    assert(elems@.subrange(0, i + 1) =~= pre.push(elems@[i as int]));
                    lemma_view_of_seq_push(pre, elems@[i as int]);
                    assert(view_of_seq(pre) + seq![view_of(elems@[i as int])] =~= view_of_seq(
                        pre,
                    ).push(view_of(elems@[i as int])));
                    lemma_enc_vseq_push(view_of_seq(pre), view_of(elems@[i as int]));
                    assert(out@ =~= base + hdr(4, elems@.len() as u64) + enc_vseq(
                        view_of_seq(elems@.subrange(0, i + 1)),
                    ));
                }
                i = i + 1;
            }
            proof {
                assert(elems@.subrange(0, elems@.len() as int) =~= elems@);
                lemma_view_of_seq_index(elems@);
                assert(out@ =~= old(out)@ + enc_val(v@));
            }
        },
    }
}

/// Appends the encoding of a key-value mapping: map header, then each pair
/// in the mapping's key order.
pub fn encode_kv(m: &KV, out: &mut Vec<u8>)
    ensures
        final(out)@ == old(out)@ + enc_kv(m@),
{
    let ghost base = out@;
    encode_header(5, m.pairs.len() as u64, out);
    let n = m.pairs.len();
    let mut i: usize = 0;
    proof {
        assert(m@.subrange(0, 0) =~= Seq::<(Seq<char>, ValView)>::empty());
    }
    while i < n
        invariant
            i <= n,
            n == m.pairs@.len(),
            m@.len() == m.pairs@.len(),
            forall|j: int|
                0 <= j < m@.len() ==> #[trigger] m@[j] == (m.pairs@[j].0@, view_of(m.pairs@[j].1)),
            out@ == base + hdr(5, m@.len() as u64) + enc_pairs(m@.subrange(0, i as int)),
        decreases n - i,
    {
        let ghost pre = m@.subrange(0, i as int);
        encode_str(m.pairs[i].0.as_str(), out);
        encode_value(&m.pairs[i].1, out);
        proof {
            assert(m@.subrange(0, i + 1) =~= pre.push(m@[i as int]));
            lemma_enc_pairs_push(pre, m@[i as int]);
            assert(out@ =~= base + hdr(5, m@.len() as u64) + enc_pairs(m@.subrange(0, i + 1)));
        }
        i = i + 1;
    }
    proof {
        assert(m@.subrange(0, m@.len() as int) =~= m@);
        assert(out@ =~= old(out)@ + enc_kv(m@));
    }
}

} // verus!
