//! Human-readable rendering of records, fixed so that text output is
//! deterministic across runs: level, seconds with four fractional
//! digits, category, message, source location, then the key-value pairs
//! in key order.

use vstd::prelude::*;

verus! {

use crate::kv::KV;
use crate::kv::ValView;
use crate::kv::Value;
use crate::kv::view_of;
use crate::record::Level;
use crate::record::Record;
use crate::record::RecView;
use crate::text::dec_digits;
use crate::text::digit_char;
use crate::text::push_dec;
use crate::storage::hex_char;

/// The name of a level, as rendered.
pub open spec fn level_name(l: Level) -> Seq<char> {
    match l {
        Level::Trace => "Trace"@,
        Level::Debug => "Debug"@,
        Level::Info => "Info"@,
        Level::Warn => "Warn"@,
        Level::Error => "Error"@,
    }
}

/// Four zero-padded digits of the fractional part: the elapsed
/// nanoseconds truncated to ten-thousandths of a second.
pub open spec fn frac4(nanos: int) -> Seq<char> {
    let v = nanos / 100_000;
    seq![
        digit_char(v / 1000 % 10),
        digit_char(v / 100 % 10),
        digit_char(v / 10 % 10),
        digit_char(v % 10),
    ]
}

/// Eight hexadecimal digits of a 32-bit pattern.
pub open spec fn hex32(n: u32) -> Seq<char> {
    seq![
        hex_char(((n >> 28) & 0xf) as int),
        hex_char(((n >> 24) & 0xf) as int),
        hex_char(((n >> 20) & 0xf) as int),
        hex_char(((n >> 16) & 0xf) as int),
        hex_char(((n >> 12) & 0xf) as int),
        hex_char(((n >> 8) & 0xf) as int),
        hex_char(((n >> 4) & 0xf) as int),
        hex_char((n & 0xf) as int),
    ]
}

/// Sixteen hexadecimal digits of a 64-bit pattern.
pub open spec fn hex64(n: u64) -> Seq<char> {
    hex32((n >> 32) as u32) + hex32((n & 0xffff_ffff) as u32)
}

/// The decimal digits of a signed value.
pub open spec fn dec_signed(x: i64) -> Seq<char> {
    if x >= 0 {
        dec_digits(x as int)
    } else {
        seq!['-'] + dec_digits(-(x as int))
    }
}

/// Rendering of one value. Floating-point members render as their bit
/// patterns, which keeps the text exact; arrays render as their length.
pub open spec fn render_val(v: ValView) -> Seq<char> {
    match v {
        ValView::Null => "null"@,
        ValView::I64(x) => dec_signed(x),
        ValView::U64(x) => dec_digits(x as int),
        ValView::F32(bits) => "f32(0x"@ + hex32(bits) + ")"@,
        ValView::F64(bits) => "f64(0x"@ + hex64(bits) + ")"@,
        ValView::Bool(x) => if x {
            "true"@
        } else {
            "false"@
        },
        ValView::Text(s) => "\""@ + s + "\""@,
        ValView::Bytes(b) => "bytes("@ + dec_digits(b.len() as int) + ")"@,
        ValView::Array(es) => "vec(len="@ + dec_digits(es.len() as int) + ")"@,
    }
}

/// Rendering of the pairs of a mapping: `key = value, ` each, in order.
pub open spec fn render_pairs(m: Seq<(Seq<char>, ValView)>) -> Seq<char>
    decreases m,
{
    if m.len() == 0 {
        Seq::empty()
    } else {
        m[0].0 + " = "@ + render_val(m[0].1) + ", "@ + render_pairs(m.drop_first())
    }
}

/// Rendering of one record:
/// `[<Level>] <sec>.<frac> [<category>] <message> (<file>:L<line>)` and,
/// if a mapping is present, ` {k1 = v1, k2 = v2, }` with the keys in
/// sorted order.
pub open spec fn render_rec(r: RecView) -> Seq<char> {
    "["@ + level_name(r.level) + "] "@ + dec_digits(r.elapsed_secs as int) + "."@ + frac4(
        r.elapsed_nanos as int,
    ) + " ["@ + r.category + "] "@ + r.message + " ("@ + (match r.file {
        Option::None => Seq::empty(),
        Option::Some(f) => f,
    }) + ":L"@ + dec_digits(
        match r.line {
            Option::None => 0,
            Option::Some(n) => n as int,
        },
    ) + ")"@ + (match r.kv {
        Option::None => Seq::empty(),
        Option::Some(m) => " {"@ + render_pairs(m) + "}"@,
    })
}

/// Appending a pair appends its rendering.
proof fn lemma_render_pairs_push(m: Seq<(Seq<char>, ValView)>, p: (Seq<char>, ValView))
    ensures
        render_pairs(m.push(p)) == render_pairs(m) + (p.0 + " = "@ + render_val(p.1) + ", "@),
    decreases m.len(),
{
    if m.len() == 0 {
        let mp = m.push(p);
        assert(mp[0] == p);
        assert(mp.drop_first() =~= Seq::<(Seq<char>, ValView)>::empty());
        assert(render_pairs(mp) == mp[0].0 + " = "@ + render_val(mp[0].1) + ", "@ + render_pairs(
            mp.drop_first(),
        ));
        assert(render_pairs(Seq::<(Seq<char>, ValView)>::empty()) == Seq::<char>::empty());
        assert(render_pairs(m.push(p)) =~= render_pairs(m) + (p.0 + " = "@ + render_val(p.1)
            + ", "@));
    } else {
        assert(m.push(p).drop_first() =~= m.drop_first().push(p));
        assert(m.push(p)[0] == m[0]);
        lemma_render_pairs_push(m.drop_first(), p);
        assert(render_pairs(m.push(p)) =~= render_pairs(m) + (p.0 + " = "@ + render_val(p.1)
            + ", "@));
    }
}

/// Appends the name of a level.
fn push_level(l: Level, out: &mut String)
    ensures
        final(out)@ == old(out)@ + level_name(l),
{
    match l {
        Level::Trace => out.append("Trace"),
        Level::Debug => out.append("Debug"),
        Level::Info => out.append("Info"),
        Level::Warn => out.append("Warn"),
        Level::Error => out.append("Error"),
    }
}

/// Appends the four fractional digits.
fn push_frac4(nanos: u32, out: &mut String)
    requires
        nanos < 1_000_000_000,
    ensures
        final(out)@ == old(out)@ + frac4(nanos as int),
{
    let v = nanos / 100_000;
    crate::text::push_digit(((v / 1000) % 10) as u64, out);
    crate::text::push_digit(((v / 100) % 10) as u64, out);
    crate::text::push_digit(((v / 10) % 10) as u64, out);
    crate::text::push_digit((v % 10) as u64, out);
    proof {
        assert(old(out)@ + seq![digit_char((nanos / 100_000) as int / 1000 % 10)] + seq![
            digit_char((nanos / 100_000) as int / 100 % 10),
        ] + seq![digit_char((nanos / 100_000) as int / 10 % 10)] + seq![
            digit_char((nanos / 100_000) as int % 10),
        ] =~= old(out)@ + frac4(nanos as int));
    }
}

/// Appends eight hexadecimal digits of a 32-bit pattern.
fn push_hex32(n: u32, out: &mut String)
    ensures
        final(out)@ == old(out)@ + hex32(n),
{
    proof {
        assert((n >> 28) & 0xf < 16 && (n >> 24) & 0xf < 16 && (n >> 20) & 0xf < 16 && (n >> 16)
            & 0xf < 16 && (n >> 12) & 0xf < 16 && (n >> 8) & 0xf < 16 && (n >> 4) & 0xf < 16 && n
            & 0xf < 16) by (bit_vector);
    }
    crate::storage::push_hex_digit((((n >> 28) & 0xf) as u8), out);
    crate::storage::push_hex_digit((((n >> 24) & 0xf) as u8), out);
    crate::storage::push_hex_digit((((n >> 20) & 0xf) as u8), out);
    crate::storage::push_hex_digit((((n >> 16) & 0xf) as u8), out);
    crate::storage::push_hex_digit((((n >> 12) & 0xf) as u8), out);
    crate::storage::push_hex_digit((((n >> 8) & 0xf) as u8), out);
    crate::storage::push_hex_digit((((n >> 4) & 0xf) as u8), out);
    crate::storage::push_hex_digit(((n & 0xf) as u8), out);
    proof {
        assert(out@ =~= old(out)@ + hex32(n));
    }
}

/// Appends the rendering of one value.
pub fn push_value(v: &Value, out: &mut String)
    ensures
        final(out)@ == old(out)@ + render_val(v@),
{
    match v {
        Value::Null => {
            out.append("null");
            assert(out@ =~= old(out)@ + render_val(v@));
        },
        Value::I64(x) => {
            if *x >= 0 {
                push_dec(*x as u64, out);
                assert(out@ =~= old(out)@ + render_val(v@));
            } else {
                out.append("-");
                let mag: u64 = ((-(*x + 1)) as u64) + 1;
                push_dec(mag, out);
                proof {
                    reveal_strlit("-");
                    assert("-"@ =~= seq!['-']);
                    assert(out@ =~= old(out)@ + dec_signed(*x));
                    assert(out@ =~= old(out)@ + render_val(v@));
                }
            }
        },
        Value::U64(x) => {
            push_dec(*x, out);
            assert(out@ =~= old(out)@ + render_val(v@));
        },
        Value::F32Bits(bits) => {
            out.append("f32(0x");
            push_hex32(*bits, out);
            out.append(")");
            proof {
                assert(out@ =~= old(out)@ + render_val(v@));
            }
        },
        Value::F64Bits(bits) => {
            out.append("f64(0x");
            push_hex32((*bits >> 32) as u32, out);
            push_hex32((*bits & 0xffff_ffff) as u32, out);
            out.append(")");
            proof {
                assert(out@ =~= old(out)@ + render_val(v@));
            }
        },
        Value::Bool(x) => {
            if *x {
                out.append("true");
            } else {
                out.append("false");
            }
            assert(out@ =~= old(out)@ + render_val(v@));
        },
        Value::Text(s) => {
            out.append("\"");
            out.append(s.as_str());
            out.append("\"");
            proof {
                assert(out@ =~= old(out)@ + render_val(v@));
            }
        },
        Value::Bytes(b) => {
            out.append("bytes(");
            push_dec(b.len() as u64, out);
            out.append(")");
            proof {
                assert(out@ =~= old(out)@ + render_val(v@));
            }
        },
        Value::Array(es) => {
            out.append("vec(len=");
            push_dec(es.len() as u64, out);
            out.append(")");
            proof {
                crate::kv::lemma_view_of_seq_index(es@);
                assert(out@ =~= old(out)@ + render_val(v@));
            }
        },
    }
}

/// Appends the rendering of a mapping's pairs, in key order.
pub fn push_pairs(m: &KV, out: &mut String)
    ensures
        final(out)@ == old(out)@ + render_pairs(m@),
{
    let n = m.pairs.len();
    let mut i: usize = 0;
    proof {
        assert(m@.subrange(0, 0) =~= Seq::<(Seq<char>, ValView)>::empty());
    }
    while i < n
        invariant
            i <= n,
            n == m.pairs@.len(),
            m@.len() == m.pairs@.len(),
            forall|j: int|
                0 <= j < m@.len() ==> #[trigger] m@[j] == (m.pairs@[j].0@, view_of(m.pairs@[j].1)),
            out@ == old(out)@ + render_pairs(m@.subrange(0, i as int)),
        decreases n - i,
    {
        let ghost pre = m@.subrange(0, i as int);
        out.append(m.pairs[i].0.as_str());
        out.append(" = ");
        push_value(&m.pairs[i].1, out);
        out.append(", ");
        proof {
            assert(m@.subrange(0, i + 1) =~= pre.push(m@[i as int]));
            lemma_render_pairs_push(pre, m@[i as int]);
            assert(out@ =~= old(out)@ + render_pairs(m@.subrange(0, i + 1)));
        }
        i = i + 1;
    }
    proof {
        assert(m@.subrange(0, m@.len() as int) =~= m@);
    }
}

/// The fixed human-readable rendering of a record.
pub fn render(r: &Record) -> (out: String)
    requires
        r@.elapsed_nanos < 1_000_000_000,
    ensures
        out@ == render_rec(r@),
{
    let mut out = String::new();
    out.append("[");
    push_level(r.metadata.level(), &mut out);
    out.append("] ");
    push_dec(r.elapsed_secs, &mut out);
    out.append(".");
    push_frac4(r.elapsed_nanos, &mut out);
    out.append(" [");
    out.append(r.category.as_str());
    out.append("] ");
    out.append(r.message.as_str());
    out.append(" (");
    match &r.file {
        Option::Some(f) => out.append(f.as_str()),
        Option::None => (),
    }
    out.append(":L");
    match &r.line {
        Option::Some(n) => push_dec(*n as u64, &mut out),
        Option::None => push_dec(0, &mut out),
    }
    out.append(")");
    match &r.kv {
        Option::Some(m) => {
            out.append(" {");
            push_pairs(m, &mut out);
            out.append("}");
        },
        Option::None => (),
    }
    proof {
        assert(out@ =~= render_rec(r@));
    }
    out
}

} // verus!
