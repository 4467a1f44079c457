//! The record model: one structured log event, and its place in the
//! binary format.
//!
//! A record travels as one array item of eight elements: metadata (level
//! code and target), elapsed time (seconds and nanoseconds), category,
//! optional module path, optional file, optional line, message, and an
//! optional key-value mapping. Every element but the mapping is an
//! ordinary value item, so the record codec leans on the value codec.

use vstd::prelude::*;

verus! {

use vstd::string::StringSliceAdditionalSpecFns;
use vstd::utf8::encode_utf8;
use crate::kv::KV;
use crate::kv::ValView;
use crate::kv::Value;
use crate::kv::kv_sorted;
use crate::codec::enc_text;
use crate::codec::enc_kv;
use crate::codec::enc_val;
use crate::codec::enc_vseq;
use crate::codec::hdr;
use crate::codec::dec_val;
use crate::codec::dec_kv;
use crate::codec::wf_val;
use crate::codec::wf_pairs;
use crate::codec::norm_pairs;
use crate::codec::encode_header;
use crate::codec::encode_str;
use crate::codec::encode_kv;
use crate::codec::decode_value;
use crate::codec::decode_kv;
use crate::codec::lemma_dec_enc_val;
use crate::Error;

/// Severity of a record, ordered from chattiest to gravest.
#[derive(Copy, Clone, Debug, Hash, PartialEq, Eq, Structural)]
pub enum Level {
    Trace,
    Debug,
    Info,
    Warn,
    Error,
}

/// The small unsigned integer a level travels as.
pub open spec fn level_code(l: Level) -> u64 {
    match l {
        Level::Trace => 0,
        Level::Debug => 1,
        Level::Info => 2,
        Level::Warn => 3,
        Level::Error => 4,
    }
}

/// The level a code stands for, if any.
pub open spec fn level_of_code(n: u64) -> Option<Level> {
    if n == 0 {
        Option::Some(Level::Trace)
    } else if n == 1 {
        Option::Some(Level::Debug)
    } else if n == 2 {
        Option::Some(Level::Info)
    } else if n == 3 {
        Option::Some(Level::Warn)
    } else if n == 4 {
        Option::Some(Level::Error)
    } else {
        Option::None
    }
}

impl Level {
    /// The small unsigned integer this level travels as.
    pub fn code(self) -> (r: u64)
        ensures
            r == level_code(self),
    {
        match self {
            Level::Trace => 0,
            Level::Debug => 1,
            Level::Info => 2,
            Level::Warn => 3,
            Level::Error => 4,
        }
    }

    /// The level a code stands for, if any.
    pub fn from_code(n: u64) -> (r: Option<Level>)
        ensures
            r == level_of_code(n),
    {
        if n == 0 {
            Option::Some(Level::Trace)
        } else if n == 1 {
            Option::Some(Level::Debug)
        } else if n == 2 {
            Option::Some(Level::Info)
        } else if n == 3 {
            Option::Some(Level::Warn)
        } else if n == 4 {
            Option::Some(Level::Error)
        } else {
            Option::None
        }
    }

    /// Whether this level is at least as grave as `other`.
    pub fn at_least(self, other: Level) -> (r: bool)
        ensures
            r == (level_code(self) >= level_code(other)),
    {
        self.code() >= other.code()
    }
}

/// Model of a record's metadata.
pub struct MetaView {
    pub level: Level,
    pub target: Seq<char>,
}

/// Level and target of a record; the target is typically the producing
/// module path and is opaque to the pipeline.
#[derive(Debug, PartialEq)]
pub struct Metadata {
    pub level: Level,
    pub target: String,
}

impl View for Metadata {
    type V = MetaView;

    open spec fn view(&self) -> MetaView {
        MetaView { level: self.level, target: self.target@ }
    }
}

impl Metadata {
    pub fn new(level: Level, target: String) -> (r: Metadata)
        ensures
            r@.level == level,
            r@.target == target@,
    {
        Metadata { level, target }
    }

    pub fn level(&self) -> (r: Level)
        ensures
            r == self@.level,
    {
        self.level
    }

    pub fn target(&self) -> (r: &str)
        ensures
            r@ == self@.target,
    {
        self.target.as_str()
    }
}

/// Borrowed metadata, used when assembling a record without owning its
/// strings.
#[derive(Debug, PartialEq)]
pub struct MetadataBorrow<'a> {
    pub level: Level,
    pub target: &'a str,
}

impl<'a> MetadataBorrow<'a> {
    pub fn new(level: Level, target: &'a str) -> (r: MetadataBorrow<'a>)
        ensures
            r.level == level,
            r.target@ == target@,
    {
        MetadataBorrow { target, level }
    }

    pub fn level(&self) -> (r: Level)
        ensures
            r == self.level,
    {
        self.level
    }

    pub fn target(&self) -> (r: &'a str)
        ensures
            r@ == self.target@,
    {
        self.target
    }
}

impl<'a> Default for MetadataBorrow<'a> {
    fn default() -> (r: MetadataBorrow<'a>)
        ensures
            r.level == Level::Info,
            r.target@ == ""@,
    {
        MetadataBorrow { level: Level::Info, target: "" }
    }
}

/// A borrowed record, used when assembling a log call's data without
/// owning its strings.
#[derive(Debug, PartialEq)]
pub struct RecordBorrow<'a> {
    pub metadata: MetadataBorrow<'a>,
    pub elapsed_secs: u64,
    pub elapsed_nanos: u32,
    pub category: &'a str,
    pub modpath: Option<&'a str>,
    pub file: Option<&'a str>,
    pub line: Option<u32>,
    pub message: &'a str,
    pub kv: Option<&'a KV>,
}

impl<'a> RecordBorrow<'a> {
    pub fn metadata(&self) -> (r: &MetadataBorrow<'a>)
        ensures
            r == self.metadata,
    {
        &self.metadata
    }

    pub fn level(&self) -> (r: Level)
        ensures
            r == self.metadata.level,
    {
        self.metadata.level()
    }

    pub fn target(&self) -> (r: &'a str)
        ensures
            r@ == self.metadata.target@,
    {
        self.metadata.target()
    }

    pub fn modpath(&self) -> (r: Option<&'a str>)
        ensures
            r == self.modpath,
    {
        self.modpath
    }

    pub fn file(&self) -> (r: Option<&'a str>)
        ensures
            r == self.file,
    {
        self.file
    }

    pub fn line(&self) -> (r: Option<u32>)
        ensures
            r == self.line,
    {
        self.line
    }

    pub fn key_values(&self) -> (r: Option<&'a KV>)
        ensures
            r == self.kv,
    {
        self.kv
    }
}

/// Model of a record.
pub struct RecView {
    pub level: Level,
    pub target: Seq<char>,
    pub elapsed_secs: u64,
    pub elapsed_nanos: u32,
    pub category: Seq<char>,
    pub modpath: Option<Seq<char>>,
    pub file: Option<Seq<char>>,
    pub line: Option<u32>,
    pub message: Seq<char>,
    pub kv: Option<Seq<(Seq<char>, ValView)>>,
}

/// One structured log event. Immutable after construction; equality is
/// structural over all fields. The elapsed time since session start is
/// carried as whole seconds plus sub-second nanoseconds.
#[derive(Debug, PartialEq)]
pub struct Record {
    pub metadata: Metadata,
    pub elapsed_secs: u64,
    pub elapsed_nanos: u32,
    pub category: String,
    pub modpath: Option<String>,
    pub file: Option<String>,
    pub line: Option<u32>,
    pub message: String,
    pub kv: Option<KV>,
}

/// The model of an optional string.
pub open spec fn opt_view(o: Option<String>) -> Option<Seq<char>> {
    match o {
        Option::None => Option::None,
        Option::Some(s) => Option::Some(s@),
    }
}

impl View for Record {
    type V = RecView;

    open spec fn view(&self) -> RecView {
        RecView {
            level: self.metadata@.level,
            target: self.metadata@.target,
            elapsed_secs: self.elapsed_secs,
            elapsed_nanos: self.elapsed_nanos,
            category: self.category@,
            modpath: opt_view(self.modpath),
            file: opt_view(self.file),
            line: self.line,
            message: self.message@,
            kv: match self.kv {
                Option::None => Option::None,
                Option::Some(m) => Option::Some(m@),
            },
        }
    }
}

impl Record {
    pub fn metadata(&self) -> (r: &Metadata)
        ensures
            r@.level == self@.level,
            r@.target == self@.target,
    {
        &self.metadata
    }

    pub fn level(&self) -> (r: Level)
        ensures
            r == self@.level,
    {
        self.metadata.level()
    }

    pub fn target(&self) -> (r: &str)
        ensures
            r@ == self@.target,
    {
        self.metadata.target()
    }

    pub fn modpath(&self) -> (r: Option<&String>)
        ensures
            match r {
                Option::Some(s) => self@.modpath == Option::Some(s@),
                Option::None => self@.modpath is None,
            },
    {
        self.modpath.as_ref()
    }

    pub fn file(&self) -> (r: Option<&String>)
        ensures
            match r {
                Option::Some(s) => self@.file == Option::Some(s@),
                Option::None => self@.file is None,
            },
    {
        self.file.as_ref()
    }

    pub fn line(&self) -> (r: Option<u32>)
        ensures
            r == self@.line,
    {
        self.line
    }

    pub fn key_values(&self) -> (r: Option<&KV>)
        ensures
            match r {
                Option::Some(m) => self@.kv == Option::Some(m@),
                Option::None => self@.kv is None,
            },
    {
        self.kv.as_ref()
    }

    /// Well-formed: nanoseconds below one second, and a sorted key-value
    /// mapping if one is present.
    pub open spec fn wf(&self) -> bool {
        rec_wf(self@)
    }
}

/// Well-formed record model: sub-second nanoseconds, and sorted keys in
/// the mapping.
pub open spec fn rec_wf(r: RecView) -> bool {
    &&& r.elapsed_nanos < 1_000_000_000
    &&& match r.kv {
        Option::None => true,
        Option::Some(m) => kv_sorted(m),
    }
}

/// The sizes in a record model fit the 64-bit arguments of the format.
/// This holds of every record held in memory.
pub open spec fn opt_text_fits(o: Option<Seq<char>>) -> bool {
    match o {
        Option::None => true,
        Option::Some(s) => encode_utf8(s).len() <= u64::MAX,
    }
}

/// The record's texts and mapping fit the format's length arguments.
pub open spec fn rec_fits(r: RecView) -> bool {
    &&& encode_utf8(r.target).len() <= u64::MAX
    &&& encode_utf8(r.category).len() <= u64::MAX
    &&& encode_utf8(r.message).len() <= u64::MAX
    &&& opt_text_fits(r.modpath)
    &&& opt_text_fits(r.file)
    &&& match r.kv {
        Option::None => true,
        Option::Some(m) => wf_pairs(m) && m.len() <= u64::MAX,
    }
}

/// Normal form of a record: the values in its mapping in normal form,
/// everything else untouched.
pub open spec fn norm_rec(r: RecView) -> RecView {
    RecView {
        kv: match r.kv {
            Option::None => Option::None,
            Option::Some(m) => Option::Some(norm_pairs(m)),
        },
        ..r
    }
}

/// Encoding of an optional text field: a null item or a text item.
pub open spec fn enc_opt_text(o: Option<Seq<char>>) -> Seq<u8> {
    match o {
        Option::None => seq![0xf6u8],
        Option::Some(s) => enc_text(s),
    }
}

/// Encoding of the optional line number.
pub open spec fn enc_opt_line(o: Option<u32>) -> Seq<u8> {
    match o {
        Option::None => seq![0xf6u8],
        Option::Some(n) => hdr(0, n as u64),
    }
}

/// Encoding of the optional key-value mapping.
pub open spec fn enc_opt_kv(o: Option<Seq<(Seq<char>, ValView)>>) -> Seq<u8> {
    match o {
        Option::None => seq![0xf6u8],
        Option::Some(m) => enc_kv(m),
    }
}

/// Encoding of one record: an array of eight elements.
pub open spec fn enc_record(r: RecView) -> Seq<u8> {
    hdr(4, 8) + ((hdr(4, 2) + hdr(0, level_code(r.level)) + enc_text(r.target)) + ((hdr(4, 2)
        + hdr(0, r.elapsed_secs) + hdr(0, r.elapsed_nanos as u64)) + (enc_text(r.category) + (
    enc_opt_text(r.modpath) + (enc_opt_text(r.file) + (enc_opt_line(r.line) + (enc_text(r.message)
        + enc_opt_kv(r.kv))))))))
}

/// Decoded optional text field at `pos`.
pub open spec fn dec_opt_text(b: Seq<u8>, pos: int) -> Option<(Option<Seq<char>>, int)> {
    if 0 <= pos < b.len() && b[pos] == 0xf6 {
        Option::Some((Option::None, pos + 1))
    } else {
        match dec_val(b, pos) {
            Option::Some((ValView::Text(s), p2)) => Option::Some((Option::Some(s), p2)),
            _ => Option::None,
        }
    }
}

/// Decoded optional line number at `pos`.
pub open spec fn dec_opt_line(b: Seq<u8>, pos: int) -> Option<(Option<u32>, int)> {
    if 0 <= pos < b.len() && b[pos] == 0xf6 {
        Option::Some((Option::None, pos + 1))
    } else {
        match dec_val(b, pos) {
            Option::Some((ValView::U64(n), p2)) => if n <= u32::MAX {
                Option::Some((Option::Some(n as u32), p2))
            } else {
                Option::None
            },
            _ => Option::None,
        }
    }
}

/// Decoded optional key-value mapping at `pos`.
pub open spec fn dec_opt_kv(b: Seq<u8>, pos: int) -> Option<
    (Option<Seq<(Seq<char>, ValView)>>, int),
> {
    if 0 <= pos < b.len() && b[pos] == 0xf6 {
        Option::Some((Option::None, pos + 1))
    } else {
        match dec_kv(b, pos) {
            Option::Some((m, p2)) => Option::Some((Option::Some(m), p2)),
            Option::None => Option::None,
        }
    }
}

/// Decoded metadata element: an array of level code and target.
pub open spec fn dec_meta(b: Seq<u8>, pos: int) -> Option<(Level, Seq<char>, int)> {
    match dec_val(b, pos) {
        Option::Some((ValView::Array(es), p2)) => if es.len() == 2 {
            match (es[0], es[1]) {
                (ValView::U64(code), ValView::Text(t)) => match level_of_code(code) {
                    Option::Some(l) => Option::Some((l, t, p2)),
                    Option::None => Option::None,
                },
                _ => Option::None,
            }
        } else {
            Option::None
        },
        _ => Option::None,
    }
}

/// Decoded elapsed element: an array of seconds and nanoseconds.
pub open spec fn dec_elapsed(b: Seq<u8>, pos: int) -> Option<(u64, u32, int)> {
    match dec_val(b, pos) {
        Option::Some((ValView::Array(es), p2)) => if es.len() == 2 {
            match (es[0], es[1]) {
                (ValView::U64(secs), ValView::U64(nanos)) => if nanos < 1_000_000_000 {
                    Option::Some((secs, nanos as u32, p2))
                } else {
                    Option::None
                },
                _ => Option::None,
            }
        } else {
            Option::None
        },
        _ => Option::None,
    }
}

/// Decoded text element.
pub open spec fn dec_text_val(b: Seq<u8>, pos: int) -> Option<(Seq<char>, int)> {
    match dec_val(b, pos) {
        Option::Some((ValView::Text(s), p2)) => Option::Some((s, p2)),
        _ => Option::None,
    }
}

/// Decoded record at `pos` and the position just past it.
pub open spec fn dec_record(b: Seq<u8>, pos: int) -> Option<(RecView, int)> {
    match crate::codec::dec_hdr(b, pos) {
        Option::Some((4u8, add, 8u64, p0)) => match dec_meta(b, p0) {
            Option::Some((level, target, p1)) => match dec_elapsed(b, p1) {
                Option::Some((secs, nanos, p2)) => match dec_text_val(b, p2) {
                    Option::Some((category, p3)) => match dec_opt_text(b, p3) {
                        Option::Some((modpath, p4)) => match dec_opt_text(b, p4) {
                            Option::Some((file, p5)) => match dec_opt_line(b, p5) {
                                Option::Some((line, p6)) => match dec_text_val(b, p6) {
                                    Option::Some((message, p7)) => match dec_opt_kv(b, p7) {
                                        Option::Some((kvm, p8)) => Option::Some(
                                            (
                                                RecView {
                                                    level,
                                                    target,
                                                    elapsed_secs: secs,
                                                    elapsed_nanos: nanos,
                                                    category,
                                                    modpath: modpath,
                                                    file,
                                                    line,
                                                    message,
                                                    kv: kvm,
                                                },
                                                p8,
                                            ),
                                        ),
                                        Option::None => Option::None,
                                    },
                                    Option::None => Option::None,
                                },
                                Option::None => Option::None,
                            },
                            Option::None => Option::None,
                        },
                        Option::None => Option::None,
                    },
                    Option::None => Option::None,
                },
                Option::None => Option::None,
            },
            Option::None => Option::None,
        },
        _ => Option::None,
    }
}

// ---------------------------------------------------------------------
// Executable record codec
// ---------------------------------------------------------------------

/// Appends an optional text field: a null item or a text item.
fn encode_opt_str(o: &Option<String>, out: &mut Vec<u8>)
    ensures
        final(out)@ == old(out)@ + enc_opt_text(opt_view(*o)),
{
    match o {
        Option::None => {
            out.push(0xf6u8);
            assert(out@ =~= old(out)@ + enc_opt_text(opt_view(*o)));
        },
        Option::Some(s) => {
            encode_str(s.as_str(), out);
        },
    }
}

/// Appends the optional line number.
fn encode_opt_line(o: &Option<u32>, out: &mut Vec<u8>)
    ensures
        final(out)@ == old(out)@ + enc_opt_line(*o),
{
    match o {
        Option::None => {
            out.push(0xf6u8);
            assert(out@ =~= old(out)@ + enc_opt_line(*o));
        },
        Option::Some(n) => {
            encode_header(0, *n as u64, out);
        },
    }
}

/// Appends the optional key-value mapping.
fn encode_opt_kv(o: &Option<KV>, out: &mut Vec<u8>)
    ensures
        final(out)@ == old(out)@ + enc_opt_kv(
            match *o {
                Option::None => Option::None,
                Option::Some(m) => Option::Some(m@),
            },
        ),
{
    match o {
        Option::None => {
            out.push(0xf6u8);
            assert(out@ =~= old(out)@ + seq![0xf6u8]);
        },
        Option::Some(m) => {
            encode_kv(m, out);
        },
    }
}

/// Appends the encoding of one record. Encoding is total.
pub fn encode_record(r: &Record, out: &mut Vec<u8>)
    ensures
        final(out)@ == old(out)@ + enc_record(r@),
{
    let ghost base = out@;
    let ghost rv = r@;
    let ghost a0 = hdr(4, 8);
    let ghost a1 = hdr(4, 2);
    let ghost a2 = hdr(0, level_code(rv.level));
    let ghost a3 = enc_text(rv.target);
    let ghost a5 = hdr(0, rv.elapsed_secs);
    let ghost a6 = hdr(0, rv.elapsed_nanos as u64);
    let ghost e1 = a1 + a2 + a3;
    let ghost e2 = a1 + a5 + a6;
    let ghost e3 = enc_text(rv.category);
    let ghost e4 = enc_opt_text(rv.modpath);
    let ghost e5 = enc_opt_text(rv.file);
    let ghost e6 = enc_opt_line(rv.line);
    let ghost e7 = enc_text(rv.message);
    let ghost e8 = enc_opt_kv(rv.kv);
    encode_header(4, 8, out);
    encode_header(4, 2, out);
    encode_header(0, r.metadata.level().code(), out);
    encode_str(r.metadata.target(), out);
    proof {
        let x0 = base + a0;
        vstd::seq_lib::lemma_concat_associative(x0, a1, a2);
        vstd::seq_lib::lemma_concat_associative(x0, a1 + a2, a3);
        assert(out@ == x0 + e1);
    }
    encode_header(4, 2, out);
    encode_header(0, r.elapsed_secs, out);
    encode_header(0, r.elapsed_nanos as u64, out);
    proof {
        let x1 = base + a0 + e1;
        vstd::seq_lib::lemma_concat_associative(x1, a1, a5);
        vstd::seq_lib::lemma_concat_associative(x1, a1 + a5, a6);
        assert(out@ == x1 + e2);
    }
    encode_str(r.category.as_str(), out);
    encode_opt_str(&r.modpath, out);
    encode_opt_str(&r.file, out);
    encode_opt_line(&r.line, out);
    encode_str(r.message.as_str(), out);
    encode_opt_kv(&r.kv, out);
    proof {
        let x0 = base + a0;
        let x1 = x0 + e1;
        let x2 = x1 + e2;
        let x3 = x2 + e3;
        let x4 = x3 + e4;
        let x5 = x4 + e5;
        let x6 = x5 + e6;
        let x7 = x6 + e7;
        assert(out@ == x7 + e8);
        vstd::seq_lib::lemma_concat_associative(x6, e7, e8);
        vstd::seq_lib::lemma_concat_associative(x5, e6, e7 + e8);
        vstd::seq_lib::lemma_concat_associative(x4, e5, e6 + (e7 + e8));
        vstd::seq_lib::lemma_concat_associative(x3, e4, e5 + (e6 + (e7 + e8)));
        vstd::seq_lib::lemma_concat_associative(x2, e3, e4 + (e5 + (e6 + (e7 + e8))));
        vstd::seq_lib::lemma_concat_associative(x1, e2, e3 + (e4 + (e5 + (e6 + (e7 + e8)))));
        vstd::seq_lib::lemma_concat_associative(x0, e1, e2 + (e3 + (e4 + (e5 + (e6 + (e7
            + e8))))));
        vstd::seq_lib::lemma_concat_associative(base, a0, e1 + (e2 + (e3 + (e4 + (e5 + (e6 + (e7
            + e8)))))));
        assert(out@ == base + enc_record(rv));
    }
}

/// Decodes the record at `pos`; on success returns it with the position
/// just past it. Fails with `Error::Format` exactly where the
/// specification decoder yields nothing.
pub fn decode_record(b: &Vec<u8>, pos: usize) -> (r: Result<(Record, usize), Error>)
    ensures
        match r {
            Result::Ok((rec, end)) => dec_record(b@, pos as int) == Option::Some(
                (rec@, end as int),
            ) && pos < end <= b@.len() && rec.wf(),
            Result::Err(e) => e == Error::Format && dec_record(b@, pos as int) is None,
        },
{
    let (major, add, arg, p0) = match crate::codec::decode_header(b, pos) {
        Result::Ok(h) => h,
        Result::Err(e) => {
            return Result::Err(e);
        },
    };
    if major != 4 || arg != 8 {
        return Result::Err(Error::Format);
    }
    let (level, target, p1) = match decode_meta_item(b, p0) {
        Result::Ok(x) => x,
        Result::Err(e) => {
            return Result::Err(e);
        },
    };
    let (secs, nanos, p2) = match decode_elapsed_item(b, p1) {
        Result::Ok(x) => x,
        Result::Err(e) => {
            return Result::Err(e);
        },
    };
    let (category, p3) = match decode_text_val(b, p2) {
        Result::Ok(x) => x,
        Result::Err(e) => {
            return Result::Err(e);
        },
    };
    let (modpath, p4) = match decode_opt_text(b, p3) {
        Result::Ok(x) => x,
        Result::Err(e) => {
            return Result::Err(e);
        },
    };
    let (file, p5) = match decode_opt_text(b, p4) {
        Result::Ok(x) => x,
        Result::Err(e) => {
            return Result::Err(e);
        },
    };
    let (line, p6) = match decode_opt_line_item(b, p5) {
        Result::Ok(x) => x,
        Result::Err(e) => {
            return Result::Err(e);
        },
    };
    let (message, p7) = match decode_text_val(b, p6) {
        Result::Ok(x) => x,
        Result::Err(e) => {
            return Result::Err(e);
        },
    };
    let (kvm, p8) = match decode_opt_kv_item(b, p7) {
        Result::Ok(x) => x,
        Result::Err(e) => {
            return Result::Err(e);
        },
    };
    let rec = Record {
        metadata: Metadata::new(level, target),
        elapsed_secs: secs,
        elapsed_nanos: nanos,
        category,
        modpath,
        file,
        line,
        message,
        kv: kvm,
    };
    Result::Ok((rec, p8))
}


/// Decodes the metadata element: an array of level code and target.
fn decode_meta_item(b: &Vec<u8>, pos: usize) -> (r: Result<(Level, String, usize), Error>)
    ensures
        match r {
            Result::Ok((l, t, end)) => dec_meta(b@, pos as int) == Option::Some(
                (l, t@, end as int),
            ) && pos < end <= b@.len(),
            Result::Err(e) => e == Error::Format && dec_meta(b@, pos as int) is None,
        },
{
    let (v, p) = match decode_value(b, pos) {
        Result::Ok(x) => x,
        Result::Err(e) => {
            return Result::Err(e);
        },
    };
    match v {
        Value::Array(mut es) => {
            proof {
                crate::kv::lemma_view_of_seq_index(es@);
            }
            if es.len() != 2 {
                return Result::Err(Error::Format);
            }
            let second = match es.pop() {
                Option::Some(x) => x,
                Option::None => {
                    return Result::Err(Error::Format);
                },
            };
            let first = match es.pop() {
                Option::Some(x) => x,
                Option::None => {
                    return Result::Err(Error::Format);
                },
            };
            match (first, second) {
                (Value::U64(code), Value::Text(t)) => match Level::from_code(code) {
                    Option::Some(l) => Result::Ok((l, t, p)),
                    Option::None => Result::Err(Error::Format),
                },
                _ => Result::Err(Error::Format),
            }
        },
        _ => Result::Err(Error::Format),
    }
}

/// Decodes the elapsed element: an array of seconds and nanoseconds.
fn decode_elapsed_item(b: &Vec<u8>, pos: usize) -> (r: Result<(u64, u32, usize), Error>)
    ensures
        match r {
            Result::Ok((secs, nanos, end)) => dec_elapsed(b@, pos as int) == Option::Some(
                (secs, nanos, end as int),
            ) && pos < end <= b@.len() && nanos < 1_000_000_000,
            Result::Err(e) => e == Error::Format && dec_elapsed(b@, pos as int) is None,
        },
{
    let (v, p) = match decode_value(b, pos) {
        Result::Ok(x) => x,
        Result::Err(e) => {
            return Result::Err(e);
        },
    };
    match v {
        Value::Array(mut es) => {
            proof {
                crate::kv::lemma_view_of_seq_index(es@);
            }
            if es.len() != 2 {
                return Result::Err(Error::Format);
            }
            let second = match es.pop() {
                Option::Some(x) => x,
                Option::None => {
                    return Result::Err(Error::Format);
                },
            };
            let first = match es.pop() {
                Option::Some(x) => x,
                Option::None => {
                    return Result::Err(Error::Format);
                },
            };
            match (first, second) {
                (Value::U64(sv), Value::U64(nv)) => {
                    if nv < 1_000_000_000 {
                        Result::Ok((sv, nv as u32, p))
                    } else {
                        Result::Err(Error::Format)
                    }
                },
                _ => Result::Err(Error::Format),
            }
        },
        _ => Result::Err(Error::Format),
    }
}

/// Decodes a value that must be a text item.
fn decode_text_val(b: &Vec<u8>, pos: usize) -> (r: Result<(String, usize), Error>)
    ensures
        match r {
            Result::Ok((s, end)) => dec_text_val(b@, pos as int) == Option::Some(
                (s@, end as int),
            ) && pos < end <= b@.len(),
            Result::Err(e) => e == Error::Format && dec_text_val(b@, pos as int) is None,
        },
{
    let (v, p) = match decode_value(b, pos) {
        Result::Ok(x) => x,
        Result::Err(e) => {
            return Result::Err(e);
        },
    };
    match v {
        Value::Text(s) => Result::Ok((s, p)),
        _ => Result::Err(Error::Format),
    }
}

/// Decodes an optional text field: a null item or a text item.
fn decode_opt_text(b: &Vec<u8>, pos: usize) -> (r: Result<(Option<String>, usize), Error>)
    ensures
        match r {
            Result::Ok((o, end)) => dec_opt_text(b@, pos as int) == Option::Some(
                (opt_view(o), end as int),
            ) && pos < end <= b@.len(),
            Result::Err(e) => e == Error::Format && dec_opt_text(b@, pos as int) is None,
        },
{
    if pos < b.len() && b[pos] == 0xf6 {
        return Result::Ok((Option::None, pos + 1));
    }
    let (v, p) = match decode_value(b, pos) {
        Result::Ok(x) => x,
        Result::Err(e) => {
            return Result::Err(e);
        },
    };
    match v {
        Value::Text(s) => Result::Ok((Option::Some(s), p)),
        _ => Result::Err(Error::Format),
    }
}

/// Decodes the optional line number.
fn decode_opt_line_item(b: &Vec<u8>, pos: usize) -> (r: Result<(Option<u32>, usize), Error>)
    ensures
        match r {
            Result::Ok((o, end)) => dec_opt_line(b@, pos as int) == Option::Some(
                (o, end as int),
            ) && pos < end <= b@.len(),
            Result::Err(e) => e == Error::Format && dec_opt_line(b@, pos as int) is None,
        },
{
    if pos < b.len() && b[pos] == 0xf6 {
        return Result::Ok((Option::None, pos + 1));
    }
    let (v, p) = match decode_value(b, pos) {
        Result::Ok(x) => x,
        Result::Err(e) => {
            return Result::Err(e);
        },
    };
    match v {
        Value::U64(n) => {
            if n <= u32::MAX as u64 {
                Result::Ok((Option::Some(n as u32), p))
            } else {
                Result::Err(Error::Format)
            }
        },
        _ => Result::Err(Error::Format),
    }
}

/// Decodes the optional key-value mapping.
fn decode_opt_kv_item(b: &Vec<u8>, pos: usize) -> (r: Result<(Option<KV>, usize), Error>)
    ensures
        match r {
            Result::Ok((o, end)) => dec_opt_kv(b@, pos as int) == Option::Some(
                (
                    match o {
                        Option::None => Option::None,
                        Option::Some(m) => Option::Some(m@),
                    },
                    end as int,
                ),
            ) && pos < end <= b@.len() && (o matches Option::Some(m) ==> m.wf()),
            Result::Err(e) => e == Error::Format && dec_opt_kv(b@, pos as int) is None,
        },
{
    if pos < b.len() && b[pos] == 0xf6 {
        return Result::Ok((Option::None, pos + 1));
    }
    match decode_kv(b, pos) {
        Result::Ok((m, p)) => Result::Ok((Option::Some(m), p)),
        Result::Err(e) => Result::Err(e),
    }
}

// ---------------------------------------------------------------------
// Frame payloads: a stream of records
// ---------------------------------------------------------------------

/// Decoded stream of records from `pos` to the end of the buffer, and
/// whether the whole buffer was consumed cleanly. A malformed or partial
/// terminal record stops the stream with the records decoded so far.
pub open spec fn dec_stream(b: Seq<u8>, pos: int) -> (Seq<RecView>, bool)
    decreases b.len() - pos,
{
    if pos >= b.len() {
        (Seq::empty(), pos == b.len())
    } else {
        match dec_record(b, pos) {
            Option::None => (Seq::empty(), false),
            Option::Some((r, p2)) => {
                if p2 <= pos || p2 > b.len() {
                    (Seq::empty(), false)
                } else {
                    let (rest, ok) = dec_stream(b, p2);
                    (seq![r] + rest, ok)
                }
            },
        }
    }
}

/// The models of a run of records, record by record.
pub open spec fn recs_view(rs: Seq<Record>) -> Seq<RecView> {
    Seq::new(rs.len(), |i: int| rs[i]@)
}

/// Decodes a whole frame payload as a stream of records. Returns the
/// records before the first malformed one, and whether the payload was
/// consumed cleanly; a partial terminal record is a format error.
pub fn decode_frame(b: &Vec<u8>) -> (r: (Vec<Record>, bool))
    ensures
        recs_view(r.0@) == dec_stream(b@, 0).0,
        r.1 == dec_stream(b@, 0).1,
        forall|i: int| 0 <= i < r.0@.len() ==> (#[trigger] r.0@[i]).wf(),
{
    let mut recs: Vec<Record> = Vec::new();
    let mut pos: usize = 0;
    loop
        invariant
            pos <= b@.len(),
            dec_stream(b@, 0).0 == recs_view(recs@) + dec_stream(b@, pos as int).0,
            dec_stream(b@, 0).1 == dec_stream(b@, pos as int).1,
            forall|i: int| 0 <= i < recs@.len() ==> (#[trigger] recs@[i]).wf(),
        ensures
            pos == b@.len(),
            recs_view(recs@) == dec_stream(b@, 0).0,
            dec_stream(b@, 0).1 == dec_stream(b@, pos as int).1,
            forall|i: int| 0 <= i < recs@.len() ==> (#[trigger] recs@[i]).wf(),
        decreases b@.len() - pos,
    {
        if pos >= b.len() {
            proof {
                assert(dec_stream(b@, pos as int).0 =~= Seq::<RecView>::empty());
                assert(recs_view(recs@) + Seq::<RecView>::empty() =~= recs_view(recs@));
            }
            break ;
        }
        let (rec, p2) = match decode_record(b, pos) {
            Result::Ok(x) => x,
            Result::Err(_) => {
                proof {
                    assert(dec_stream(b@, pos as int).0 =~= Seq::<RecView>::empty());
                    assert(recs_view(recs@) + Seq::<RecView>::empty() =~= recs_view(recs@));
                    assert(!dec_stream(b@, pos as int).1);
                }
                return (recs, false);
            },
        };
        proof {
            let ghost pre = recs@;
            assert(dec_stream(b@, pos as int).0 == seq![rec@] + dec_stream(b@, p2 as int).0);
            assert(recs_view(pre.push(rec)) =~= recs_view(pre) + seq![rec@]);
            assert(recs_view(pre) + (seq![rec@] + dec_stream(b@, p2 as int).0) =~= recs_view(
                pre.push(rec),
            ) + dec_stream(b@, p2 as int).0);
        }
        recs.push(rec);
        pos = p2;
    }
    proof {
        assert(dec_stream(b@, pos as int).1);
    }
    (recs, true)
}

// ---------------------------------------------------------------------
// Round trip of a record
// ---------------------------------------------------------------------

/// Encoding of a two-element array item.
proof fn lemma_enc_pair_array(a: ValView, c: ValView)
    ensures
        enc_val(ValView::Array(seq![a, c])) == hdr(4, 2) + enc_val(a) + enc_val(c),
        wf_val(a) && wf_val(c) ==> wf_val(ValView::Array(seq![a, c])),
        crate::codec::norm_vseq(seq![a, c]) == seq![
            crate::codec::norm_val(a),
            crate::codec::norm_val(c),
        ],
{
    let s = seq![a, c];
    assert(s.drop_first() =~= seq![c]);
    assert(seq![c].drop_first() =~= Seq::<ValView>::empty());
    assert(enc_vseq(Seq::<ValView>::empty()) == Seq::<u8>::empty());
    assert(enc_vseq(seq![c]) =~= enc_val(c));
    assert(enc_vseq(s) =~= enc_val(a) + enc_val(c));
    assert(enc_val(ValView::Array(s)) =~= hdr(4, 2) + enc_val(a) + enc_val(c));
    assert(crate::codec::wf_vseq(Seq::<ValView>::empty()));
    if wf_val(a) && wf_val(c) {
        assert(crate::codec::wf_vseq(seq![c]));
        assert(crate::codec::wf_vseq(s));
        assert(wf_val(ValView::Array(s)));
    }
    assert(crate::codec::norm_vseq(Seq::<ValView>::empty()) == Seq::<ValView>::empty());
    assert(crate::codec::norm_vseq(seq![c]) =~= seq![crate::codec::norm_val(c)]);
    assert(crate::codec::norm_vseq(s) =~= seq![
        crate::codec::norm_val(a),
        crate::codec::norm_val(c),
    ]);
}

/// A level code reads back as its level.
proof fn lemma_level_code_rt(l: Level)
    ensures
        level_of_code(level_code(l)) == Option::Some(l),
{
}

/// The first byte of a header with a major tag other than the simple
/// values' is never the null item.
proof fn lemma_hdr_not_null(major: u8, n: u64)
    requires
        major < 7,
    ensures
        hdr(major, n)[0] != 0xf6,
{
    if n < 24 {
        assert(((major << 5) | (n as u8)) != 0xf6) by (bit_vector)
            requires
                major < 7,
                n < 24,
        ;
    } else {
        assert(((major << 5) | 24u8) != 0xf6 && ((major << 5) | 25u8) != 0xf6 && ((major << 5)
            | 26u8) != 0xf6 && ((major << 5) | 27u8) != 0xf6) by (bit_vector)
            requires
                major < 7,
        ;
    }
}

/// The pieces of a record's encoding, in wire order.
pub open spec fn rec_piece(r: RecView, k: int) -> Seq<u8> {
    if k <= 0 {
        hdr(4, 8)
    } else if k == 1 {
        hdr(4, 2) + hdr(0, level_code(r.level)) + enc_text(r.target)
    } else if k == 2 {
        hdr(4, 2) + hdr(0, r.elapsed_secs) + hdr(0, r.elapsed_nanos as u64)
    } else if k == 3 {
        enc_text(r.category)
    } else if k == 4 {
        enc_opt_text(r.modpath)
    } else if k == 5 {
        enc_opt_text(r.file)
    } else if k == 6 {
        enc_opt_line(r.line)
    } else if k == 7 {
        enc_text(r.message)
    } else {
        enc_opt_kv(r.kv)
    }
}

/// Offset of piece `k` within a record's encoding.
pub open spec fn rec_off(r: RecView, k: int) -> int
    decreases k,
{
    if k <= 0 {
        0
    } else {
        rec_off(r, k - 1) + rec_piece(r, k - 1).len()
    }
}

/// Where each piece of a record's encoding sits in a buffer that holds
/// the whole encoding at `pos`.
pub open spec fn rec_layout(r: RecView, b: Seq<u8>, pos: int) -> bool {
    &&& 0 <= pos
    &&& pos + rec_off(r, 9) <= b.len()
    &&& rec_off(r, 9) == enc_record(r).len()
    &&& forall|k: int|
        0 <= k < 9 ==> b.subrange(pos + rec_off(r, k), pos + rec_off(r, k + 1)) == #[trigger]
        rec_piece(r, k)
}

/// A buffer that holds a record's encoding at `pos` holds each piece of
/// it at that piece's offset.
#[verifier::rlimit(100)]
#[verifier::spinoff_prover]
proof fn lemma_rec_layout(r: RecView, b: Seq<u8>, pos: int)
    requires
        0 <= pos,
        pos + enc_record(r).len() <= b.len(),
        b.subrange(pos, pos + enc_record(r).len()) == enc_record(r),
    ensures
        rec_layout(r, b, pos),
{
    let h0 = rec_piece(r, 0);
    let e1 = rec_piece(r, 1);
    let e2 = rec_piece(r, 2);
    let e3 = rec_piece(r, 3);
    let e4 = rec_piece(r, 4);
    let e5 = rec_piece(r, 5);
    let e6 = rec_piece(r, 6);
    let e7 = rec_piece(r, 7);
    let e8 = rec_piece(r, 8);
    assert(enc_record(r) == h0 + (e1 + (e2 + (e3 + (e4 + (e5 + (e6 + (e7 + e8))))))));
    crate::codec::lemma_subrange_split(b, pos, h0, e1 + (e2 + (e3 + (e4 + (e5 + (e6 + (e7
        + e8)))))));
    let p0 = pos + h0.len();
    crate::codec::lemma_subrange_split(b, p0, e1, e2 + (e3 + (e4 + (e5 + (e6 + (e7 + e8))))));
    let p1 = p0 + e1.len();
    crate::codec::lemma_subrange_split(b, p1, e2, e3 + (e4 + (e5 + (e6 + (e7 + e8)))));
    let p2 = p1 + e2.len();
    crate::codec::lemma_subrange_split(b, p2, e3, e4 + (e5 + (e6 + (e7 + e8))));
    let p3 = p2 + e3.len();
    crate::codec::lemma_subrange_split(b, p3, e4, e5 + (e6 + (e7 + e8)));
    let p4 = p3 + e4.len();
    crate::codec::lemma_subrange_split(b, p4, e5, e6 + (e7 + e8));
    let p5 = p4 + e5.len();
    crate::codec::lemma_subrange_split(b, p5, e6, e7 + e8);
    let p6 = p5 + e6.len();
    crate::codec::lemma_subrange_split(b, p6, e7, e8);
    assert forall|k: int| 0 <= k < 9 implies b.subrange(pos + rec_off(r, k), pos + rec_off(r, k + 1))
        == #[trigger] rec_piece(r, k) by {
        assert(rec_off(r, 1) == rec_off(r, 0) + h0.len());
        assert(rec_off(r, 2) == rec_off(r, 1) + e1.len());
        assert(rec_off(r, 3) == rec_off(r, 2) + e2.len());
        assert(rec_off(r, 4) == rec_off(r, 3) + e3.len());
        assert(rec_off(r, 5) == rec_off(r, 4) + e4.len());
        assert(rec_off(r, 6) == rec_off(r, 5) + e5.len());
        assert(rec_off(r, 7) == rec_off(r, 6) + e6.len());
        assert(rec_off(r, 8) == rec_off(r, 7) + e7.len());
        assert(rec_off(r, 9) == rec_off(r, 8) + e8.len());
    }
    assert(rec_off(r, 9) == enc_record(r).len());
}

/// The metadata element reads back as the level and target.
#[verifier::spinoff_prover]
proof fn lemma_rec_field_meta(r: RecView, b: Seq<u8>, pos: int)
    requires
        rec_layout(r, b, pos),
        rec_fits(r),
    ensures
        dec_meta(b, pos + rec_off(r, 1)) == Option::Some(
            (r.level, r.target, pos + rec_off(r, 2)),
        ),
{
    let va = ValView::Array(seq![ValView::U64(level_code(r.level)), ValView::Text(r.target)]);
    lemma_enc_pair_array(ValView::U64(level_code(r.level)), ValView::Text(r.target));
    assert(b.subrange(pos + rec_off(r, 1), pos + rec_off(r, 2)) == rec_piece(r, 1));
    assert(rec_off(r, 2) == rec_off(r, 1) + rec_piece(r, 1).len());
    lemma_dec_enc_val(va, b, pos + rec_off(r, 1));
    lemma_level_code_rt(r.level);
}

/// The elapsed element reads back as the seconds and nanoseconds.
#[verifier::spinoff_prover]
proof fn lemma_rec_field_elapsed(r: RecView, b: Seq<u8>, pos: int)
    requires
        rec_layout(r, b, pos),
        rec_wf(r),
    ensures
        dec_elapsed(b, pos + rec_off(r, 2)) == Option::Some(
            (r.elapsed_secs, r.elapsed_nanos, pos + rec_off(r, 3)),
        ),
{
    let ve = ValView::Array(
        seq![ValView::U64(r.elapsed_secs), ValView::U64(r.elapsed_nanos as u64)],
    );
    lemma_enc_pair_array(ValView::U64(r.elapsed_secs), ValView::U64(r.elapsed_nanos as u64));
    assert(b.subrange(pos + rec_off(r, 2), pos + rec_off(r, 3)) == rec_piece(r, 2));
    assert(rec_off(r, 3) == rec_off(r, 2) + rec_piece(r, 2).len());
    lemma_dec_enc_val(ve, b, pos + rec_off(r, 2));
}

/// A text element reads back as its characters.
#[verifier::spinoff_prover]
proof fn lemma_rec_field_text(s: Seq<char>, b: Seq<u8>, pos: int)
    requires
        encode_utf8(s).len() <= u64::MAX,
        0 <= pos,
        pos + enc_text(s).len() <= b.len(),
        b.subrange(pos, pos + enc_text(s).len()) == enc_text(s),
    ensures
        dec_text_val(b, pos) == Option::Some((s, pos + enc_text(s).len())),
{
    lemma_dec_enc_val(ValView::Text(s), b, pos);
}

/// An optional text element reads back as what was put in.
#[verifier::spinoff_prover]
proof fn lemma_rec_field_opt_text(o: Option<Seq<char>>, b: Seq<u8>, pos: int)
    requires
        opt_text_fits(o),
        0 <= pos,
        pos + enc_opt_text(o).len() <= b.len(),
        b.subrange(pos, pos + enc_opt_text(o).len()) == enc_opt_text(o),
    ensures
        dec_opt_text(b, pos) == Option::Some((o, pos + enc_opt_text(o).len())),
{
    crate::codec::lemma_byte_at(b, pos, enc_opt_text(o), 0);
    match o {
        Option::None => {},
        Option::Some(s) => {
            lemma_hdr_not_null(3, encode_utf8(s).len() as u64);
            lemma_dec_enc_val(ValView::Text(s), b, pos);
        },
    }
}

/// The optional line element reads back as what was put in.
#[verifier::spinoff_prover]
proof fn lemma_rec_field_opt_line(o: Option<u32>, b: Seq<u8>, pos: int)
    requires
        0 <= pos,
        pos + enc_opt_line(o).len() <= b.len(),
        b.subrange(pos, pos + enc_opt_line(o).len()) == enc_opt_line(o),
    ensures
        dec_opt_line(b, pos) == Option::Some((o, pos + enc_opt_line(o).len())),
{
    crate::codec::lemma_byte_at(b, pos, enc_opt_line(o), 0);
    match o {
        Option::None => {},
        Option::Some(n) => {
            lemma_hdr_not_null(0, n as u64);
            lemma_dec_enc_val(ValView::U64(n as u64), b, pos);
        },
    }
}

/// The optional mapping element reads back as the normal form of what was
/// put in.
#[verifier::spinoff_prover]
proof fn lemma_rec_field_opt_kv(o: Option<Seq<(Seq<char>, ValView)>>, b: Seq<u8>, pos: int)
    requires
        match o {
            Option::None => true,
            Option::Some(m) => kv_sorted(m) && wf_pairs(m) && m.len() <= u64::MAX,
        },
        0 <= pos,
        pos + enc_opt_kv(o).len() <= b.len(),
        b.subrange(pos, pos + enc_opt_kv(o).len()) == enc_opt_kv(o),
    ensures
        dec_opt_kv(b, pos) == Option::Some(
            (
                match o {
                    Option::None => Option::<Seq<(Seq<char>, ValView)>>::None,
                    Option::Some(m) => Option::Some(norm_pairs(m)),
                },
                pos + enc_opt_kv(o).len(),
            ),
        ),
{
    crate::codec::lemma_byte_at(b, pos, enc_opt_kv(o), 0);
    match o {
        Option::None => {},
        Option::Some(m) => {
            lemma_hdr_not_null(5, m.len() as u64);
            crate::codec::lemma_dec_enc_kv(m, b, pos);
        },
    }
}

/// Run the specification decoder over the specification encoder's bytes
/// for one record: it succeeds, consumes exactly the encoding, and
/// returns the record's normal form.
#[verifier::rlimit(100)]
#[verifier::spinoff_prover]
pub proof fn lemma_dec_enc_record(r: RecView, b: Seq<u8>, pos: int)
    requires
        rec_wf(r),
        rec_fits(r),
        0 <= pos,
        pos + enc_record(r).len() <= b.len(),
        b.subrange(pos, pos + enc_record(r).len()) == enc_record(r),
    ensures
        dec_record(b, pos) == Option::Some((norm_rec(r), pos + enc_record(r).len())),
{
    lemma_rec_layout(r, b, pos);
    crate::codec::lemma_dec_hdr_rt(b, pos, 4, 8);
    assert(b.subrange(pos + rec_off(r, 0), pos + rec_off(r, 1)) == rec_piece(r, 0));
    lemma_rec_field_meta(r, b, pos);
    lemma_rec_field_elapsed(r, b, pos);
    assert(b.subrange(pos + rec_off(r, 3), pos + rec_off(r, 4)) == rec_piece(r, 3));
    lemma_rec_field_text(r.category, b, pos + rec_off(r, 3));
    assert(b.subrange(pos + rec_off(r, 4), pos + rec_off(r, 5)) == rec_piece(r, 4));
    lemma_rec_field_opt_text(r.modpath, b, pos + rec_off(r, 4));
    assert(b.subrange(pos + rec_off(r, 5), pos + rec_off(r, 6)) == rec_piece(r, 5));
    lemma_rec_field_opt_text(r.file, b, pos + rec_off(r, 5));
    assert(b.subrange(pos + rec_off(r, 6), pos + rec_off(r, 7)) == rec_piece(r, 6));
    lemma_rec_field_opt_line(r.line, b, pos + rec_off(r, 6));
    assert(b.subrange(pos + rec_off(r, 7), pos + rec_off(r, 8)) == rec_piece(r, 7));
    lemma_rec_field_text(r.message, b, pos + rec_off(r, 7));
    assert(b.subrange(pos + rec_off(r, 8), pos + rec_off(r, 9)) == rec_piece(r, 8));
    lemma_rec_field_opt_kv(r.kv, b, pos + rec_off(r, 8));
    assert(rec_off(r, 1) == rec_off(r, 0) + rec_piece(r, 0).len());
    assert(dec_record(b, pos) == Option::Some((norm_rec(r), pos + enc_record(r).len())));
}

/// Encode-then-decode law for one record: out of any buffer that starts
/// with the record's encoding, the decoder returns a record that equals
/// the original except that the values in its mapping take their normal
/// form (non-negative signed integers widen to the unsigned variant), and
/// consumes exactly the encoding.
pub proof fn lemma_record_round_trip(r: RecView, tail: Seq<u8>)
    requires
        rec_wf(r),
        rec_fits(r),
    ensures
        dec_record(enc_record(r) + tail, 0) == Option::Some(
            (norm_rec(r), enc_record(r).len() as int),
        ),
{
    let b = enc_record(r) + tail;
    assert(b.subrange(0, enc_record(r).len() as int) =~= enc_record(r));
    lemma_dec_enc_record(r, b, 0);
}

/// Concatenated encodings of a run of records, in order: the shape of a
/// frame payload and of a session's data file.
pub open spec fn enc_records(rs: Seq<RecView>) -> Seq<u8>
    decreases rs,
{
    if rs.len() == 0 {
        Seq::empty()
    } else {
        enc_record(rs[0]) + enc_records(rs.drop_first())
    }
}

/// Normal forms of a run of records, record by record.
pub open spec fn norm_recs(rs: Seq<RecView>) -> Seq<RecView>
    decreases rs,
{
    if rs.len() == 0 {
        Seq::empty()
    } else {
        seq![norm_rec(rs[0])] + norm_recs(rs.drop_first())
    }
}

/// Appending one record appends its encoding to the run's encoding.
pub proof fn lemma_enc_records_push(rs: Seq<RecView>, r: RecView)
    ensures
        enc_records(rs.push(r)) == enc_records(rs) + enc_record(r),
    decreases rs.len(),
{
    if rs.len() == 0 {
        let sp = rs.push(r);
        assert(sp[0] == r);
        assert(sp.drop_first() =~= Seq::<RecView>::empty());
        assert(enc_records(sp) == enc_record(sp[0]) + enc_records(sp.drop_first()));
        assert(enc_records(Seq::<RecView>::empty()) == Seq::<u8>::empty());
        assert(enc_records(rs.push(r)) =~= enc_records(rs) + enc_record(r));
    } else {
        assert(rs.push(r).drop_first() =~= rs.drop_first().push(r));
        assert(rs.push(r)[0] == rs[0]);
        lemma_enc_records_push(rs.drop_first(), r);
        assert(enc_records(rs.push(r)) =~= enc_records(rs) + enc_record(r));
    }
}

/// Every record encoding is at least one byte long.
proof fn lemma_enc_record_min_len(r: RecView)
    ensures
        enc_record(r).len() >= 1,
{
    assert(hdr(4, 8).len() >= 1);
}

/// Run the specification stream decoder over a buffer that ends with the
/// encodings of a run of records at `pos`: the stream is consumed
/// cleanly and yields exactly those records, each in normal form, in
/// their encoding order.
pub proof fn lemma_dec_enc_stream(rs: Seq<RecView>, b: Seq<u8>, pos: int)
    requires
        forall|i: int| 0 <= i < rs.len() ==> rec_wf(#[trigger] rs[i]) && rec_fits(rs[i]),
        0 <= pos,
        pos + enc_records(rs).len() == b.len(),
        b.subrange(pos, b.len() as int) == enc_records(rs),
    ensures
        dec_stream(b, pos) == (norm_recs(rs), true),
    decreases rs,
{
    if rs.len() == 0 {
        assert(norm_recs(rs) =~= Seq::<RecView>::empty());
    } else {
        let e0 = enc_record(rs[0]);
        let rest = enc_records(rs.drop_first());
        assert(enc_records(rs) == e0 + rest);
        crate::codec::lemma_subrange_split(b, pos, e0, rest);
        lemma_enc_record_min_len(rs[0]);
        lemma_dec_enc_record(rs[0], b, pos);
        let p2 = pos + e0.len();
        assert(forall|i: int|
            0 <= i < rs.drop_first().len() ==> rec_wf(#[trigger] rs.drop_first()[i]) && rec_fits(
                rs.drop_first()[i],
            )) by {
            assert(forall|i: int|
                0 <= i < rs.drop_first().len() ==> #[trigger] rs.drop_first()[i] == rs[i + 1]);
        }
        assert(b.subrange(p2, b.len() as int) == rest);
        lemma_dec_enc_stream(rs.drop_first(), b, p2);
        assert(dec_stream(b, pos).0 =~= norm_recs(rs));
    }
}

/// A frame payload or session file that is the concatenation of record
/// encodings decodes, as a stream, to exactly those records in order,
/// each in its normal form, and is consumed cleanly: the decoded
/// contents of any one session are exactly that session's submitted
/// records, with nothing reordered, lost, duplicated, or taken from
/// another session's stream.
pub proof fn lemma_frame_round_trip(rs: Seq<RecView>)
    requires
        forall|i: int| 0 <= i < rs.len() ==> rec_wf(#[trigger] rs[i]) && rec_fits(rs[i]),
    ensures
        dec_stream(enc_records(rs), 0) == (norm_recs(rs), true),
{
    let b = enc_records(rs);
    assert(b.subrange(0, b.len() as int) =~= b);
    lemma_dec_enc_stream(rs, b, 0);
}

} // verus!
