//! Server-side storage: one directory per session, one append-only
//! `seqdata` file per directory holding the concatenated record
//! encodings in submission order.
//!
//! The path arithmetic, the session writer's buffering, and the naming of
//! fresh sessions are verified here; opening, writing and enumerating the
//! actual files is the surrounding application's work, fed by the plain
//! strings and byte batches this module hands out.

use vstd::prelude::*;

verus! {

use crate::record::enc_record;
use crate::record::encode_record;
use crate::record::Record;
use crate::record::dec_stream;
use crate::record::decode_frame;
use crate::record::recs_view;
use crate::text::digit_char;

/// The fixed name of a session's data file.
pub open spec fn seqdata_name() -> Seq<char> {
    "seqdata"@
}

/// Manages the layout of stored sessions under one root directory.
#[derive(Debug)]
pub struct Storage {
    pub dir: String,
}

impl Storage {
    /// A storage rooted at the given directory. The directory itself is
    /// created by the caller.
    pub fn new(root_dir: &str) -> (r: Storage)
        ensures
            r.dir@ == root_dir@,
    {
        Storage { dir: root_dir.to_owned() }
    }

    /// The directory of the session with the given name.
    pub fn session_dir(&self, name: &str) -> (r: String)
        ensures
            r@ == self.dir@ + "/"@ + name@,
    {
        let mut out = String::new();
        out.append(self.dir.as_str());
        out.append("/");
        out.append(name);
        proof {
            assert(out@ =~= self.dir@ + "/"@ + name@);
        }
        out
    }

    /// A fresh session writer anchored in this storage's directory for
    /// the given name. The caller creates the directory.
    pub fn create_session(&self, name: &str) -> (s: Session)
        ensures
            s.dirpath@ == self.dir@ + "/"@ + name@,
            s.pushed_bytes() =~= Seq::<u8>::empty(),
            s.flushed_bytes() =~= Seq::<u8>::empty(),
    {
        Session::new(self.session_dir(name))
    }
}

/// The writer of one session's append-only data file: buffers complete
/// record encodings; the caller appends each flushed batch to the file,
/// in order.
pub struct Session {
    pub dirpath: String,
    pub pending: Vec<u8>,
    pub flushed: Ghost<Seq<u8>>,
}

impl Session {
    /// The bytes handed to the caller for appending so far.
    pub open spec fn flushed_bytes(&self) -> Seq<u8> {
        self.flushed@
    }

    /// Every byte pushed so far: the flushed prefix plus the pending
    /// tail.
    pub open spec fn pushed_bytes(&self) -> Seq<u8> {
        self.flushed@ + self.pending@
    }

    /// A fresh writer for the given session directory.
    pub fn new(dirpath: String) -> (s: Session)
        ensures
            s.dirpath == dirpath,
            s.pushed_bytes() =~= Seq::<u8>::empty(),
            s.flushed_bytes() =~= Seq::<u8>::empty(),
    {
        Session { dirpath, pending: Vec::new(), flushed: Ghost(Seq::empty()) }
    }

    /// The path of this session's data file.
    pub fn data_path(&self) -> (r: String)
        ensures
            r@ == self.dirpath@ + "/"@ + seqdata_name(),
    {
        let mut out = String::new();
        out.append(self.dirpath.as_str());
        out.append("/");
        out.append("seqdata");
        proof {
            assert(out@ =~= self.dirpath@ + "/"@ + seqdata_name());
        }
        out
    }

    /// Appends one record's encoding to the buffer, whole.
    pub fn push(&mut self, record: &Record) -> (r: Result<(), crate::Error>)
        ensures
            r is Ok,
            final(self).dirpath == old(self).dirpath,
            final(self).flushed_bytes() == old(self).flushed_bytes(),
            final(self).pushed_bytes() == old(self).pushed_bytes() + enc_record(record@),
    {
        encode_record(record, &mut self.pending);
        proof {
            assert(self.flushed@ + self.pending@ =~= (old(self).flushed@ + old(self).pending@)
                + enc_record(record@));
        }
        Result::Ok(())
    }

    /// Takes the buffered bytes for appending to the data file; the
    /// caller writes them at the end of the file, in the order taken.
    pub fn take_pending(&mut self) -> (batch: Vec<u8>)
        ensures
            final(self).dirpath == old(self).dirpath,
            batch@ == old(self).pending@,
            final(self).pending@ =~= Seq::<u8>::empty(),
            final(self).flushed_bytes() == old(self).flushed_bytes() + batch@,
            final(self).pushed_bytes() == old(self).pushed_bytes(),
    {
        let mut batch: Vec<u8> = Vec::new();
        core::mem::swap(&mut batch, &mut self.pending);
        proof {
            self.flushed@ = self.flushed@ + batch@;
            assert(self.flushed@ + self.pending@ =~= old(self).flushed@ + old(self).pending@);
        }
        batch
    }
}

/// Distinct session names land in distinct directories of one storage
/// root: two live sessions never share a data file, so records of one
/// session cannot appear in the other's.
pub proof fn lemma_distinct_sessions(dir: Seq<char>, n1: Seq<char>, n2: Seq<char>)
    requires
        n1 != n2,
    ensures
        dir + "/"@ + n1 != dir + "/"@ + n2,
{
    let p1 = dir + "/"@ + n1;
    let p2 = dir + "/"@ + n2;
    if p1 == p2 {
        let pre = dir.len() + "/"@.len();
        assert(p1.len() == pre + n1.len());
        assert(p2.len() == pre + n2.len());
        assert(n1.len() == n2.len());
        assert forall|i: int| 0 <= i < n1.len() implies n1[i] == n2[i] by {
            assert(p1[pre + i] == n1[i]);
            assert(p2[pre + i] == n2[i]);
        }
        assert(n1 =~= n2);
    }
}

/// What reached the file is always a prefix of what was pushed, in push
/// order: the on-disk byte sequence of a session is a prefix of the
/// concatenated encodings of its submitted records.
pub proof fn lemma_flushed_is_prefix_of_pushed(s: &Session)
    ensures
        s.flushed_bytes() == s.pushed_bytes().subrange(0, s.flushed_bytes().len() as int),
{
    assert(s.flushed_bytes() =~= s.pushed_bytes().subrange(0, s.flushed_bytes().len() as int));
}

/// Descriptor of one stored session: its directory name, its path, and
/// filesystem timestamps as seconds since the epoch.
#[derive(Debug, PartialEq)]
pub struct SessionInfo {
    pub name: String,
    pub path: String,
    pub created_secs: i64,
    pub updated_secs: i64,
}

impl SessionInfo {
    /// A descriptor from the values the caller read off the filesystem.
    pub fn new(name: String, path: String, created_secs: i64, updated_secs: i64) -> (r:
        SessionInfo)
        ensures
            r.name == name,
            r.path == path,
            r.created_secs == created_secs,
            r.updated_secs == updated_secs,
    {
        SessionInfo { name, path, created_secs, updated_secs }
    }

    /// The session's directory path.
    pub fn path(&self) -> (r: &str)
        ensures
            r@ == self.path@,
    {
        self.path.as_str()
    }

    /// When the session directory was created.
    pub fn created_at(&self) -> (r: i64)
        ensures
            r == self.created_secs,
    {
        self.created_secs
    }

    /// The path of the session's data file, for the caller to open.
    pub fn filepath(&self) -> (r: String)
        ensures
            r@ == self.path@ + "/"@ + seqdata_name(),
    {
        let mut out = String::new();
        out.append(self.path.as_str());
        out.append("/");
        out.append("seqdata");
        proof {
            assert(out@ =~= self.path@ + "/"@ + seqdata_name());
        }
        out
    }
}

/// The root of the read-query layer: holds the storage the queries run
/// against.
#[derive(Debug)]
pub struct Query {
    pub storage: Storage,
}

impl Query {
    /// A query root over the given storage.
    pub fn new(storage: Storage) -> (r: Query)
        ensures
            r.storage == storage,
    {
        Query { storage }
    }
}

/// Reads a window out of a session's decoded record stream: of the
/// records the stream yields, those from `index` on, at most `len` of
/// them.
pub fn read_at(b: &Vec<u8>, index: usize, len: usize) -> (r: Vec<Record>)
    ensures
        ({
            let full = dec_stream(b@, 0).0;
            let lo = if index <= full.len() {
                index as int
            } else {
                full.len() as int
            };
            let hi = if index + len <= full.len() {
                index + len
            } else {
                full.len() as int
            };
            recs_view(r@) == full.subrange(lo, hi)
        }),
{
    let ghost full = dec_stream(b@, 0).0;
    let (mut all, _ok) = decode_frame(b);
    let total = all.len();
    let mut out: Vec<Record> = Vec::new();
    let mut j: usize = 0;
    proof {
        assert(recs_view(all@) == full);
        assert(recs_view(out@) =~= full.subrange(0, 0));
    }
    while j < total
        invariant
            j <= total,
            total == full.len(),
            all@.len() == total - j,
            forall|k: int| 0 <= k < all@.len() ==> recs_view(all@)[k] == full[j + k],
            recs_view(out@) =~= full.subrange(
                if index <= j {
                    index as int
                } else {
                    j as int
                },
                if index + len <= j {
                    index + len
                } else {
                    j as int
                },
            ),
        decreases total - j,
    {
        let ghost pre_out = out@;
        let ghost pre_all = all@;
        let rec = all.remove(0);
        proof {
            assert(rec == pre_all[0]);
            assert forall|k: int| 0 <= k < all@.len() implies recs_view(all@)[k] == full[j + 1 + k]
                by {
                assert(all@[k] == pre_all[k + 1]);
                assert(recs_view(pre_all)[k + 1] == full[j + k + 1]);
            }
            assert(rec@ == recs_view(pre_all)[0]);
        }
        if j >= index && j - index < len {
            out.push(rec);
            proof {
                assert(recs_view(pre_out.push(rec)) =~= recs_view(pre_out) + seq![rec@]);
                assert(rec@ == full[j as int]);
                assert(recs_view(out@) =~= full.subrange(
                    index as int,
                    if index + len <= j + 1 {
                        index + len
                    } else {
                        (j + 1) as int
                    },
                ));
            }
        } else {
            proof {
                assert(recs_view(out@) =~= full.subrange(
                    if index <= j + 1 {
                        index as int
                    } else {
                        (j + 1) as int
                    },
                    if index + len <= j + 1 {
                        index + len
                    } else {
                        (j + 1) as int
                    },
                ));
            }
        }
        j = j + 1;
    }
    out
}

// ---------------------------------------------------------------------
// Session naming
// ---------------------------------------------------------------------

/// Relies on `uuid::Uuid::new_v4` and `Uuid::into_bytes`: sixteen bytes
/// of a fresh random identifier. Nothing is promised of their values.
/// `new_v4` aborts if the operating system's random source fails; that
/// is an environment fault, not dependent on any input of this library.
#[verifier::external_body]
fn fresh_id_bytes() -> (r: Vec<u8>)
    ensures
        r@.len() == 16,
{
    uuid::Uuid::new_v4().into_bytes().to_vec()
}

/// The character of one lowercase hexadecimal digit.
pub open spec fn hex_char(d: int) -> char
    recommends
        0 <= d < 16,
{
    if d < 10 {
        digit_char(d)
    } else {
        ((87 + d) as u8) as char
    }
}

/// The two hexadecimal digits of one byte.
pub open spec fn hex_byte(b: u8) -> Seq<char> {
    seq![hex_char((b >> 4) as int), hex_char((b & 0xf) as int)]
}

/// Lowercase hexadecimal rendering of a byte sequence.
pub open spec fn hex_of(bs: Seq<u8>) -> Seq<char>
    decreases bs,
{
    if bs.len() == 0 {
        Seq::empty()
    } else {
        hex_byte(bs[0]) + hex_of(bs.drop_first())
    }
}

/// The canonical hyphenated text form of a sixteen-byte identifier.
pub open spec fn hyphenated(bs: Seq<u8>) -> Seq<char>
    recommends
        bs.len() == 16,
{
    hex_of(bs.subrange(0, 4)) + seq!['-'] + hex_of(bs.subrange(4, 6)) + seq!['-'] + hex_of(
        bs.subrange(6, 8),
    ) + seq!['-'] + hex_of(bs.subrange(8, 10)) + seq!['-'] + hex_of(bs.subrange(10, 16))
}

/// Hexadecimal renderings are two characters per byte.
pub proof fn lemma_hex_len(bs: Seq<u8>)
    ensures
        hex_of(bs).len() == 2 * bs.len(),
    decreases bs,
{
    if bs.len() > 0 {
        lemma_hex_len(bs.drop_first());
    }
}

/// Appends one hexadecimal digit character.
pub fn push_hex_digit(d: u8, out: &mut String)
    requires
        d < 16,
    ensures
        final(out)@ == old(out)@ + seq![hex_char(d as int)],
{
    if d < 10 {
        crate::text::push_dec(d as u64, out);
    } else {
        let s = match d {
            10 => "a",
            11 => "b",
            12 => "c",
            13 => "d",
            14 => "e",
            _ => "f",
        };
        proof {
            reveal_strlit("a");
            reveal_strlit("b");
            reveal_strlit("c");
            reveal_strlit("d");
            reveal_strlit("e");
            reveal_strlit("f");
            assert(s@ =~= seq![hex_char(d as int)]);
        }
        out.append(s);
    }
}

/// Appends the hexadecimal rendering of a range of bytes.
fn push_hex_range(bs: &Vec<u8>, from: usize, to: usize, out: &mut String)
    requires
        from <= to <= bs@.len(),
    ensures
        final(out)@ == old(out)@ + hex_of(bs@.subrange(from as int, to as int)),
    decreases to - from,
{
    if from >= to {
        proof {
            assert(bs@.subrange(from as int, to as int) =~= Seq::<u8>::empty());
            assert(old(out)@ + hex_of(Seq::<u8>::empty()) =~= old(out)@);
        }
        return ;
    }
    let b = bs[from];
    proof {
        assert(b >> 4 < 16 && b & 0xf < 16) by (bit_vector);
    }
    push_hex_digit(b >> 4, out);
    push_hex_digit(b & 0xf, out);
    push_hex_range(bs, from + 1, to, out);
    proof {
        let sub = bs@.subrange(from as int, to as int);
        assert(sub[0] == bs@[from as int]);
        assert(sub.drop_first() =~= bs@.subrange(from as int + 1, to as int));
        assert(old(out)@ + hex_of(sub) =~= old(out)@ + hex_byte(bs@[from as int]) + hex_of(
            bs@.subrange(from as int + 1, to as int),
        ));
    }
}

/// The canonical hyphenated text of a sixteen-byte identifier.
pub fn hyphenated_name(bs: &Vec<u8>) -> (r: String)
    requires
        bs@.len() == 16,
    ensures
        r@ == hyphenated(bs@),
        r@.len() == 36,
{
    let mut out = String::new();
    push_hex_range(bs, 0, 4, &mut out);
    out.append("-");
    push_hex_range(bs, 4, 6, &mut out);
    out.append("-");
    push_hex_range(bs, 6, 8, &mut out);
    out.append("-");
    push_hex_range(bs, 8, 10, &mut out);
    out.append("-");
    push_hex_range(bs, 10, 16, &mut out);
    proof {
        reveal_strlit("-");
        assert("-"@ =~= seq!['-']);
        assert(out@ =~= hyphenated(bs@));
        lemma_hex_len(bs@.subrange(0, 4));
        lemma_hex_len(bs@.subrange(4, 6));
        lemma_hex_len(bs@.subrange(6, 8));
        lemma_hex_len(bs@.subrange(8, 10));
        lemma_hex_len(bs@.subrange(10, 16));
    }
    out
}

/// A fresh collision-free session name: a random 128-bit identifier in
/// its canonical hyphenated form. Whatever the sixteen bytes turn out to
/// be, the name is their hyphenated rendering.
pub fn fresh_session_name() -> (r: String)
    ensures
        exists|bs: Seq<u8>| bs.len() == 16 && r@ == hyphenated(bs),
        r@.len() == 36,
{
    let id = fresh_id_bytes();
    let name = hyphenated_name(&id);
    proof {
        assert(id@.len() == 16 && name@ == hyphenated(id@));
    }
    name
}

} // verus!
