//! The client side of the pipeline: the staging facade that encodes
//! records into the double buffer, and the builder of its configuration.
//!
//! A ghost history ties the pieces together: `submitted` is the
//! concatenation of the encodings of every record the buffer accepted, in
//! submission order; `sent` is the prefix of it the transport has drained
//! so far. Every byte of `submitted` is either already in `sent` or still
//! pending in the write side - nothing is lost and nothing is duplicated.

use vstd::prelude::*;

verus! {

use crate::buffer::SwapBuffer;
use crate::record::dec_stream;
use crate::record::enc_record;
use crate::record::enc_records;
use crate::record::encode_record;
use crate::record::lemma_enc_records_push;
use crate::record::lemma_frame_round_trip;
use crate::record::norm_recs;
use crate::record::rec_fits;
use crate::record::rec_wf;
use crate::record::RecView;
use crate::record::Record;
use crate::Error;

/// Default collector port.
pub const WS_DEFAULT_PORT: u16 = 8040;

/// Default capacity of each half of the double buffer.
pub const DEFAULT_BUFFER_SIZE: usize = 2 * 1024 * 1024;

/// Default transport tick period in milliseconds.
pub const DEFAULT_SWAP_DURATION_MILLIS: u64 = 500;

/// The staging facade handed to the process: records are encoded straight
/// into the write side of the double buffer; the transport drains whole
/// batches out of the read side with `tick`.
pub struct LogClient {
    pub buf: SwapBuffer,
    pub dropped: u64,
    pub sent: Ghost<Seq<u8>>,
    pub submitted: Ghost<Seq<u8>>,
    pub accepted: Ghost<Seq<RecView>>,
    pub attempts: Ghost<int>,
}

impl LogClient {
    /// The buffer is well-formed and its read side is drained between
    /// ticks. This much is checkable at run time.
    pub open spec fn buf_wf(&self) -> bool {
        &&& self.buf.wf()
        &&& self.buf.residual() == Seq::<u8>::empty()
    }

    /// Well-formed: the buffer in shape; the accepted bytes split
    /// exactly into the delivered prefix and the pending tail; the
    /// accepted bytes are exactly the encodings of the accepted records
    /// in submission order; and the drop counter equals the number of
    /// submissions that were not accepted (saturating at its maximum).
    pub open spec fn wf(&self) -> bool {
        &&& self.buf_wf()
        &&& self.submitted@ == self.sent@ + self.buf.pending()
        &&& self.submitted@ == enc_records(self.accepted@)
        &&& self.attempts@ >= self.accepted@.len()
        &&& self.dropped == (if self.attempts@ - self.accepted@.len() <= u64::MAX {
            self.attempts@ - self.accepted@.len()
        } else {
            u64::MAX as int
        })
    }

    /// The encodings of every record accepted so far, in submission
    /// order.
    pub open spec fn submitted_bytes(&self) -> Seq<u8> {
        self.submitted@
    }

    /// The bytes the transport has drained so far.
    pub open spec fn sent_bytes(&self) -> Seq<u8> {
        self.sent@
    }

    /// The bytes accepted but not yet drained.
    pub open spec fn pending_bytes(&self) -> Seq<u8> {
        self.buf.pending()
    }

    /// A fresh facade over a double buffer of the given capacity.
    pub fn new(buffer_size: usize) -> (r: LogClient)
        ensures
            r.wf(),
            r.buf.cap() == buffer_size,
            r.dropped == 0,
            r.submitted_bytes() =~= Seq::<u8>::empty(),
            r.sent_bytes() =~= Seq::<u8>::empty(),
    {
        let buf = SwapBuffer::new(buffer_size);
        let r = LogClient {
            buf,
            dropped: 0,
            sent: Ghost(Seq::empty()),
            submitted: Ghost(Seq::empty()),
            accepted: Ghost(Seq::empty()),
            attempts: Ghost(0),
        };
        proof {
            assert(r.submitted@ =~= r.sent@ + r.buf.pending());
            assert(enc_records(Seq::<RecView>::empty()) == Seq::<u8>::empty());
        }
        r
    }

    /// Every record the pipeline accepts is appended whole; one that does
    /// not fit in the write side's spare capacity is dropped whole and
    /// counted, never split. In particular a record whose encoding
    /// exceeds the buffer capacity is always dropped.
    pub fn log_record(&mut self, record: &Record) -> (accepted: bool)
        requires
            old(self).buf_wf(),
        ensures
            final(self).buf_wf(),
            old(self).wf() ==> final(self).wf(),
            final(self).buf.cap() == old(self).buf.cap(),
            final(self).sent_bytes() == old(self).sent_bytes(),
            accepted == (enc_record(record@).len() <= old(self).buf.cap() - old(self).pending_bytes().len()),
            accepted ==> final(self).submitted_bytes() == old(self).submitted_bytes()
                + enc_record(record@) && final(self).dropped == old(self).dropped
                && final(self).accepted@ == old(self).accepted@.push(record@),
            !accepted ==> final(self).submitted_bytes() == old(self).submitted_bytes() && final(self).dropped == (if old(self).dropped < u64::MAX {
                old(self).dropped + 1
            } else {
                old(self).dropped as int
            }) && final(self).accepted@ == old(self).accepted@,
            final(self).attempts@ == old(self).attempts@ + 1,
            final(self).sent == old(self).sent,
    {
        let mut scratch: Vec<u8> = Vec::new();
        encode_record(record, &mut scratch);
        proof {
            assert(Seq::<u8>::empty() + enc_record(record@) =~= enc_record(record@));
        }
        match self.buf.write(scratch.as_slice()) {
            Result::Ok(_) => {
                proof {
                    self.submitted@ = self.submitted@ + enc_record(record@);
                    self.accepted@ = self.accepted@.push(record@);
                    self.attempts@ = self.attempts@ + 1;
                    if old(self).wf() {
                        assert(self.submitted@ =~= self.sent@ + self.buf.pending());
                        lemma_enc_records_push(old(self).accepted@, record@);
                    }
                }
                true
            },
            Result::Err(_) => {
                if self.dropped < u64::MAX {
                    self.dropped = self.dropped + 1;
                }
                proof {
                    self.attempts@ = self.attempts@ + 1;
                }
                false
            },
        }
    }

    /// One transport tick: swaps the buffer and drains everything that
    /// was pending into one frame payload. The payload is exactly the
    /// bytes accepted since the previous tick, in submission order; a
    /// tick with nothing pending returns an empty payload and leaves the
    /// facade clean.
    pub fn tick(&mut self) -> (payload: Vec<u8>)
        requires
            old(self).buf_wf(),
        ensures
            final(self).buf_wf(),
            old(self).wf() ==> final(self).wf(),
            final(self).buf.cap() == old(self).buf.cap(),
            final(self).dropped == old(self).dropped,
            payload@ == old(self).pending_bytes(),
            final(self).pending_bytes() =~= Seq::<u8>::empty(),
            final(self).sent_bytes() == old(self).sent_bytes() + payload@,
            final(self).submitted_bytes() == old(self).submitted_bytes(),
            final(self).accepted == old(self).accepted,
            final(self).attempts == old(self).attempts,
    {
        self.buf.swap();
        let mut payload: Vec<u8> = Vec::new();
        self.buf.read_to_end(&mut payload);
        proof {
            assert(payload@ =~= old(self).pending_bytes());
            self.sent@ = self.sent@ + payload@;
            if old(self).wf() {
                assert(self.submitted@ =~= self.sent@ + self.buf.pending());
            }
        }
        payload
    }

    /// How many records were dropped for want of spare capacity.
    pub fn dropped_count(&self) -> (n: u64)
        ensures
            n == self.dropped,
    {
        self.dropped
    }
}

/// What the transport has delivered is always a prefix of what was
/// submitted: for any interleaving of accepted writes and ticks, no byte
/// is delivered out of order, twice, or ahead of its submission.
pub proof fn lemma_sent_is_prefix_of_submitted(c: &LogClient)
    requires
        c.wf(),
    ensures
        c.sent_bytes() == c.submitted_bytes().subrange(0, c.sent_bytes().len() as int),
        c.submitted_bytes() == c.sent_bytes() + c.pending_bytes(),
{
    assert(c.sent_bytes() =~= c.submitted_bytes().subrange(0, c.sent_bytes().len() as int));
}

/// Overflow accounting: however many submissions a facade has seen, the
/// delivered-plus-pending bytes are exactly the encodings of the
/// accepted records in submission order, and the drop counter equals the
/// number of submissions that did not fit (saturating at its maximum).
pub proof fn lemma_drop_accounting(c: &LogClient)
    requires
        c.wf(),
    ensures
        c.submitted_bytes() == enc_records(c.accepted@),
        c.attempts@ >= c.accepted@.len(),
        c.dropped == (if c.attempts@ - c.accepted@.len() <= u64::MAX {
            c.attempts@ - c.accepted@.len()
        } else {
            u64::MAX as int
        }),
{
}

/// Decoding everything a facade has accepted yields exactly the accepted
/// records in submission order, each in its normal form, and consumes
/// the bytes cleanly. The hypothesis asks only what holds of every
/// record the facade itself builds: sub-second nanoseconds, sorted keys,
/// and in-memory sizes.
pub proof fn lemma_delivered_records(c: &LogClient)
    requires
        c.wf(),
        forall|i: int|
            0 <= i < c.accepted@.len() ==> rec_wf(#[trigger] c.accepted@[i]) && rec_fits(
                c.accepted@[i],
            ),
    ensures
        dec_stream(c.submitted_bytes(), 0) == (norm_recs(c.accepted@), true),
{
    lemma_frame_round_trip(c.accepted@);
}

/// The wait before the next transport tick: the tick period less what
/// this iteration already took, floored at zero.
pub fn next_tick_wait(tick_millis: u64, elapsed_millis: u64) -> (r: u64)
    ensures
        r == if elapsed_millis < tick_millis {
            tick_millis - elapsed_millis
        } else {
            0int
        },
{
    if elapsed_millis < tick_millis {
        tick_millis - elapsed_millis
    } else {
        0
    }
}

/// The URL of the collector endpoint.
pub open spec fn url_chars(secure: bool, host: Seq<char>, port: u16) -> Seq<char> {
    (if secure {
        "wss://"@
    } else {
        "ws://"@
    }) + host + ":"@ + crate::text::dec_digits(port as int) + "/"@
}

/// Configuration of the logging facade: collector endpoint, buffer
/// capacity and transport tick period.
#[derive(Debug)]
pub struct Builder {
    pub secure_connection: bool,
    pub host: String,
    pub port: u16,
    pub swap_buffer_size: usize,
    pub swap_duration_millis: u64,
}

impl Builder {
    /// Sets the swap buffer size: the capacity of each half of the
    /// double buffer, so twice this amount is reserved in all.
    pub fn buffer_size(self, size: usize) -> (r: Builder)
        ensures
            r == (Builder { swap_buffer_size: size, ..self }),
    {
        Builder { swap_buffer_size: size, ..self }
    }

    /// Sets the transport tick period, in milliseconds.
    pub fn duration(self, millis: u64) -> (r: Builder)
        ensures
            r == (Builder { swap_duration_millis: millis, ..self }),
    {
        Builder { swap_duration_millis: millis, ..self }
    }

    /// Sets the collector host name.
    pub fn host(self, host: String) -> (r: Builder)
        ensures
            r == (Builder { host: host, ..self }),
    {
        Builder { host, ..self }
    }

    /// Sets the collector port.
    pub fn port(self, port: u16) -> (r: Builder)
        ensures
            r == (Builder { port: port, ..self }),
    {
        Builder { port, ..self }
    }

    /// The collector endpoint this configuration points at.
    pub fn url(&self) -> (r: String)
        ensures
            r@ == url_chars(self.secure_connection, self.host@, self.port),
    {
        let mut out = String::new();
        if self.secure_connection {
            out.append("wss://");
        } else {
            out.append("ws://");
        }
        out.append(self.host.as_str());
        out.append(":");
        crate::text::push_dec(self.port as u64, &mut out);
        out.append("/");
        proof {
            assert(out@ =~= url_chars(self.secure_connection, self.host@, self.port));
        }
        out
    }

    /// Builds the facade: a fresh staging client of the configured
    /// capacity, and the endpoint the transport should connect to.
    pub fn build(self) -> (r: (LogClient, String))
        ensures
            r.0.wf(),
            r.0.buf.cap() == self.swap_buffer_size,
            r.0.dropped == 0,
            r.0.submitted_bytes() =~= Seq::<u8>::empty(),
            r.0.sent_bytes() =~= Seq::<u8>::empty(),
            r.1@ == url_chars(self.secure_connection, self.host@, self.port),
    {
        let url = self.url();
        (LogClient::new(self.swap_buffer_size), url)
    }
}

impl Default for Builder {
    /// The default configuration: plain connection to localhost on the
    /// default port, two-mebibyte buffer halves, half-second ticks.
    fn default() -> (r: Builder)
        ensures
            !r.secure_connection,
            r.host@ == "localhost"@,
            r.port == WS_DEFAULT_PORT,
            r.swap_buffer_size == DEFAULT_BUFFER_SIZE,
            r.swap_duration_millis == DEFAULT_SWAP_DURATION_MILLIS,
    {
        Builder {
            secure_connection: false,
            host: String::from_str("localhost"),
            port: WS_DEFAULT_PORT,
            swap_buffer_size: DEFAULT_BUFFER_SIZE,
            swap_duration_millis: DEFAULT_SWAP_DURATION_MILLIS,
        }
    }
}

} // verus!
