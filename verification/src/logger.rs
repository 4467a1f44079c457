//! The process-global logging facade.
//!
//! The global state starts as a no-op sink, so logging before
//! initialization is safe and free. Installation succeeds exactly once:
//! every further attempt fails with the install error and leaves the
//! installed logger untouched. The facade stamps each record with the
//! session clock under its lock and keeps the stamps non-decreasing in
//! call order, whatever the clock returns.

use vstd::prelude::*;

verus! {

use crate::client::Builder;
use crate::client::LogClient;
use crate::kv::KV;
use crate::record::enc_record;
use crate::record::Level;
use crate::record::Metadata;
use crate::record::RecView;
use crate::record::Record;
use crate::session::SessionClock;

/// The second attempt to install the global logger.
#[derive(Debug, PartialEq, Eq, Structural)]
pub struct SetLoggerError;

/// The abstract sink capability: what the facade asks of a logger.
pub trait Log {
    /// Whether records with this metadata are wanted.
    fn enabled(&self, metadata: &Metadata) -> bool;

    /// Accepts one record.
    fn log(&mut self, record: &Record);

    /// Pushes whatever is buffered towards its destination.
    fn flush(&mut self);
}

/// The sink that swallows everything: the default before installation.
pub struct NopLogger;

impl Log for NopLogger {
    fn enabled(&self, _metadata: &Metadata) -> bool {
        false
    }

    fn log(&mut self, _record: &Record) {
    }

    fn flush(&mut self) {
    }
}

impl Log for LogClient {
    fn enabled(&self, _metadata: &Metadata) -> bool {
        true
    }

    fn log(&mut self, record: &Record) {
        if self.wf_check() {
            let _ = self.log_record(record);
        }
    }

    fn flush(&mut self) {
        if self.wf_check() {
            let _ = self.tick();
        }
    }
}

impl LogClient {
    /// The shape of a facade is not visible through the plain sink
    /// interface, so an implementation of it re-checks at run time.
    pub fn wf_check(&self) -> (r: bool)
        ensures
            r == self.buf_wf(),
    {
        let cursor_ok = self.buf.read.read_cursor == self.buf.read.buf.len();
        let cap_ok = self.buf.write.buf.len() <= self.buf.write.capacity && self.buf.write.capacity
            == self.buf.capacity;
        proof {
            if cursor_ok {
                assert(self.buf.residual() =~= Seq::<u8>::empty());
            }
            if self.buf.residual() == Seq::<u8>::empty() {
                assert(self.buf.residual().len() == 0);
            }
        }
        cursor_ok && cap_ok
    }
}

/// The whole process-global logging state: the session clock, the
/// installed sink (none before initialization), the endpoint the
/// transport should reach, and the monotonic stamp of the last record.
pub struct GlobalLogger {
    pub clock: Option<SessionClock>,
    pub client: Option<LogClient>,
    pub url: Option<String>,
    pub last_secs: u64,
    pub last_nanos: u32,
}

/// The monotonic stamp: the clock reading, unless the previous stamp is
/// later.
pub open spec fn stamp_after(ls: u64, ln: u32, ns: u64, nn: u32) -> (u64, u32) {
    if ns > ls || (ns == ls && nn >= ln) {
        (ns, nn)
    } else {
        (ls, ln)
    }
}

/// The record the facade builds from one call, stamped with the given
/// elapsed time.
pub open spec fn facade_rec(
    level: Level,
    target: Seq<char>,
    category: Seq<char>,
    message: Seq<char>,
    modpath: Seq<char>,
    file: Seq<char>,
    line: u32,
    kv: Option<Seq<(Seq<char>, crate::kv::ValView)>>,
    secs: u64,
    nanos: u32,
) -> RecView {
    RecView {
        level,
        target,
        elapsed_secs: secs,
        elapsed_nanos: nanos,
        category,
        modpath: Option::Some(modpath),
        file: Option::Some(file),
        line: Option::Some(line),
        message,
        kv,
    }
}

impl GlobalLogger {
    /// The clock exists from the first initialization on; an installed
    /// client is well-formed; the last stamp is a valid elapsed time.
    pub open spec fn wf(&self) -> bool {
        &&& match self.client {
            Option::None => true,
            Option::Some(c) => c.wf() && self.clock is Some,
        }
        &&& match self.clock {
            Option::None => true,
            Option::Some(k) => k.wf(),
        }
        &&& self.last_nanos < 1_000_000_000
    }

    /// The model of the installed client's ghost history, empty before
    /// installation.
    pub open spec fn submitted_bytes(&self) -> Seq<u8> {
        match self.client {
            Option::None => Seq::empty(),
            Option::Some(c) => c.submitted_bytes(),
        }
    }

    /// The state every process starts in: no clock, the no-op sink, no
    /// endpoint, and a zero stamp baseline.
    pub fn new() -> (r: GlobalLogger)
        ensures
            r.wf(),
            r.client is None,
            r.clock is None,
            r.url is None,
            r.last_secs == 0,
            r.last_nanos == 0,
    {
        GlobalLogger { clock: None, client: None, url: None, last_secs: 0, last_nanos: 0 }
    }

    /// Initializes the session clock if this is the first call; further
    /// calls change nothing. No sink is installed and nothing else of
    /// the state moves.
    pub fn init_noop(&mut self)
        requires
            old(self).wf(),
        ensures
            final(self).wf(),
            final(self).clock is Some,
            final(self).client == old(self).client,
            final(self).url == old(self).url,
            final(self).last_secs == old(self).last_secs,
            final(self).last_nanos == old(self).last_nanos,
            old(self).clock is Some ==> *final(self) == *old(self),
    {
        if self.clock.is_none() {
            self.clock = Some(SessionClock::session_init());
        }
    }

    /// Installs the given sink and endpoint. The first call succeeds;
    /// every further call fails with the install error and leaves the
    /// already-installed logger untouched.
    pub fn install(&mut self, client: LogClient, url: String) -> (r: Result<(), SetLoggerError>)
        requires
            old(self).wf(),
            client.wf(),
        ensures
            final(self).wf(),
            old(self).client is Some ==> r == Result::<(), SetLoggerError>::Err(SetLoggerError)
                && *final(self) == *old(self),
            old(self).client is None ==> r == Result::<(), SetLoggerError>::Ok(()) && final(self).client == Option::Some(client) && final(self).clock is Some && final(self).url
                == Option::Some(url) && final(self).last_secs == old(self).last_secs
                && final(self).last_nanos == old(self).last_nanos,
    {
        if self.client.is_some() {
            return Result::Err(SetLoggerError);
        }
        self.init_noop();
        self.client = Some(client);
        self.url = Some(url);
        Result::Ok(())
    }

    /// The endpoint the transport should connect to, if a sink is
    /// installed: exactly the stored endpoint.
    pub fn endpoint(&self) -> (r: Option<&String>)
        ensures
            match r {
                Option::Some(u) => self.url == Option::Some(*u),
                Option::None => self.url is None,
            },
    {
        self.url.as_ref()
    }

    /// Builds a record from the call's arguments, stamps it with the
    /// session clock - never earlier than the previous stamp, whatever
    /// the clock returns - and hands it to the installed sink, which
    /// appends its encoding whole or drops it whole. Before installation
    /// the call is a no-op. Logging never fails the producer.
    pub fn log(
        &mut self,
        level: Level,
        target: &str,
        category: &str,
        message: &str,
        modpath: &str,
        file: &str,
        line: u32,
        kv: Option<KV>,
    ) -> (accepted: bool)
        requires
            old(self).wf(),
        ensures
            final(self).wf(),
            old(self).client is None ==> *final(self) == *old(self) && !accepted,
            old(self).client is Some ==> {
                let c0 = old(self).client->0;
                let c1 = final(self).client->0;
                let st_secs = final(self).last_secs;
                let st_nanos = final(self).last_nanos;
                let r = facade_rec(
                    level,
                    target@,
                    category@,
                    message@,
                    modpath@,
                    file@,
                    line,
                    match kv {
                        Option::None => Option::None,
                        Option::Some(m) => Option::Some(m@),
                    },
                    st_secs,
                    st_nanos,
                );
                &&& final(self).client is Some
                &&& final(self).clock == old(self).clock
                &&& final(self).url == old(self).url
                &&& (st_secs > old(self).last_secs || (st_secs == old(self).last_secs && st_nanos
                    >= old(self).last_nanos))
                &&& c1.buf.cap() == c0.buf.cap()
                &&& c1.sent_bytes() == c0.sent_bytes()
                &&& accepted == (enc_record(r).len() <= c0.buf.cap() - c0.pending_bytes().len())
                &&& c1.attempts@ == c0.attempts@ + 1
                &&& (accepted ==> c1.submitted_bytes() == c0.submitted_bytes() + enc_record(r)
                    && c1.dropped == c0.dropped && c1.accepted@ == c0.accepted@.push(r))
                &&& (!accepted ==> c1.accepted@ == c0.accepted@)
                &&& (!accepted ==> c1.submitted_bytes() == c0.submitted_bytes() && c1.dropped == (
                if c0.dropped < u64::MAX {
                    c0.dropped + 1
                } else {
                    c0.dropped as int
                }))
            },
    {
        if self.client.is_none() {
            return false;
        }
        let (es, en) = match &self.clock {
            Option::Some(k) => k.elapsed(),
            Option::None => {
                return false;
            },
        };
        let (st_secs, st_nanos) = if es > self.last_secs || (es == self.last_secs && en
            >= self.last_nanos) {
            (es, en)
        } else {
            (self.last_secs, self.last_nanos)
        };
        self.last_secs = st_secs;
        self.last_nanos = st_nanos;
        let record = Record {
            metadata: Metadata::new(level, target.to_owned()),
            elapsed_secs: st_secs,
            elapsed_nanos: st_nanos,
            category: category.to_owned(),
            modpath: Some(modpath.to_owned()),
            file: Some(file.to_owned()),
            line: Some(line),
            message: message.to_owned(),
            kv,
        };
        match &mut self.client {
            Option::Some(c) => c.log_record(&record),
            Option::None => false,
        }
    }

    /// One transport tick on the installed sink: drains everything
    /// accepted since the last tick into one frame payload. Before
    /// installation there is nothing to drain.
    pub fn tick(&mut self) -> (payload: Option<Vec<u8>>)
        requires
            old(self).wf(),
        ensures
            final(self).wf(),
            old(self).client is None ==> *final(self) == *old(self) && payload is None,
            old(self).client is Some ==> {
                let c0 = old(self).client->0;
                let c1 = final(self).client->0;
                &&& final(self).client is Some
                &&& payload matches Option::Some(p) && p@ == c0.pending_bytes()
                &&& c1.sent_bytes() == c0.sent_bytes() + c0.pending_bytes()
                &&& c1.submitted_bytes() == c0.submitted_bytes()
                &&& c1.pending_bytes() =~= Seq::<u8>::empty()
                &&& c1.dropped == c0.dropped
                &&& c1.buf.cap() == c0.buf.cap()
                &&& final(self).clock == old(self).clock
                &&& final(self).url == old(self).url
                &&& final(self).last_secs == old(self).last_secs
                &&& final(self).last_nanos == old(self).last_nanos
            },
    {
        match &mut self.client {
            Option::Some(c) => Some(c.tick()),
            Option::None => None,
        }
    }

    /// How many records the installed sink has dropped; zero before
    /// installation.
    pub fn dropped_count(&self) -> (n: u64)
        ensures
            n == match self.client {
                Option::None => 0u64,
                Option::Some(c) => c.dropped,
            },
    {
        match &self.client {
            Option::Some(c) => c.dropped_count(),
            Option::None => 0,
        }
    }
}

/// Initializes the session clock without installing a sink; repeated
/// calls change nothing.
pub fn init_noop(g: &mut GlobalLogger)
    requires
        old(g).wf(),
    ensures
        final(g).wf(),
        final(g).clock is Some,
        final(g).client == old(g).client,
        final(g).url == old(g).url,
        final(g).last_secs == old(g).last_secs,
        final(g).last_nanos == old(g).last_nanos,
        old(g).clock is Some ==> *final(g) == *old(g),
{
    g.init_noop();
}

/// Installs the global logger with the default configuration: the plain
/// endpoint on localhost at the default port, and the default buffer
/// capacity. The first installation succeeds; every further one fails
/// with the install error and leaves the first logger active.
pub fn try_init(g: &mut GlobalLogger) -> (r: Result<(), SetLoggerError>)
    requires
        old(g).wf(),
    ensures
        final(g).wf(),
        old(g).client is Some ==> r == Result::<(), SetLoggerError>::Err(SetLoggerError) && *final(g) == *old(g),
        old(g).client is None ==> r == Result::<(), SetLoggerError>::Ok(()) && final(g).client
            is Some && final(g).clock is Some && final(g).client->0.buf.cap()
            == crate::client::DEFAULT_BUFFER_SIZE && final(g).client->0.submitted_bytes()
            == Seq::<u8>::empty() && (final(g).url matches Option::Some(u) && u@
            == crate::client::url_chars(false, "localhost"@, crate::client::WS_DEFAULT_PORT)),
{
    try_init_with_builder(g, Builder::default())
}

/// Installs the global logger pointed at the given collector host, with
/// everything else at its default.
pub fn try_init_with_host(g: &mut GlobalLogger, host: &str) -> (r: Result<(), SetLoggerError>)
    requires
        old(g).wf(),
    ensures
        final(g).wf(),
        old(g).client is Some ==> r == Result::<(), SetLoggerError>::Err(SetLoggerError) && *final(g) == *old(g),
        old(g).client is None ==> r == Result::<(), SetLoggerError>::Ok(()) && final(g).client
            is Some && final(g).clock is Some && final(g).client->0.buf.cap()
            == crate::client::DEFAULT_BUFFER_SIZE && (final(g).url matches Option::Some(u) && u@
            == crate::client::url_chars(false, host@, crate::client::WS_DEFAULT_PORT)),
{
    try_init_with_builder(g, Builder::default().host(host.to_owned()))
}

/// Installs the global logger from the given configuration.
pub fn try_init_with_builder(g: &mut GlobalLogger, builder: Builder) -> (r: Result<
    (),
    SetLoggerError,
>)
    requires
        old(g).wf(),
    ensures
        final(g).wf(),
        old(g).client is Some ==> r == Result::<(), SetLoggerError>::Err(SetLoggerError) && *final(g) == *old(g),
        old(g).client is None ==> r == Result::<(), SetLoggerError>::Ok(()) && final(g).client
            is Some && final(g).clock is Some && final(g).client->0.buf.cap()
            == builder.swap_buffer_size && final(g).client->0.submitted_bytes() == Seq::<
            u8,
        >::empty() && (final(g).url matches Option::Some(u) && u@ == crate::client::url_chars(
            builder.secure_connection,
            builder.host@,
            builder.port,
        )),
{
    let (client, url) = builder.build();
    proof {
        assert(client.submitted_bytes() =~= Seq::<u8>::empty());
    }
    g.install(client, url)
}

/// Drains the staged bytes for one final send: the flush half of the
/// shutdown path. The caller delivers the returned payload and joins its
/// transport. The installed sink stays installed, so flushing is
/// idempotent: a second flush finds nothing pending and gets an empty
/// payload.
pub fn flush(g: &mut GlobalLogger) -> (payload: Option<Vec<u8>>)
    requires
        old(g).wf(),
    ensures
        final(g).wf(),
        old(g).client is None ==> *final(g) == *old(g) && payload is None,
        old(g).client is Some ==> (payload matches Option::Some(p) && p@ == old(g).client->0.pending_bytes() && final(g).client is Some
            && final(g).client->0.pending_bytes() =~= Seq::<u8>::empty() && final(g).client->0.submitted_bytes()
            == old(g).client->0.submitted_bytes() && final(g).client->0.dropped == old(g).client->0.dropped && final(g).clock == old(g).clock && final(g).url == old(g).url
            && final(g).last_secs == old(g).last_secs && final(g).last_nanos == old(g).last_nanos),
{
    g.tick()
}

} // verus!
