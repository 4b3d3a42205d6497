use crate::record::{encode_header, encode_record, header_bytes, name_fits, record_bytes};
use crate::text::{decimal, push_decimal};
use vstd::prelude::*;
use vstd::string::*;

verus! {

/// A transport that refused or lost bytes.
#[derive(Debug, Clone, Copy, PartialEq, Eq, Structural)]
pub struct TransportError;

/// A byte stream to the daemon: a local socket, a TCP connection, or anything else
/// that delivers bytes in order.
pub trait Transport {
    /// Hands all of `buf` to the stream.
    fn write_all(&mut self, buf: &[u8]) -> Result<(), TransportError>;

    /// Pushes out anything the stream still holds.
    fn flush(&mut self) -> Result<(), TransportError>;
}

/// Why the client cannot log.
#[derive(Debug, Clone, Copy, PartialEq, Eq, Structural)]
pub enum LoggestError {
    /// The transport failed.
    IoError(TransportError),
    /// Another logger is installed already.
    SetLoggerError,
    /// The file name is not valid UTF-8.
    BadFileName,
    /// The file name is too long for the connection header.
    NameTooLong,
    /// The client was initialized before.
    AlreadyInitialized,
}

/// A failure that a logging call swallows: logging never fails the caller.
#[derive(Debug, Clone, Copy, PartialEq, Eq, Structural)]
pub struct Ignore;

impl From<TransportError> for Ignore {
    fn from(_error: TransportError) -> (r: Ignore) {
        Ignore
    }
}

impl vstd::std_specs::convert::FromSpecImpl<TransportError> for Ignore {
    open spec fn obeys_from_spec() -> bool {
        true
    }

    open spec fn from_spec(v: TransportError) -> Ignore {
        Ignore
    }
}

impl From<LoggestError> for Ignore {
    fn from(_error: LoggestError) -> (r: Ignore) {
        Ignore
    }
}

impl vstd::std_specs::convert::FromSpecImpl<LoggestError> for Ignore {
    open spec fn obeys_from_spec() -> bool {
        true
    }

    open spec fn from_spec(v: LoggestError) -> Ignore {
        Ignore
    }
}

/// A connection to the daemon that has not announced its destination yet.
pub struct Session<T: Transport> {
    transport: T,
}

/// A connection that announced its destination and now carries records.
pub struct EstablishedSession<T: Transport> {
    transport: T,
    sent: Ghost<Seq<u8>>,
}

impl<T: Transport> Session<T> {
    /// A session over a freshly connected transport.
    pub fn new(transport: T) -> (r: Session<T>) {
        Session { transport }
    }

    /// Announces the destination `filename` with a connection header. The header is
    /// refused when the name is too long for it, and the transport may fail.
    pub fn establish(self, filename: &str) -> (r: Result<EstablishedSession<T>, LoggestError>)
        ensures
            r == Err::<EstablishedSession<T>, LoggestError>(LoggestError::NameTooLong) <==> !name_fits(
                filename@,
            ),
            r matches Err(e) ==> e == LoggestError::NameTooLong || e is IoError,
            r matches Ok(s) ==> s.sent() == header_bytes(filename@),
    {
        let header = match encode_header(filename) {
            Some(h) => h,
            None => {
                return Err(LoggestError::NameTooLong);
            },
        };
        let mut transport = self.transport;
        match transport.write_all(header.as_slice()) {
            Ok(()) => Ok(EstablishedSession { transport, sent: Ghost(header@) }),
            Err(e) => Err(LoggestError::IoError(e)),
        }
    }
}

impl<T: Transport> EstablishedSession<T> {
    /// The bytes that the transport accepted so far, in order.
    pub closed spec fn sent(&self) -> Seq<u8> {
        self.sent@
    }

    /// Passes `buf` through to the transport.
    pub fn write(&mut self, buf: &[u8]) -> (r: Result<(), TransportError>)
        ensures
            r is Ok ==> final(self).sent() == old(self).sent() + buf@,
            r is Err ==> final(self).sent() == old(self).sent(),
    {
        let r = self.transport.write_all(buf);
        if r.is_ok() {
            self.sent = Ghost(self.sent@ + buf@);
        }
        r
    }

    /// Sends one record: the timestamp in milliseconds, the line and a newline.
    pub fn write_record(&mut self, timestamp: u64, line: &str) -> (r: Result<(), TransportError>)
        ensures
            r is Ok ==> final(self).sent() == old(self).sent() + record_bytes(timestamp, line@),
            r is Err ==> final(self).sent() == old(self).sent(),
    {
        let record = encode_record(timestamp, line);
        self.write(record.as_slice())
    }

    /// Pushes out what the transport still holds.
    pub fn flush(&mut self) -> (r: Result<(), TransportError>)
        ensures
            final(self).sent() == old(self).sent(),
    {
        self.transport.flush()
    }
}

/// The name under which a thread logs: the base name for the main thread, the base
/// name, a dot and the thread's identifier for any other.
pub open spec fn thread_file(base: Seq<char>, thread_id: Option<u64>) -> Seq<char> {
    match thread_id {
        Some(t) => base + seq!['.'] + decimal(t as nat),
        None => base,
    }
}

/// The client's settings, fixed once at start-up.
pub struct ClientConfig {
    base_filename: String,
}

impl ClientConfig {
    /// The base name of the main thread's destination.
    pub closed spec fn base(&self) -> Seq<char> {
        self.base_filename@
    }

    /// The destination of the thread `thread_id`, or of the main thread for `None`.
    pub fn file_for_thread(&self, thread_id: Option<u64>) -> (r: String)
        ensures
            r@ == thread_file(self.base(), thread_id),
    {
        let mut r = String::from_str(self.base_filename.as_str());
        match thread_id {
            Some(t) => {
                proof {
                    reveal_strlit(".");
                }
                r.append(".");
                push_decimal(&mut r, t);
            },
            None => {},
        }
        r
    }
}

/// Installs the client's settings in `slot`, which must not hold any yet.
pub fn init_config(slot: &mut Option<ClientConfig>, base_filename: &str) -> (r: Result<
    FlushGuard,
    LoggestError,
>)
    ensures
        *old(slot) is Some <==> r == Err::<FlushGuard, LoggestError>(
            LoggestError::AlreadyInitialized,
        ),
        *old(slot) is Some ==> *final(slot) == *old(slot),
        *old(slot) is None ==> r is Ok,
        *old(slot) is None ==> (*final(slot) matches Some(c) && c.base() == base_filename@),
{
    if slot.is_some() {
        return Err(LoggestError::AlreadyInitialized);
    }
    *slot = Some(ClientConfig { base_filename: String::from_str(base_filename) });
    Ok(FlushGuard)
}

/// The session of one logging thread, made on its first record and kept until it is
/// flushed.
pub struct LocalOutput<T: Transport> {
    session: Option<EstablishedSession<T>>,
}

impl<T: Transport> LocalOutput<T> {
    /// Whether the thread holds an established session.
    pub closed spec fn established(&self) -> bool {
        self.session is Some
    }

    /// The bytes that the thread's session sent, while it has one.
    pub closed spec fn sent(&self) -> Seq<u8> {
        match self.session {
            Some(s) => s.sent(),
            None => Seq::empty(),
        }
    }

    /// A thread output without a session.
    pub fn new() -> (r: LocalOutput<T>)
        ensures
            !r.established(),
    {
        LocalOutput { session: None }
    }

    /// Whether the thread holds an established session.
    pub fn is_established(&self) -> (r: bool)
        ensures
            r == self.established(),
    {
        self.session.is_some()
    }

    /// Establishes `session` for `filename` and keeps it; on failure the thread stays
    /// without a session.
    pub fn establish(&mut self, session: Session<T>, filename: &str) -> (r: Result<(), LoggestError>)
        ensures
            r is Ok <==> final(self).established(),
            r == Err::<(), LoggestError>(LoggestError::NameTooLong) <==> !name_fits(filename@),
            r is Ok ==> final(self).sent() == header_bytes(filename@),
    {
        match session.establish(filename) {
            Ok(s) => {
                self.session = Some(s);
                Ok(())
            },
            Err(e) => {
                self.session = None;
                Err(e)
            },
        }
    }

    /// Sends one record over the thread's session; without one there is nothing to
    /// send to.
    pub fn write_record(&mut self, timestamp: u64, line: &str) -> (r: Result<(), Ignore>)
        ensures
            final(self).established() == old(self).established(),
            !old(self).established() ==> r is Err,
            r is Ok ==> final(self).sent() == old(self).sent() + record_bytes(timestamp, line@),
            r is Err ==> final(self).sent() == old(self).sent(),
    {
        match &mut self.session {
            Some(s) => match s.write_record(timestamp, line) {
                Ok(()) => Ok(()),
                Err(_) => Err(Ignore),
            },
            None => Err(Ignore),
        }
    }
}

/// Drops the calling thread's session, so that its next record connects afresh.
pub fn flush<T: Transport>(output: &mut LocalOutput<T>)
    ensures
        !final(output).established(),
{
    output.session = None;
}

/// Returned by initialization: releasing it flushes the main thread's output.
pub struct FlushGuard;

impl FlushGuard {
    /// Flushes `output`, the main thread's.
    pub fn release<T: Transport>(self, output: &mut LocalOutput<T>)
        ensures
            !final(output).established(),
    {
        flush(output);
    }
}

} // verus!
