//! The bytes of an archive as they come in, one read after the other.
use vstd::prelude::*;
use vstd::slice::{slice_subrange, slice_to_vec};

verus! {

/// What kind of failure an operation ended in; the kinds are those of
/// `std::io::ErrorKind`.
#[derive(Clone, Copy, Debug, PartialEq, Eq, Structural)]
pub enum ErrorKind {
    /// The data ended too early.
    UnexpectedEof,
    /// The read was interrupted and can be made again.
    Interrupted,
    NotFound,
    PermissionDenied,
    ConnectionRefused,
    ConnectionReset,
    HostUnreachable,
    NetworkUnreachable,
    ConnectionAborted,
    NotConnected,
    AddrInUse,
    AddrNotAvailable,
    NetworkDown,
    BrokenPipe,
    AlreadyExists,
    WouldBlock,
    NotADirectory,
    IsADirectory,
    DirectoryNotEmpty,
    ReadOnlyFilesystem,
    StaleNetworkFileHandle,
    InvalidInput,
    InvalidData,
    TimedOut,
    WriteZero,
    StorageFull,
    NotSeekable,
    QuotaExceeded,
    FileTooLarge,
    ResourceBusy,
    ExecutableFileBusy,
    Deadlock,
    CrossesDevices,
    TooManyLinks,
    InvalidFilename,
    ArgumentListTooLong,
    Unsupported,
    OutOfMemory,
    /// A failure that is of no other kind by choice.
    Other,
    /// A failure of a kind that has no name.
    Uncategorized,
}

/// A failed read.
#[derive(Debug, PartialEq, Eq)]
pub struct IoFault {
    pub kind: ErrorKind,
    pub message: String,
}

/// How one read ended.
#[derive(Debug, PartialEq, Eq)]
pub enum ReadEvent {
    /// The bytes that were read; none at the end of the data.
    Data(Vec<u8>),
    /// The read failed.
    Failed(IoFault),
}

/// Why nothing follows the bytes that were read so far.
#[derive(Debug, PartialEq, Eq)]
pub enum End {
    /// The end of the data.
    Eof,
    /// A failed read.
    Failed(IoFault),
}

/// The bytes that were read and not used yet, and whether they are the last.
pub struct InputView {
    pub unread: Seq<u8>,
    pub end: Option<End>,
}

/// What `input` is after one more read.
pub open spec fn fed(input: InputView, event: ReadEvent) -> InputView {
    match event {
        ReadEvent::Data(bytes) => if bytes@.len() == 0 {
            InputView { end: Some(End::Eof), ..input }
        } else {
            InputView { unread: input.unread + bytes@, ..input }
        },
        ReadEvent::Failed(fault) => if fault.kind == ErrorKind::Interrupted {
            input
        } else {
            InputView { end: Some(End::Failed(fault)), ..input }
        },
    }
}

/// Bytes that were read and not used yet.
#[derive(Debug)]
pub struct Input {
    data: Vec<u8>,
    start: usize,
    end: Option<End>,
}

impl View for Input {
    type V = InputView;

    closed spec fn view(&self) -> InputView {
        InputView { unread: self.data@.skip(self.start as int), end: self.end }
    }
}

impl Input {
    #[verifier::type_invariant]
    spec fn start_in_data(self) -> bool {
        self.start <= self.data@.len()
    }

    /// Nothing read yet.
    pub fn new() -> (r: Input)
        ensures
            r@ == (InputView { unread: Seq::empty(), end: None }),
    {
        let r = Input { data: Vec::new(), start: 0, end: None };
        assert(r@.unread =~= Seq::empty());
        r
    }

    /// Takes in how one read ended. An interrupted read changes nothing; no
    /// read is taken in behind the end before that end has been reported.
    pub fn feed(&mut self, event: ReadEvent)
        requires
            old(self)@.end is None,
        ensures
            final(self)@ == fed(old(self)@, event),
    {
        proof {
            use_type_invariant(&*self);
        }
        match event {
            ReadEvent::Data(bytes) => {
                if bytes.len() == 0 {
                    self.end = Some(End::Eof);
                } else {
                    let mut bytes = bytes;
                    let ghost chunk = bytes@;
                    let mut data = slice_to_vec(self.unread());
                    let ghost kept = data@;
                    assert(kept =~= old(self)@.unread);
                    data.append(&mut bytes);
                    self.start = 0;
                    self.data = data;
                    assert(self@.unread =~= kept + chunk);
                }
            },
            ReadEvent::Failed(fault) => {
                match fault.kind {
                    ErrorKind::Interrupted => {},
                    _ => {
                        self.end = Some(End::Failed(fault));
                    },
                }
            },
        }
    }

    /// The bytes that were not used yet.
    pub fn unread(&self) -> (r: &[u8])
        ensures
            r@ == self@.unread,
    {
        proof {
            use_type_invariant(self);
        }
        slice_subrange(self.data.as_slice(), self.start, self.data.len())
    }

    /// Whether the unread bytes are the last, up to a report of the end.
    pub fn has_ended(&self) -> (r: bool)
        ensures
            r == self@.end is Some,
    {
        self.end.is_some()
    }

    /// Whether nothing follows the unread bytes because the data ended there.
    pub fn is_at_eof(&self) -> (r: bool)
        ensures
            r == (self@.end == Some(End::Eof)),
    {
        match &self.end {
            Some(End::Eof) => true,
            _ => false,
        }
    }

    /// Uses up the first `n` unread bytes.
    pub(crate) fn consume(&mut self, n: usize)
        requires
            n <= old(self)@.unread.len(),
        ensures
            final(self)@ == (InputView {
                unread: old(self)@.unread.skip(n as int),
                end: old(self)@.end,
            }),
    {
        proof {
            use_type_invariant(&*self);
        }
        assert(self.start + n <= self.data.len());
        self.start = self.start + n;
        assert(self@.unread =~= old(self)@.unread.skip(n as int));
    }

    /// Uses up all unread bytes together with the end behind them.
    pub(crate) fn finish(&mut self) -> (r: Option<End>)
        ensures
            r == old(self)@.end,
            final(self)@ == (InputView { unread: Seq::empty(), end: None }),
    {
        proof {
            use_type_invariant(&*self);
        }
        self.start = self.data.len();
        let mut end: Option<End> = None;
        std::mem::swap(&mut end, &mut self.end);
        assert(self@.unread =~= Seq::empty());
        end
    }
}

/// An interrupted read changes nothing.
pub proof fn law_interrupted_read_is_repeated(input: InputView, fault: IoFault)
    requires
        fault.kind == ErrorKind::Interrupted,
    ensures
        fed(input, ReadEvent::Failed(fault)) == input,
{
}

/// Every byte that is read is kept, behind those that were not used yet, and what
/// ended the data is kept as it came.
pub proof fn law_nothing_that_is_read_is_lost(input: InputView, bytes: Vec<u8>, fault: IoFault)
    ensures
        bytes@.len() > 0 ==> fed(input, ReadEvent::Data(bytes)) == (InputView {
            unread: input.unread + bytes@,
            end: input.end,
        }),
        bytes@.len() == 0 ==> fed(input, ReadEvent::Data(bytes)) == (InputView {
            unread: input.unread,
            end: Some(End::Eof),
        }),
        fault.kind != ErrorKind::Interrupted ==> fed(input, ReadEvent::Failed(fault)) == (
        InputView { unread: input.unread, end: Some(End::Failed(fault)) }),
{
}

/// Two reads give the same as one read of all their bytes.
pub proof fn law_split_reads_add_up(
    input: InputView,
    first: Vec<u8>,
    second: Vec<u8>,
    both: Vec<u8>,
)
    requires
        both@ == first@ + second@,
        first@.len() > 0,
        second@.len() > 0,
    ensures
        fed(fed(input, ReadEvent::Data(first)), ReadEvent::Data(second)) == fed(
            input,
            ReadEvent::Data(both),
        ),
{
    assert(input.unread + first@ + second@ =~= input.unread + both@);
}

} // verus!
