//! One connection: which address to try next while connecting, and how the
//! bytes that come in make up a reply.

use vstd::prelude::*;
use vstd::string::StringExecFns;
use crate::error::{Error, ErrorView};
use crate::resp::decimal::{decimal_string, decimal_text};
use crate::resp::decode::{decode_at, decode_frame};
use crate::resp::encode::push_bytes;
use crate::resp::value::Value;

verus! {

/// How many bytes one read asks for.
pub const READ_CHUNK: u64 = 1024;

/// What to do next while connecting.
#[derive(Debug, Clone, Copy, PartialEq, Eq)]
pub enum Next {
    /// Try the candidate at this place of the list.
    Try(usize),
    /// Use the connection to the candidate at this place.
    Use(usize),
    /// No candidate is left.
    GiveUp,
}

/// What to do first with `candidates` addresses to connect to: try the
/// first, if there is one.
pub fn first_attempt(candidates: usize) -> (r: Next)
    ensures
        r == if candidates == 0 {
            Next::GiveUp
        } else {
            Next::Try(0)
        },
{
    if candidates == 0 {
        Next::GiveUp
    } else {
        Next::Try(0)
    }
}

/// What to do after the candidate at `tried` was tried: use it where the
/// connection was made and the handshake went through, else try the next
/// one, and give up behind the last.
pub open spec fn step(candidates: int, tried: int, connected: bool) -> Next {
    if connected {
        Next::Use(tried as usize)
    } else if tried + 1 < candidates {
        Next::Try((tried + 1) as usize)
    } else {
        Next::GiveUp
    }
}

/// Where connecting ends when the candidate at `at` is tried next and the
/// candidate at each place answers as `outcomes` says at that place.
pub open spec fn settle(outcomes: Seq<bool>, at: int) -> Next
    decreases outcomes.len() - at,
{
    if at < 0 || at >= outcomes.len() || outcomes.len() > usize::MAX {
        Next::GiveUp
    } else {
        match step(outcomes.len() as int, at, outcomes[at]) {
            Next::Try(next) => settle(outcomes, next as int),
            done => done,
        }
    }
}

/// Connecting ends at the first candidate that takes the connection and the
/// handshake, and gives up exactly where none does.
pub proof fn law_first_candidate(outcomes: Seq<bool>, at: int)
    requires
        0 <= at <= outcomes.len() <= usize::MAX,
    ensures
        match settle(outcomes, at) {
            Next::Use(found) => at <= found < outcomes.len() && outcomes[found as int] && forall|j: int|
                at <= j < found ==> !outcomes[j],
            Next::GiveUp => forall|j: int| at <= j < outcomes.len() ==> !outcomes[j],
            Next::Try(_) => false,
        },
    decreases outcomes.len() - at,
{
    if at < outcomes.len() && !outcomes[at] && at + 1 < outcomes.len() {
        law_first_candidate(outcomes, at + 1);
    }
}

/// What to do after the candidate at `tried` was tried.
pub fn next_attempt(candidates: usize, tried: usize, connected: bool) -> (r: Next)
    requires
        tried < candidates,
    ensures
        r == step(candidates as int, tried as int, connected),
{
    if connected {
        Next::Use(tried)
    } else if tried + 1 < candidates {
        Next::Try(tried + 1)
    } else {
        Next::GiveUp
    }
}

/// The message that says that no candidate could be connected to.
pub open spec fn connect_failure_message(host: Seq<char>, port: u16) -> Seq<char> {
    "unable to connect to "@ + host + ":"@ + decimal_text(port as int)
}

/// The error that says that no candidate could be connected to.
pub fn connect_failure(host: &str, port: u16) -> (e: Error)
    ensures
        e@ == ErrorView::Client(connect_failure_message(host@, port)),
{
    let number: String = decimal_string(port as i64);
    Error::Client(String::from_str("unable to connect to ").concat(host).concat(":").concat(number.as_str()))
}

/// Whether a connection can still be used.
#[derive(Debug, Clone, Copy, PartialEq, Eq)]
pub enum ConnectionState {
    /// The handshake went through and nothing has failed since.
    Open,
    /// The transport failed, or the client said QUIT.
    Closed,
}

/// What happened on a connection.
#[derive(Debug, Clone, Copy, PartialEq, Eq)]
pub enum Event {
    /// A command was sent and its reply came back.
    Replied,
    /// QUIT was sent.
    Quit,
    /// Writing or reading failed.
    TransportFailed,
}

impl ConnectionState {
    /// The state after `event`: a closed connection stays closed, and an
    /// open one stays open as long as commands get their replies.
    pub fn after(self, event: Event) -> (r: ConnectionState)
        ensures
            r == ConnectionState::Open <==> self == ConnectionState::Open && event == Event::Replied,
    {
        match (self, event) {
            (ConnectionState::Open, Event::Replied) => ConnectionState::Open,
            _ => ConnectionState::Closed,
        }
    }
}

/// What the bytes that have come in amount to.
#[derive(Debug)]
pub enum Poll {
    /// They start with a whole value, which is taken from them.
    Ready(Value),
    /// They end too early to tell: more bytes are needed.
    Pending,
    /// They are no value, and no more bytes can mend that.
    Broken(Error),
}

/// The bytes that have come in and were not yet read as a reply.
#[derive(Debug)]
pub struct Inbox {
    buf: Vec<u8>,
}

impl View for Inbox {
    type V = Seq<u8>;

    closed spec fn view(&self) -> Seq<u8> {
        self.buf@
    }
}

impl Inbox {
    /// An inbox with no bytes in it.
    pub fn new() -> (inbox: Self)
        ensures
            inbox@ == Seq::<u8>::empty(),
    {
        Inbox { buf: Vec::new() }
    }

    /// How many bytes wait in the inbox.
    pub fn len(&self) -> (n: usize)
        ensures
            n == self@.len(),
    {
        self.buf.len()
    }

    /// Adds the bytes that one read brought.
    pub fn feed(&mut self, chunk: &[u8])
        ensures
            final(self)@ == old(self)@ + chunk@,
    {
        push_bytes(&mut self.buf, chunk);
    }

    /// Takes the next reply from the inbox, if it is all there. Where the
    /// bytes end too early, they stay and more are waited for; where they
    /// are no value, they stay and the error names the fault.
    pub fn poll(&mut self) -> (r: Poll)
        ensures
            match decode_at(old(self)@, 0) {
                Ok((frame, next)) => r is Ready && r->Ready_0@ == frame && final(self)@ == old(self)@.skip(next),
                Err(fault) => {
                    &&& final(self)@ == old(self)@
                    &&& fault.starved() ==> r is Pending
                    &&& !fault.starved() ==> r is Broken && r->Broken_0@ == ErrorView::Resp(fault.message())
                },
            },
    {
        match decode_frame(self.buf.as_slice(), 0) {
            Ok((value, next)) => {
                let rest: Vec<u8> = self.buf.split_off(next);
                self.buf = rest;
                proof {
                    assert(self.buf@ =~= old(self)@.skip(next as int));
                }
                Poll::Ready(value)
            },
            Err(fault) => {
                if fault.is_starved() {
                    Poll::Pending
                } else {
                    Poll::Broken(fault.to_error())
                }
            },
        }
    }
}

} // verus!
