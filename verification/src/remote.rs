//! The conversation with the target process.
//!
//! Nothing here touches a process. An operation is a function of the answers received so
//! far: it either names the next request, or it is finished. Whoever runs it performs the
//! request, appends the answer and asks again.

use crate::bytes::{le_value, to_signed32, u32_from_le, u64_from_le, signed32};
use crate::text::texts;
use vstd::prelude::*;

verus! {

/// What is to be done to the target process next.
pub enum Request {
    /// Allocate memory that can be read, written and executed.
    Alloc { size: u64 },
    /// Release what was allocated at this address.
    Free { addr: u64 },
    /// Write bytes.
    Write { addr: u64, data: Vec<u8> },
    /// Read bytes.
    Read { addr: u64, len: u64 },
    /// Run a thread from this address and wait for its end.
    Run { entry: u64, timeout_ms: u32 },
    /// Show a hint to whoever looks at the diagnostics.
    Note { text: String },
}

/// How running a thread went.
#[derive(Clone, Copy)]
pub enum RunResult {
    /// It could not be started; the error code.
    NotStarted(u32),
    /// It was started; what waiting for it returned.
    Waited(u32),
}

/// The answer to a request.
pub enum Reply {
    /// Where the memory was allocated, or the error code.
    Allocated(Result<u64, u32>),
    /// Whether everything was written, or the error code.
    Written(Result<(), u32>),
    /// What was read, if it was readable.
    Data(Option<Vec<u8>>),
    /// How the thread ran.
    Ran(RunResult),
    /// The request gives no answer.
    Nothing,
}

/// The value of a request.
pub enum Ask {
    Alloc { size: u64 },
    Free { addr: u64 },
    Write { addr: u64, data: Seq<u8> },
    Read { addr: u64, len: u64 },
    Run { entry: u64, timeout_ms: u32 },
    Note { text: Seq<char> },
}

/// The value of a reply.
pub enum Answer {
    Allocated(Result<u64, u32>),
    Written(Result<(), u32>),
    Data(Option<Seq<u8>>),
    Ran(RunResult),
    Nothing,
}

impl View for Request {
    type V = Ask;

    open spec fn view(&self) -> Ask {
        match *self {
            Request::Alloc { size } => Ask::Alloc { size },
            Request::Free { addr } => Ask::Free { addr },
            Request::Write { addr, data } => Ask::Write { addr, data: data@ },
            Request::Read { addr, len } => Ask::Read { addr, len },
            Request::Run { entry, timeout_ms } => Ask::Run { entry, timeout_ms },
            Request::Note { text } => Ask::Note { text: text@ },
        }
    }
}

impl View for Reply {
    type V = Answer;

    open spec fn view(&self) -> Answer {
        match *self {
            Reply::Allocated(r) => Answer::Allocated(r),
            Reply::Written(r) => Answer::Written(r),
            Reply::Data(d) => Answer::Data(
                match d {
                    Some(v) => Some(v@),
                    None => None,
                },
            ),
            Reply::Ran(r) => Answer::Ran(r),
            Reply::Nothing => Answer::Nothing,
        }
    }
}

/// An address computation that does not fit 64 bits.
#[derive(Clone, Copy, PartialEq, Eq, Structural)]
pub enum Overflow {
    Add,
    Multiply,
}

/// Why an operation does not go on.
pub enum Stop {
    /// An answer is missing.
    Ask(Request),
    /// It has failed.
    Fail(String),
    /// An address did not fit.
    Overflow(Overflow),
}

/// The value of a `Stop`.
pub enum Halt {
    Ask(Ask),
    Fail(Seq<char>),
    Overflow(Overflow),
}

impl View for Stop {
    type V = Halt;

    open spec fn view(&self) -> Halt {
        match *self {
            Stop::Ask(r) => Halt::Ask(r@),
            Stop::Fail(m) => Halt::Fail(m@),
            Stop::Overflow(o) => Halt::Overflow(o),
        }
    }
}

/// What an operation has come to.
pub enum Progress<T> {
    /// It needs the answer to this request, behind those that it already has.
    Ask(Request),
    /// An address computation did not fit 64 bits.
    Overflow(Overflow),
    /// It is finished.
    Done(T),
}

/// A conversation: all answers, the requests that have used up the first of them, and the
/// steps reported on the way.
pub struct Talk {
    pub log: Seq<Answer>,
    pub asked: Seq<Ask>,
    pub steps: Seq<Seq<char>>,
}

/// What a part of a conversation gives, and the conversation behind it.
pub type Flow<T> = (Result<T, Halt>, Talk);

/// The values of the replies.
pub open spec fn answers(log: Seq<Reply>) -> Seq<Answer> {
    Seq::new(log.len(), |i: int| log[i]@)
}

/// The conversation before the first request.
pub open spec fn opening(log: Seq<Answer>) -> Talk {
    Talk { log, asked: Seq::empty(), steps: Seq::empty() }
}

/// Makes a request: the next answer, or the end of the conversation so far.
pub open spec fn ask_flow(t: Talk, a: Ask) -> Flow<Answer> {
    if t.asked.len() < t.log.len() {
        (Ok(t.log[t.asked.len() as int]), Talk { asked: t.asked.push(a), ..t })
    } else {
        (Err(Halt::Ask(a)), t)
    }
}

/// The bytes of a read: all of them have to be there.
pub open spec fn data_of(a: Answer, len: u64) -> Option<Seq<u8>> {
    match a {
        Answer::Data(Some(d)) => if d.len() == len {
            Some(d)
        } else {
            None
        },
        _ => None,
    }
}

/// Reads bytes.
pub open spec fn read_flow(t: Talk, addr: u64, len: u64) -> Flow<Option<Seq<u8>>> {
    match ask_flow(t, Ask::Read { addr, len }) {
        (Err(h), t2) => (Err(h), t2),
        (Ok(a), t2) => (Ok(data_of(a, len)), t2),
    }
}

/// Reads a 64-bit value.
pub open spec fn read_u64_flow(t: Talk, addr: u64) -> Flow<Option<u64>> {
    match read_flow(t, addr, 8) {
        (Err(h), t2) => (Err(h), t2),
        (Ok(None), t2) => (Ok(None), t2),
        (Ok(Some(d)), t2) => (Ok(Some(le_value(d) as u64)), t2),
    }
}

/// Reads a signed 32-bit value.
pub open spec fn read_i32_flow(t: Talk, addr: u64) -> Flow<Option<i32>> {
    match read_flow(t, addr, 4) {
        (Err(h), t2) => (Err(h), t2),
        (Ok(None), t2) => (Ok(None), t2),
        (Ok(Some(d)), t2) => (Ok(Some(signed32(le_value(d) as u32))), t2),
    }
}

/// Whether everything was written; an answer that does not fit is a failure without a code.
pub open spec fn written(a: Answer) -> Result<(), u32> {
    match a {
        Answer::Written(r) => r,
        _ => Err(0),
    }
}

/// Writes bytes.
pub open spec fn write_flow(t: Talk, addr: u64, data: Seq<u8>) -> Flow<Result<(), u32>> {
    match ask_flow(t, Ask::Write { addr, data }) {
        (Err(h), t2) => (Err(h), t2),
        (Ok(a), t2) => (Ok(written(a)), t2),
    }
}

/// Whether `r` is what `s` gives.
pub open spec fn follows<T>(r: Result<T, Stop>, s: Result<T, Halt>) -> bool {
    match (r, s) {
        (Ok(v), Ok(w)) => v == w,
        (Err(x), Err(y)) => x@ == y,
        _ => false,
    }
}

/// A conversation under way.
pub(crate) struct Transcript<'a> {
    log: &'a Vec<Reply>,
    pos: usize,
    steps: Vec<String>,
    asked: Ghost<Seq<Ask>>,
}

impl<'a> View for Transcript<'a> {
    type V = Talk;

    closed spec fn view(&self) -> Talk {
        Talk { log: answers(self.log@), asked: self.asked@, steps: texts(self.steps@) }
    }
}

impl<'a> Transcript<'a> {
    /// As many answers have been used up as requests have been made.
    pub(crate) closed spec fn wf(&self) -> bool {
        self.pos == self.asked@.len() && self.pos <= self.log@.len()
    }

    /// Opens the conversation.
    pub(crate) fn new(log: &'a Vec<Reply>) -> (r: Self)
        ensures
            r.wf(),
            r@ == opening(answers(log@)),
    {
        let r = Transcript { log, pos: 0, steps: Vec::new(), asked: Ghost(Seq::empty()) };
        assert(texts(r.steps@) =~= Seq::empty());
        r
    }

    /// Makes a request.
    pub(crate) fn ask(&mut self, request: Request) -> (r: Result<&'a Reply, Stop>)
        requires
            old(self).wf(),
        ensures
            final(self).wf(),
            final(self)@ == ask_flow(old(self)@, request@).1,
            match (r, ask_flow(old(self)@, request@).0) {
                (Ok(a), Ok(b)) => a@ == b,
                (Err(x), Err(y)) => x@ == y,
                _ => false,
            },
    {
        if self.pos < self.log.len() {
            let reply: &'a Reply = &self.log[self.pos];
            self.pos = self.pos + 1;
            self.asked = Ghost(self.asked@.push(request@));
            Ok(reply)
        } else {
            Err(Stop::Ask(request))
        }
    }

    /// Reads bytes; only a complete read counts.
    pub(crate) fn read(&mut self, addr: u64, len: u64) -> (r: Result<Option<&'a Vec<u8>>, Stop>)
        requires
            old(self).wf(),
        ensures
            final(self).wf(),
            final(self)@ == read_flow(old(self)@, addr, len).1,
            match (r, read_flow(old(self)@, addr, len).0) {
                (Ok(Some(v)), Ok(Some(d))) => v@ == d && d.len() == len,
                (Ok(None), Ok(None)) => true,
                (Err(x), Err(y)) => x@ == y,
                _ => false,
            },
    {
        match self.ask(Request::Read { addr, len })? {
            Reply::Data(Some(v)) => if v.len() as u64 == len {
                Ok(Some(v))
            } else {
                Ok(None)
            },
            _ => Ok(None),
        }
    }

    /// Reads a 64-bit value.
    pub(crate) fn read_u64(&mut self, addr: u64) -> (r: Result<Option<u64>, Stop>)
        requires
            old(self).wf(),
        ensures
            final(self).wf(),
            final(self)@ == read_u64_flow(old(self)@, addr).1,
            follows(r, read_u64_flow(old(self)@, addr).0),
    {
        match self.read(addr, 8)? {
            Some(v) => {
                assert(v@.subrange(0, 8) =~= v@);
                Ok(Some(u64_from_le(v.as_slice(), 0)))
            },
            None => Ok(None),
        }
    }

    /// Reads a signed 32-bit value.
    pub(crate) fn read_i32(&mut self, addr: u64) -> (r: Result<Option<i32>, Stop>)
        requires
            old(self).wf(),
        ensures
            final(self).wf(),
            final(self)@ == read_i32_flow(old(self)@, addr).1,
            follows(r, read_i32_flow(old(self)@, addr).0),
    {
        match self.read(addr, 4)? {
            Some(v) => {
                assert(seq![v[0], v[1], v[2], v[3]] =~= v@);
                Ok(Some(to_signed32(u32_from_le(v[0], v[1], v[2], v[3]))))
            },
            None => Ok(None),
        }
    }

    /// Writes bytes.
    pub(crate) fn write(&mut self, addr: u64, data: Vec<u8>) -> (r: Result<Result<(), u32>, Stop>)
        requires
            old(self).wf(),
        ensures
            final(self).wf(),
            final(self)@ == write_flow(old(self)@, addr, data@).1,
            follows(r, write_flow(old(self)@, addr, data@).0),
    {
        match self.ask(Request::Write { addr, data })? {
            Reply::Written(r) => Ok(*r),
            _ => Ok(Err(0)),
        }
    }

    /// Reports a step.
    pub(crate) fn step(&mut self, text: String)
        requires
            old(self).wf(),
        ensures
            final(self).wf(),
            final(self)@ == (Talk { steps: old(self)@.steps.push(text@), ..old(self)@ }),
    {
        self.steps.push(text);
        assert(texts(self.steps@) =~= texts(old(self).steps@).push(text@));
    }

    /// The steps reported.
    pub(crate) fn into_steps(self) -> (r: Vec<String>)
        ensures
            texts(r@) == self@.steps,
    {
        self.steps
    }
}

} // verus!
