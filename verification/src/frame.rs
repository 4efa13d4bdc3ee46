//! A frame: what the messages of one packet say about one kind of entity,
//! gathered so that the order in which they came no longer matters.

use vstd::prelude::*;
use crate::errors::TuioError;
use crate::osc::{messages_view, Message, OscMessage};
use crate::profile::{recognize, recognized, Profile, Signal, TuioMessage};

verus! {

/// The sequence number of a frame that carries none.
pub const NO_SEQUENCE: i32 = -1;

/// What one frame says: who sent it, which entities it describes, which
/// sessions it declares alive, and its place in the sender's sequence.
#[derive(Debug, Clone, PartialEq, Eq)]
pub struct Frame<A> {
    /// The sender's name, if the frame gives one.
    pub source: Option<Vec<u8>>,
    /// The entities described, each under its session id, in the order of
    /// their `set` messages.
    pub sets: Vec<(i32, A)>,
    /// The sessions declared alive, if the frame has an alive list. An empty
    /// list is not a missing one.
    pub alive: Option<Vec<i32>>,
    /// The sequence number, negative where the frame is not sequenced.
    pub fseq: i32,
}

/// The mathematical value of a frame.
pub struct FrameModel<A> {
    pub source: Option<Seq<u8>>,
    pub sets: Seq<(i32, A)>,
    pub alive: Option<Seq<i32>>,
    pub fseq: i32,
}

/// A message that was set aside: its position in the packet, and why.
#[derive(Debug, Clone, Copy, PartialEq, Eq, Structural)]
pub struct Fault {
    pub index: usize,
    pub error: TuioError,
}

impl<A> FrameModel<A> {
    /// The frame that says nothing.
    pub open spec fn empty() -> FrameModel<A> {
        FrameModel { source: None, sets: Seq::empty(), alive: None, fseq: NO_SEQUENCE }
    }

    /// This frame after one more message: a `set` joins the others, a
    /// `source`, an `alive` or an `fseq` replaces what was there.
    pub open spec fn absorb(self, s: Signal<A>) -> FrameModel<A> {
        match s {
            Signal::Source(name) => FrameModel { source: Some(name), ..self },
            Signal::Observed(id, a) => FrameModel { sets: self.sets.push((id, a)), ..self },
            Signal::Alive(ids) => FrameModel { alive: Some(ids), ..self },
            Signal::Fseq(f) => FrameModel { fseq: f, ..self },
        }
    }
}

impl<A> View for Frame<A> {
    type V = FrameModel<A>;

    open spec fn view(&self) -> FrameModel<A> {
        FrameModel {
            source: match self.source {
                Some(name) => Some(name@),
                None => None,
            },
            sets: self.sets@,
            alive: match self.alive {
                Some(ids) => Some(ids@),
                None => None,
            },
            fseq: self.fseq,
        }
    }
}

impl<A> Frame<A> {
    /// The frame that says nothing.
    pub fn new() -> (f: Frame<A>)
        ensures
            f@ == FrameModel::<A>::empty(),
    {
        Frame { source: None, sets: Vec::new(), alive: None, fseq: NO_SEQUENCE }
    }

    /// Takes one more message into the frame.
    pub fn push(&mut self, m: TuioMessage<A>)
        ensures
            final(self)@ == old(self)@.absorb(m@),
    {
        match m {
            TuioMessage::Source(name) => {
                self.source = Some(name);
            },
            TuioMessage::Observed(id, a) => {
                self.sets.push((id, a));
            },
            TuioMessage::Alive(ids) => {
                self.alive = Some(ids);
            },
            TuioMessage::Fseq(f) => {
                self.fseq = f;
            },
        }
    }
}

/// What the first `n` messages of a packet say about the kind `P`: each
/// message that is recognized is taken in, the others are passed over.
pub open spec fn gathered<P: Profile>(ms: Seq<Message>, n: int) -> FrameModel<P>
    decreases n,
{
    if n <= 0 {
        FrameModel::empty()
    } else {
        match recognized::<P>(ms[n - 1]) {
            Ok(s) => gathered::<P>(ms, n - 1).absorb(s),
            Err(_) => gathered::<P>(ms, n - 1),
        }
    }
}

/// The messages among the first `n` that are addressed to the kind `P` and
/// malformed, in order. Messages for other addresses are no fault.
pub open spec fn faults<P: Profile>(ms: Seq<Message>, n: int) -> Seq<Fault>
    decreases n,
{
    if n <= 0 {
        Seq::empty()
    } else {
        match recognized::<P>(ms[n - 1]) {
            Err(TuioError::FormatError) => faults::<P>(ms, n - 1).push(
                Fault { index: (n - 1) as usize, error: TuioError::FormatError },
            ),
            _ => faults::<P>(ms, n - 1),
        }
    }
}

/// Gathers the messages of one packet into a frame for the kind `P`.
///
/// A malformed message for this kind is reported and dropped alone; the rest
/// of the frame stands. A message for another address is skipped in silence.
pub fn assemble<P: Profile>(ms: &Vec<OscMessage>) -> (r: (Frame<P>, Vec<Fault>))
    ensures
        r.0@ == gathered::<P>(messages_view(ms@), ms@.len() as int),
        r.1@ == faults::<P>(messages_view(ms@), ms@.len() as int),
{
    let mut frame: Frame<P> = Frame::new();
    let mut found: Vec<Fault> = Vec::new();
    let mut k: usize = 0;
    while k < ms.len()
        invariant
            k <= ms@.len(),
            frame@ == gathered::<P>(messages_view(ms@), k as int),
            found@ == faults::<P>(messages_view(ms@), k as int),
        decreases ms@.len() - k,
    {
        assert(messages_view(ms@)[k as int] == ms@[k as int]@);
        match recognize::<P>(&ms[k]) {
            Ok(t) => {
                frame.push(t);
            },
            Err(TuioError::FormatError) => {
                found.push(Fault { index: k, error: TuioError::FormatError });
            },
            Err(_) => {},
        }
        k += 1;
    }
    (frame, found)
}

} // verus!
