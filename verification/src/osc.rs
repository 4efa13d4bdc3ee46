//! OSC content in memory, and the byte layout it stands for.
//!
//! Floats travel as their IEEE-754 bit pattern: the codec moves the four
//! bytes and leaves their meaning to whoever does arithmetic on them.

use vstd::prelude::*;
use crate::wire::word_bytes;

verus! {

pub const TAG_INT: u8 = 0x69;

pub const TAG_FLOAT: u8 = 0x66;

pub const TAG_STR: u8 = 0x73;

pub const TAG_BLOB: u8 = 0x62;

pub const COMMA: u8 = 0x2c;

pub const SLASH: u8 = 0x2f;

/// One typed argument of a message.
#[derive(Debug, Clone, PartialEq, Eq)]
pub enum OscArg {
    Int(i32),
    /// The bit pattern of a 32-bit float.
    Float(u32),
    Str(Vec<u8>),
    Blob(Vec<u8>),
}

/// A message: an address pattern and its arguments, in order.
#[derive(Debug, Clone, PartialEq, Eq)]
pub struct OscMessage {
    pub address: Vec<u8>,
    pub args: Vec<OscArg>,
}

/// The timestamp of a bundle: seconds since the epoch and a binary fraction.
/// Seconds 0 with fraction 1 means "immediately".
#[derive(Debug, Clone, Copy, PartialEq, Eq, Structural)]
pub struct TimeTag {
    pub seconds: u32,
    pub fraction: u32,
}

impl TimeTag {
    /// The timestamp that means "immediately".
    pub open spec fn now() -> TimeTag {
        TimeTag { seconds: 0, fraction: 1 }
    }

    /// The timestamp that means "immediately".
    pub fn immediate() -> (t: TimeTag)
        ensures
            t == TimeTag::now(),
    {
        TimeTag { seconds: 0, fraction: 1 }
    }

    /// Whether this timestamp means "immediately".
    pub fn is_immediate(&self) -> (r: bool)
        ensures
            r == (*self == TimeTag::now()),
    {
        self.seconds == 0 && self.fraction == 1
    }
}

/// The mathematical value of an argument.
pub enum Arg {
    Int(i32),
    Float(u32),
    Str(Seq<u8>),
    Blob(Seq<u8>),
}

/// The mathematical value of a message.
pub struct Message {
    pub address: Seq<u8>,
    pub args: Seq<Arg>,
}

impl View for OscArg {
    type V = Arg;

    open spec fn view(&self) -> Arg {
        match *self {
            OscArg::Int(i) => Arg::Int(i),
            OscArg::Float(w) => Arg::Float(w),
            OscArg::Str(s) => Arg::Str(s@),
            OscArg::Blob(b) => Arg::Blob(b@),
        }
    }
}

/// The values of a run of arguments.
pub open spec fn args_view(v: Seq<OscArg>) -> Seq<Arg> {
    Seq::new(v.len(), |i: int| v[i]@)
}

impl View for OscMessage {
    type V = Message;

    open spec fn view(&self) -> Message {
        Message { address: self.address@, args: args_view(self.args@) }
    }
}

/// The values of a run of messages.
pub open spec fn messages_view(v: Seq<OscMessage>) -> Seq<Message> {
    Seq::new(v.len(), |i: int| v[i]@)
}

/// `n` zero bytes.
pub open spec fn zeros(n: int) -> Seq<u8> {
    Seq::new(n as nat, |i: int| 0u8)
}

/// How many zero bytes follow a string of `n` bytes: at least the
/// terminator, at most four, ending on a 4-byte boundary.
pub open spec fn str_pad(n: int) -> int {
    4 - n % 4
}

/// How many zero bytes follow a blob of `n` bytes: none if it already ends on
/// a 4-byte boundary.
pub open spec fn blob_pad(n: int) -> int {
    (4 - n % 4) % 4
}

/// No byte of `s` is zero.
pub open spec fn plain(s: Seq<u8>) -> bool {
    forall|i: int| 0 <= i < s.len() ==> s[i] != 0
}

pub open spec fn enc_str(s: Seq<u8>) -> Seq<u8> {
    s + zeros(str_pad(s.len() as int))
}

pub open spec fn enc_blob(b: Seq<u8>) -> Seq<u8> {
    word_bytes(b.len() as u32) + b + zeros(blob_pad(b.len() as int))
}

pub open spec fn tag_of(a: Arg) -> u8 {
    match a {
        Arg::Int(_) => TAG_INT,
        Arg::Float(_) => TAG_FLOAT,
        Arg::Str(_) => TAG_STR,
        Arg::Blob(_) => TAG_BLOB,
    }
}

pub open spec fn enc_arg(a: Arg) -> Seq<u8> {
    match a {
        Arg::Int(i) => word_bytes(i as u32),
        Arg::Float(w) => word_bytes(w),
        Arg::Str(s) => enc_str(s),
        Arg::Blob(b) => enc_blob(b),
    }
}

/// The type-tag string of a run of arguments: a comma, then one tag each.
pub open spec fn tags_of(args: Seq<Arg>) -> Seq<u8> {
    seq![COMMA] + Seq::new(args.len(), |i: int| tag_of(args[i]))
}

/// The encodings of `args[from..]`, back to back.
pub open spec fn enc_args(args: Seq<Arg>, from: int) -> Seq<u8>
    decreases args.len() - from,
{
    if 0 <= from < args.len() {
        enc_arg(args[from]) + enc_args(args, from + 1)
    } else {
        Seq::empty()
    }
}

pub open spec fn enc_message(m: Message) -> Seq<u8> {
    enc_str(m.address) + enc_str(tags_of(m.args)) + enc_args(m.args, 0)
}

/// An argument that has an encoding: strings hold no zero byte, and a blob's
/// length fits the signed 32-bit size that precedes it.
pub open spec fn arg_ok(a: Arg) -> bool {
    match a {
        Arg::Int(_) => true,
        Arg::Float(_) => true,
        Arg::Str(s) => plain(s),
        Arg::Blob(b) => b.len() <= i32::MAX,
    }
}

/// A message that has an encoding: its address starts with a slash and holds
/// no zero byte, and each argument has an encoding.
pub open spec fn message_ok(m: Message) -> bool {
    &&& m.address.len() > 0
    &&& m.address[0] == SLASH
    &&& plain(m.address)
    &&& forall|i: int| 0 <= i < m.args.len() ==> arg_ok(#[trigger] m.args[i])
}

} // verus!
