//! Telling TUIO messages apart: which address belongs to which kind of
//! entity, and what the arguments of a message say.
//!
//! A message for a kind carries a command word first: `source`, `set`,
//! `alive` or `fseq`. A `set` carries the session id, the observed
//! attributes of the kind, and the sender's own estimate of the motion. The
//! estimate must be there and well typed, and is then left aside: this engine
//! derives motion from successive observations.

use vstd::prelude::*;
use vstd::slice::slice_to_vec;
use crate::blob::Blob;
use crate::cursor::{Cursor, Position};
use crate::errors::TuioError;
use crate::object::Object;
use crate::osc::{args_view, Arg, Message, OscArg, OscMessage};

verus! {

/// A TUIO message, told apart by its command word.
#[derive(Debug, Clone, PartialEq, Eq)]
pub enum TuioMessage<A> {
    /// The name of the sender.
    Source(Vec<u8>),
    /// A `set`: one entity as observed in this frame, under its session id.
    Observed(i32, A),
    /// The session ids present in this frame.
    Alive(Vec<i32>),
    /// The sequence number of this frame, or a negative number for none.
    Fseq(i32),
}

/// The mathematical value of a TUIO message.
pub enum Signal<A> {
    Source(Seq<u8>),
    Observed(i32, A),
    Alive(Seq<i32>),
    Fseq(i32),
}

impl<A> View for TuioMessage<A> {
    type V = Signal<A>;

    open spec fn view(&self) -> Signal<A> {
        match *self {
            TuioMessage::Source(name) => Signal::Source(name@),
            TuioMessage::Observed(id, a) => Signal::Observed(id, a),
            TuioMessage::Alive(ids) => Signal::Alive(ids@),
            TuioMessage::Fseq(f) => Signal::Fseq(f),
        }
    }
}

/// The bytes of `source`.
pub open spec fn word_source() -> Seq<u8> {
    seq![0x73u8, 0x6fu8, 0x75u8, 0x72u8, 0x63u8, 0x65u8]
}

/// The bytes of `set`.
pub open spec fn word_set() -> Seq<u8> {
    seq![0x73u8, 0x65u8, 0x74u8]
}

/// The bytes of `alive`.
pub open spec fn word_alive() -> Seq<u8> {
    seq![0x61u8, 0x6cu8, 0x69u8, 0x76u8, 0x65u8]
}

/// The bytes of `fseq`.
pub open spec fn word_fseq() -> Seq<u8> {
    seq![0x66u8, 0x73u8, 0x65u8, 0x71u8]
}

/// The bytes of `/tuio/2Dcur`.
pub open spec fn cursor_address() -> Seq<u8> {
    seq![
        0x2fu8, 0x74u8, 0x75u8, 0x69u8, 0x6fu8, 0x2fu8, 0x32u8, 0x44u8, 0x63u8, 0x75u8, 0x72u8,
    ]
}

/// The bytes of `/tuio/2Dobj`.
pub open spec fn object_address() -> Seq<u8> {
    seq![
        0x2fu8, 0x74u8, 0x75u8, 0x69u8, 0x6fu8, 0x2fu8, 0x32u8, 0x44u8, 0x6fu8, 0x62u8, 0x6au8,
    ]
}

/// The bytes of `/tuio/2Dblb`.
pub open spec fn blob_address() -> Seq<u8> {
    seq![
        0x2fu8, 0x74u8, 0x75u8, 0x69u8, 0x6fu8, 0x2fu8, 0x32u8, 0x44u8, 0x62u8, 0x6cu8, 0x62u8,
    ]
}

/// The integer that `a` holds, if it is one.
pub open spec fn int_of(a: Arg) -> i32 {
    match a {
        Arg::Int(i) => i,
        _ => 0,
    }
}

/// The float bits that `a` holds, if it is a float.
pub open spec fn float_of(a: Arg) -> u32 {
    match a {
        Arg::Float(w) => w,
        _ => 0,
    }
}

/// The bytes that `a` holds, if it is a string.
pub open spec fn str_of(a: Arg) -> Seq<u8> {
    match a {
        Arg::Str(s) => s,
        _ => Seq::empty(),
    }
}

/// Every argument from `from` on is an integer.
pub open spec fn all_ints(args: Seq<Arg>, from: int) -> bool {
    forall|i: int| from <= i < args.len() ==> #[trigger] args[i] is Int
}

/// Every argument from `from` on is a float.
pub open spec fn all_floats(args: Seq<Arg>, from: int) -> bool {
    forall|i: int| from <= i < args.len() ==> #[trigger] args[i] is Float
}

/// The integers that the arguments from the second on hold.
pub open spec fn ids_of(args: Seq<Arg>) -> Seq<i32> {
    Seq::new((args.len() - 1) as nat, |i: int| int_of(args[i + 1]))
}

/// A kind of entity: the address its messages go to, and the layout of its
/// `set` message.
pub trait Profile: Sized {
    /// The address pattern of this kind.
    spec fn address() -> Seq<u8>;

    /// What the arguments of a `set` message say, command word included: the
    /// session id and the entity as observed, at rest. `None` where the
    /// arguments are not those of this kind.
    spec fn from_set(args: Seq<Arg>) -> Option<(i32, Self)>;

    fn has_address(address: &[u8]) -> (r: bool)
        ensures
            r == (address@ == Self::address()),
    ;

    fn read_set(args: &Vec<OscArg>) -> (r: Option<(i32, Self)>)
        ensures
            r == Self::from_set(args_view(args@)),
    ;
}

/// Whether two runs of bytes are the same.
pub fn same_bytes(a: &[u8], b: &[u8]) -> (r: bool)
    ensures
        r == (a@ == b@),
{
    if a.len() != b.len() {
        return false;
    }
    let mut k: usize = 0;
    while k < a.len()
        invariant
            k <= a@.len(),
            a@.len() == b@.len(),
            forall|i: int| 0 <= i < k ==> a@[i] == b@[i],
        decreases a@.len() - k,
    {
        if a[k] != b[k] {
            return false;
        }
        k += 1;
    }
    assert(a@ =~= b@);
    true
}

fn floats_from(args: &Vec<OscArg>, from: usize) -> (r: bool)
    ensures
        r == all_floats(args_view(args@), from as int),
{
    let mut k: usize = from;
    while k < args.len()
        invariant
            from <= k,
            forall|i: int| from <= i < k && i < args@.len() ==> #[trigger] args_view(args@)[i] is Float,
        decreases args@.len() - k,
    {
        match &args[k] {
            OscArg::Float(_) => {},
            _ => {
                assert(!(args_view(args@)[k as int] is Float));
                return false;
            },
        }
        k += 1;
    }
    true
}

fn int_at(args: &Vec<OscArg>, i: usize) -> (r: Option<i32>)
    requires
        i < args@.len(),
    ensures
        r is Some <==> args_view(args@)[i as int] is Int,
        r matches Some(v) ==> v == int_of(args_view(args@)[i as int]),
{
    match &args[i] {
        OscArg::Int(v) => Some(*v),
        _ => None,
    }
}

fn float_at(args: &Vec<OscArg>, i: usize) -> (r: u32)
    requires
        i < args@.len(),
    ensures
        r == float_of(args_view(args@)[i as int]),
{
    match &args[i] {
        OscArg::Float(w) => *w,
        _ => 0,
    }
}

impl Profile for Cursor {
    open spec fn address() -> Seq<u8> {
        cursor_address()
    }

    /// `set s x y X Y m`: an integer, then five floats.
    open spec fn from_set(args: Seq<Arg>) -> Option<(i32, Cursor)> {
        if args.len() == 7 && args[1] is Int && all_floats(args, 2) {
            let id = int_of(args[1]);
            let position = Position { x: float_of(args[2]), y: float_of(args[3]) };
            Some((id, Cursor::fresh(id, position)))
        } else {
            None
        }
    }

    fn has_address(address: &[u8]) -> (r: bool) {
        let text: [u8; 11] = [0x2f, 0x74, 0x75, 0x69, 0x6f, 0x2f, 0x32, 0x44, 0x63, 0x75, 0x72];
        assert(text@ =~= cursor_address());
        same_bytes(address, text.as_slice())
    }

    fn read_set(args: &Vec<OscArg>) -> (r: Option<(i32, Cursor)>) {
        if args.len() != 7 || !floats_from(args, 2) {
            return None;
        }
        match int_at(args, 1) {
            Some(id) => {
                let position = Position { x: float_at(args, 2), y: float_at(args, 3) };
                Some((id, Cursor::new(id, position)))
            },
            None => None,
        }
    }
}

impl Profile for Object {
    open spec fn address() -> Seq<u8> {
        object_address()
    }

    /// `set s i x y a X Y A m r`: two integers, then eight floats.
    open spec fn from_set(args: Seq<Arg>) -> Option<(i32, Object)> {
        if args.len() == 11 && args[1] is Int && args[2] is Int && all_floats(args, 3) {
            let id = int_of(args[1]);
            let position = Position { x: float_of(args[3]), y: float_of(args[4]) };
            Some((id, Object::fresh(id, int_of(args[2]), position, float_of(args[5]))))
        } else {
            None
        }
    }

    fn has_address(address: &[u8]) -> (r: bool) {
        let text: [u8; 11] = [0x2f, 0x74, 0x75, 0x69, 0x6f, 0x2f, 0x32, 0x44, 0x6f, 0x62, 0x6a];
        assert(text@ =~= object_address());
        same_bytes(address, text.as_slice())
    }

    fn read_set(args: &Vec<OscArg>) -> (r: Option<(i32, Object)>) {
        if args.len() != 11 || !floats_from(args, 3) {
            return None;
        }
        let id: i32 = match int_at(args, 1) {
            Some(v) => v,
            None => { return None; },
        };
        let class_id: i32 = match int_at(args, 2) {
            Some(v) => v,
            None => { return None; },
        };
        let position = Position { x: float_at(args, 3), y: float_at(args, 4) };
        Some((id, Object::new(id, class_id, position, float_at(args, 5))))
    }
}

impl Profile for Blob {
    open spec fn address() -> Seq<u8> {
        blob_address()
    }

    /// `set s x y a w h f X Y A m r`: an integer, then eleven floats.
    open spec fn from_set(args: Seq<Arg>) -> Option<(i32, Blob)> {
        if args.len() == 13 && args[1] is Int && all_floats(args, 2) {
            let id = int_of(args[1]);
            let position = Position { x: float_of(args[2]), y: float_of(args[3]) };
            Some(
                (
                    id,
                    Blob::fresh(
                        id,
                        position,
                        float_of(args[4]),
                        float_of(args[5]),
                        float_of(args[6]),
                        float_of(args[7]),
                    ),
                ),
            )
        } else {
            None
        }
    }

    fn has_address(address: &[u8]) -> (r: bool) {
        let text: [u8; 11] = [0x2f, 0x74, 0x75, 0x69, 0x6f, 0x2f, 0x32, 0x44, 0x62, 0x6c, 0x62];
        assert(text@ =~= blob_address());
        same_bytes(address, text.as_slice())
    }

    fn read_set(args: &Vec<OscArg>) -> (r: Option<(i32, Blob)>) {
        if args.len() != 13 || !floats_from(args, 2) {
            return None;
        }
        match int_at(args, 1) {
            Some(id) => {
                let position = Position { x: float_at(args, 2), y: float_at(args, 3) };
                Some(
                    (
                        id,
                        Blob::new(
                            id,
                            position,
                            float_at(args, 4),
                            float_at(args, 5),
                            float_at(args, 6),
                            float_at(args, 7),
                        ),
                    ),
                )
            },
            None => None,
        }
    }
}

/// What a message says to the engine for the kind `P`.
///
/// A message for another address is unknown. One for this address must open
/// with a command word and carry what that word calls for: `source` a name,
/// `alive` integers only, `fseq` one integer, `set` the layout of the kind.
/// Anything else under this address is a format error.
pub open spec fn recognized<P: Profile>(m: Message) -> Result<Signal<P>, TuioError> {
    if m.address != P::address() {
        Err(TuioError::UnknownAddress)
    } else if m.args.len() == 0 || !(m.args[0] is Str) {
        Err(TuioError::FormatError)
    } else {
        let word = str_of(m.args[0]);
        if word == word_source() {
            if m.args.len() == 2 && m.args[1] is Str {
                Ok(Signal::Source(str_of(m.args[1])))
            } else {
                Err(TuioError::FormatError)
            }
        } else if word == word_alive() {
            if all_ints(m.args, 1) {
                Ok(Signal::Alive(ids_of(m.args)))
            } else {
                Err(TuioError::FormatError)
            }
        } else if word == word_fseq() {
            if m.args.len() == 2 && m.args[1] is Int {
                Ok(Signal::Fseq(int_of(m.args[1])))
            } else {
                Err(TuioError::FormatError)
            }
        } else if word == word_set() {
            match P::from_set(m.args) {
                Some((id, a)) => Ok(Signal::Observed(id, a)),
                None => Err(TuioError::FormatError),
            }
        } else {
            Err(TuioError::FormatError)
        }
    }
}

fn read_ids(args: &Vec<OscArg>) -> (r: Option<Vec<i32>>)
    requires
        args@.len() >= 1,
    ensures
        r is Some <==> all_ints(args_view(args@), 1),
        r matches Some(ids) ==> ids@ == ids_of(args_view(args@)),
{
    let mut ids: Vec<i32> = Vec::new();
    let mut k: usize = 1;
    while k < args.len()
        invariant
            1 <= k <= args@.len(),
            ids@.len() == k - 1,
            forall|i: int| 1 <= i < k ==> #[trigger] args_view(args@)[i] is Int,
            forall|i: int| 0 <= i < k - 1 ==> ids@[i] == int_of(args_view(args@)[i + 1]),
        decreases args@.len() - k,
    {
        match int_at(args, k) {
            Some(v) => {
                ids.push(v);
            },
            None => {
                assert(!(args_view(args@)[k as int] is Int));
                return None;
            },
        }
        k += 1;
    }
    assert(ids@ =~= ids_of(args_view(args@)));
    Some(ids)
}

/// Tells what `m` says to the engine for the kind `P`.
pub fn recognize<P: Profile>(m: &OscMessage) -> (r: Result<TuioMessage<P>, TuioError>)
    ensures
        match r {
            Ok(t) => recognized::<P>(m@) == Ok::<Signal<P>, TuioError>(t@),
            Err(e) => recognized::<P>(m@) == Err::<Signal<P>, TuioError>(e),
        },
{
    if !P::has_address(m.address.as_slice()) {
        return Err(TuioError::UnknownAddress);
    }
    if m.args.len() == 0 {
        return Err(TuioError::FormatError);
    }
    let ghost args = args_view(m.args@);
    assert(args[0] == m.args@[0]@);
    let word: &Vec<u8> = match &m.args[0] {
        OscArg::Str(w) => w,
        _ => { return Err(TuioError::FormatError); },
    };
    assert(word@ == str_of(args[0]));
    let source: [u8; 6] = [0x73, 0x6f, 0x75, 0x72, 0x63, 0x65];
    let alive: [u8; 5] = [0x61, 0x6c, 0x69, 0x76, 0x65];
    let fseq: [u8; 4] = [0x66, 0x73, 0x65, 0x71];
    let set: [u8; 3] = [0x73, 0x65, 0x74];
    assert(source@ =~= word_source());
    assert(alive@ =~= word_alive());
    assert(fseq@ =~= word_fseq());
    assert(set@ =~= word_set());
    if same_bytes(word.as_slice(), source.as_slice()) {
        if m.args.len() != 2 {
            return Err(TuioError::FormatError);
        }
        assert(args[1] == m.args@[1]@);
        match &m.args[1] {
            OscArg::Str(name) => Ok(TuioMessage::Source(slice_to_vec(name.as_slice()))),
            _ => Err(TuioError::FormatError),
        }
    } else if same_bytes(word.as_slice(), alive.as_slice()) {
        match read_ids(&m.args) {
            Some(ids) => Ok(TuioMessage::Alive(ids)),
            None => Err(TuioError::FormatError),
        }
    } else if same_bytes(word.as_slice(), fseq.as_slice()) {
        if m.args.len() != 2 {
            return Err(TuioError::FormatError);
        }
        match int_at(&m.args, 1) {
            Some(f) => Ok(TuioMessage::Fseq(f)),
            None => Err(TuioError::FormatError),
        }
    } else if same_bytes(word.as_slice(), set.as_slice()) {
        match P::read_set(&m.args) {
            Some((id, a)) => Ok(TuioMessage::Observed(id, a)),
            None => Err(TuioError::FormatError),
        }
    } else {
        Err(TuioError::FormatError)
    }
}

} // verus!
