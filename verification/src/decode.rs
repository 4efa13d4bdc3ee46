//! From bytes to messages.
//!
//! The grammar is strict: a string ends with one to four zero bytes and not
//! one more, a blob is padded with as few zero bytes as reach the boundary,
//! a message fills its packet. So each accepted packet has one reading, and
//! each message one encoding.

use vstd::prelude::*;
use vstd::slice::{slice_subrange, slice_to_vec};
use crate::codec_laws::lemma_encode_decode_message;
use crate::encode::bundle_marker;
use crate::errors::TuioError;
use crate::osc::{
    args_view, blob_pad, enc_message, message_ok, messages_view, str_pad, Arg, Message, OscArg,
    OscMessage, TimeTag, COMMA, SLASH, TAG_BLOB, TAG_FLOAT, TAG_INT, TAG_STR,
};
use crate::wire::{get_word, word_of};

verus! {

/// The first position at or after `from` that holds a zero byte, or the end
/// of `b` if none does.
pub open spec fn nul_from(b: Seq<u8>, from: int) -> int
    decreases b.len() - from,
{
    if 0 <= from < b.len() && b[from] != 0 {
        nul_from(b, from + 1)
    } else {
        from
    }
}

/// Every byte of `b[lo..hi]` is zero.
pub open spec fn all_zero(b: Seq<u8>, lo: int, hi: int) -> bool {
    forall|i: int| lo <= i < hi ==> b[i] == 0
}

/// The big-endian word at `at`.
pub open spec fn dec_word(b: Seq<u8>, at: int) -> u32 {
    word_of(b[at], b[at + 1], b[at + 2], b[at + 3])
}

/// The padded string at `at`, and where the next field starts.
pub open spec fn dec_str(b: Seq<u8>, at: int) -> Option<(Seq<u8>, int)> {
    let end = nul_from(b, at);
    let next = end + str_pad(end - at);
    if 0 <= at <= b.len() && next <= b.len() && all_zero(b, end, next) {
        Some((b.subrange(at, end), next))
    } else {
        None
    }
}

/// The sized, padded blob at `at`, and where the next field starts.
pub open spec fn dec_blob(b: Seq<u8>, at: int) -> Option<(Seq<u8>, int)> {
    if 0 <= at && at + 4 <= b.len() {
        let n = dec_word(b, at) as i32;
        let end = at + 4 + n;
        let next = end + blob_pad(n as int);
        if 0 <= n && next <= b.len() && all_zero(b, end, next) {
            Some((b.subrange(at + 4, end), next))
        } else {
            None
        }
    } else {
        None
    }
}

/// The argument of type `tag` at `at`, and where the next field starts.
pub open spec fn dec_arg(b: Seq<u8>, tag: u8, at: int) -> Option<(Arg, int)> {
    if tag == TAG_INT {
        if 0 <= at && at + 4 <= b.len() {
            Some((Arg::Int(dec_word(b, at) as i32), at + 4))
        } else {
            None
        }
    } else if tag == TAG_FLOAT {
        if 0 <= at && at + 4 <= b.len() {
            Some((Arg::Float(dec_word(b, at)), at + 4))
        } else {
            None
        }
    } else if tag == TAG_STR {
        match dec_str(b, at) {
            Some((s, next)) => Some((Arg::Str(s), next)),
            None => None,
        }
    } else if tag == TAG_BLOB {
        match dec_blob(b, at) {
            Some((d, next)) => Some((Arg::Blob(d), next)),
            None => None,
        }
    } else {
        None
    }
}

/// `pre` in front of the arguments that `r` found, if it found any.
pub open spec fn graft(pre: Seq<Arg>, r: Option<(Seq<Arg>, int)>) -> Option<(Seq<Arg>, int)> {
    match r {
        Some((rest, end)) => Some((pre + rest, end)),
        None => None,
    }
}

/// The arguments for `tags[k..]`, read back to back from `at`, and where
/// they end.
pub open spec fn dec_args(b: Seq<u8>, tags: Seq<u8>, k: int, at: int) -> Option<(Seq<Arg>, int)>
    decreases tags.len() - k,
{
    if 0 <= k < tags.len() {
        match dec_arg(b, tags[k], at) {
            Some((a, next)) => graft(seq![a], dec_args(b, tags, k + 1, next)),
            None => None,
        }
    } else {
        Some((Seq::empty(), at))
    }
}

/// The message that fills `b`.
pub open spec fn dec_message(b: Seq<u8>) -> Option<Message> {
    match dec_str(b, 0) {
        Some((address, tags_at)) => {
            if address.len() > 0 && address[0] == SLASH {
                match dec_str(b, tags_at) {
                    Some((tags, args_at)) => {
                        if tags.len() > 0 && tags[0] == COMMA {
                            match dec_args(b, tags, 1, args_at) {
                                Some((args, end)) => {
                                    if end == b.len() {
                                        Some(Message { address, args })
                                    } else {
                                        None
                                    }
                                },
                                None => None,
                            }
                        } else {
                            None
                        }
                    },
                    None => None,
                }
            } else {
                None
            }
        },
        None => None,
    }
}

/// `b` opens with the bundle marker.
pub open spec fn is_bundle(b: Seq<u8>) -> bool {
    b.len() >= 8 && b.subrange(0, 8) == bundle_marker()
}

/// `pre` in front of the messages that `r` found, if it found any.
pub open spec fn join(pre: Seq<Message>, r: Option<Seq<Message>>) -> Option<Seq<Message>> {
    match r {
        Some(rest) => Some(pre + rest),
        None => None,
    }
}

/// The messages of the packet that fills `b`: the one message, or the
/// messages of a bundle's elements, each element read the same way, in
/// order.
pub open spec fn dec_packet(b: Seq<u8>) -> Option<Seq<Message>>
    decreases b.len(), b.len() + 1,
{
    if is_bundle(b) {
        if b.len() >= 16 {
            dec_elements(b, 16)
        } else {
            None
        }
    } else {
        match dec_message(b) {
            Some(m) => Some(seq![m]),
            None => None,
        }
    }
}

/// The messages of the bundle elements that fill `b[at..]`.
pub open spec fn dec_elements(b: Seq<u8>, at: int) -> Option<Seq<Message>>
    decreases b.len(), b.len() - at,
{
    if at == b.len() {
        Some(Seq::empty())
    } else if 0 <= at && at + 4 <= b.len() {
        let n = dec_word(b, at) as i32;
        if 0 <= n && at + 4 + n <= b.len() {
            match dec_packet(b.subrange(at + 4, at + 4 + n)) {
                Some(ms) => join(ms, dec_elements(b, at + 4 + n)),
                None => None,
            }
        } else {
            None
        }
    } else {
        None
    }
}

/// The timestamp of the bundle that `b` opens as, if it opens as one.
pub open spec fn dec_timetag(b: Seq<u8>) -> Option<TimeTag> {
    if is_bundle(b) && b.len() >= 16 {
        Some(TimeTag { seconds: dec_word(b, 8), fraction: dec_word(b, 12) })
    } else {
        None
    }
}

/// From `at` on, `b` holds well-sized elements that are messages, not
/// bundles: the bundle is one level deep.
pub open spec fn flat_from(b: Seq<u8>, at: int) -> bool
    decreases b.len() - at,
{
    if 0 <= at && at + 4 <= b.len() {
        let n = dec_word(b, at) as i32;
        0 <= n && at + 4 + n <= b.len() && !is_bundle(b.subrange(at + 4, at + 4 + n)) && flat_from(
            b,
            at + 4 + n,
        )
    } else {
        true
    }
}

fn zero_run(b: &[u8], lo: usize, hi: usize) -> (r: bool)
    requires
        lo <= hi <= b@.len(),
    ensures
        r == all_zero(b@, lo as int, hi as int),
{
    let mut k: usize = lo;
    while k < hi
        invariant
            lo <= k <= hi <= b@.len(),
            all_zero(b@, lo as int, k as int),
        decreases hi - k,
    {
        if b[k] != 0 {
            return false;
        }
        k += 1;
    }
    true
}

fn read_str(b: &[u8], at: usize) -> (r: Option<(Vec<u8>, usize)>)
    requires
        at <= b@.len(),
    ensures
        match r {
            Some((s, next)) => dec_str(b@, at as int) == Some((s@, next as int)) && next
                <= b@.len(),
            None => dec_str(b@, at as int) is None,
        },
{
    let mut end: usize = at;
    while end < b.len() && b[end] != 0
        invariant
            at <= end <= b@.len(),
            nul_from(b@, at as int) == nul_from(b@, end as int),
        decreases b@.len() - end,
    {
        end += 1;
    }
    let pad: usize = 4 - (end - at) % 4;
    if b.len() - end < pad {
        return None;
    }
    let next: usize = end + pad;
    if !zero_run(b, end, next) {
        return None;
    }
    let s = slice_to_vec(slice_subrange(b, at, end));
    Some((s, next))
}

fn read_blob(b: &[u8], at: usize) -> (r: Option<(Vec<u8>, usize)>)
    requires
        at <= b@.len(),
    ensures
        match r {
            Some((d, next)) => dec_blob(b@, at as int) == Some((d@, next as int)) && next
                <= b@.len(),
            None => dec_blob(b@, at as int) is None,
        },
{
    if b.len() - at < 4 {
        return None;
    }
    let n: i32 = #[verifier::truncate] (get_word(b, at) as i32);
    if n < 0 {
        return None;
    }
    let size: usize = n as usize;
    let start: usize = at + 4;
    if b.len() - start < size {
        return None;
    }
    let end: usize = start + size;
    let pad: usize = (4 - size % 4) % 4;
    if b.len() - end < pad {
        return None;
    }
    let next: usize = end + pad;
    if !zero_run(b, end, next) {
        return None;
    }
    let d = slice_to_vec(slice_subrange(b, start, end));
    Some((d, next))
}

fn read_arg(b: &[u8], tag: u8, at: usize) -> (r: Option<(OscArg, usize)>)
    requires
        at <= b@.len(),
    ensures
        match r {
            Some((a, next)) => dec_arg(b@, tag, at as int) == Some((a@, next as int)) && next
                <= b@.len(),
            None => dec_arg(b@, tag, at as int) is None,
        },
{
    if tag == TAG_INT {
        if b.len() - at < 4 {
            return None;
        }
        Some((OscArg::Int(#[verifier::truncate] (get_word(b, at) as i32)), at + 4))
    } else if tag == TAG_FLOAT {
        if b.len() - at < 4 {
            return None;
        }
        Some((OscArg::Float(get_word(b, at)), at + 4))
    } else if tag == TAG_STR {
        match read_str(b, at) {
            Some((s, next)) => Some((OscArg::Str(s), next)),
            None => None,
        }
    } else if tag == TAG_BLOB {
        match read_blob(b, at) {
            Some((d, next)) => Some((OscArg::Blob(d), next)),
            None => None,
        }
    } else {
        None
    }
}

fn read_message(b: &[u8]) -> (r: Option<OscMessage>)
    ensures
        match r {
            Some(m) => dec_message(b@) == Some(m@),
            None => dec_message(b@) is None,
        },
{
    let (address, tags_at) = match read_str(b, 0) {
        Some(found) => found,
        None => { return None; },
    };
    if address.len() == 0 || address[0] != SLASH {
        return None;
    }
    let (tags, args_at) = match read_str(b, tags_at) {
        Some(found) => found,
        None => { return None; },
    };
    if tags.len() == 0 || tags[0] != COMMA {
        return None;
    }
    let mut args: Vec<OscArg> = Vec::new();
    let mut k: usize = 1;
    let mut at: usize = args_at;
    assert(graft(args_view(args@), dec_args(b@, tags@, 1, args_at as int)) =~= dec_args(
        b@,
        tags@,
        1,
        args_at as int,
    )) by {
        match dec_args(b@, tags@, 1, args_at as int) {
            Some((rest, end)) => {
                assert(args_view(args@) + rest =~= rest);
            },
            None => {},
        }
    }
    while k < tags.len()
        invariant
            1 <= k <= tags@.len(),
            at <= b@.len(),
            dec_str(b@, 0) == Some((address@, tags_at as int)),
            address@.len() > 0 && address@[0] == SLASH,
            dec_str(b@, tags_at as int) == Some((tags@, args_at as int)),
            tags@[0] == COMMA,
            dec_args(b@, tags@, 1, args_at as int) == graft(
                args_view(args@),
                dec_args(b@, tags@, k as int, at as int),
            ),
        decreases tags@.len() - k,
    {
        let ghost pre = args_view(args@);
        match read_arg(b, tags[k], at) {
            Some((a, next)) => {
                proof {
                    let tail = dec_args(b@, tags@, k + 1, next as int);
                    assert(args_view(args@.push(a)) =~= pre + seq![a@]);
                    match tail {
                        Some((rest, end)) => {
                            assert(pre + (seq![a@] + rest) =~= (pre + seq![a@]) + rest);
                        },
                        None => {},
                    }
                }
                args.push(a);
                at = next;
            },
            None => {
                return None;
            },
        }
        k += 1;
    }
    assert(args_view(args@) + Seq::<Arg>::empty() =~= args_view(args@));
    if at != b.len() {
        return None;
    }
    Some(OscMessage { address, args })
}

fn opens_bundle(b: &[u8]) -> (r: bool)
    ensures
        r == is_bundle(b@),
{
    if b.len() < 8 {
        return false;
    }
    let r = b[0] == 0x23 && b[1] == 0x62 && b[2] == 0x75 && b[3] == 0x6e && b[4] == 0x64 && b[5]
        == 0x6c && b[6] == 0x65 && b[7] == 0x00;
    proof {
        if r {
            assert(b@.subrange(0, 8) =~= bundle_marker());
        } else {
            let head = b@.subrange(0, 8);
            assert(head[0] == b@[0] && head[1] == b@[1] && head[2] == b@[2] && head[3] == b@[3]
                && head[4] == b@[4] && head[5] == b@[5] && head[6] == b@[6] && head[7] == b@[7]);
        }
    }
    r
}

fn read_packet(b: &[u8], out: &mut Vec<OscMessage>) -> (ok: bool)
    ensures
        ok ==> join(messages_view(old(out)@), dec_packet(b@)) == Some(messages_view(final(out)@)),
        !ok ==> dec_packet(b@) is None,
    decreases b@.len(),
{
    if !opens_bundle(b) {
        match read_message(b) {
            Some(m) => {
                assert(messages_view(out@.push(m)) =~= messages_view(out@) + seq![m@]);
                out.push(m);
                return true;
            },
            None => {
                return false;
            },
        }
    }
    if b.len() < 16 {
        return false;
    }
    let mut at: usize = 16;
    while at < b.len()
        invariant
            16 <= at <= b@.len(),
            is_bundle(b@),
            join(messages_view(old(out)@), dec_elements(b@, 16)) == join(
                messages_view(out@),
                dec_elements(b@, at as int),
            ),
        decreases b@.len() - at,
    {
        if b.len() - at < 4 {
            return false;
        }
        let n: i32 = #[verifier::truncate] (get_word(b, at) as i32);
        if n < 0 {
            return false;
        }
        let size: usize = n as usize;
        let start: usize = at + 4;
        if b.len() - start < size {
            return false;
        }
        let end: usize = start + size;
        let ghost pre = messages_view(out@);
        let ok = read_packet(slice_subrange(b, start, end), out);
        if !ok {
            return false;
        }
        proof {
            let inner = dec_packet(b@.subrange(start as int, end as int));
            let tail = dec_elements(b@, end as int);
            match tail {
                Some(rest) => {
                    assert(pre + (inner->0 + rest) =~= (pre + inner->0) + rest);
                },
                None => {},
            }
        }
        at = end;
    }
    proof {
        assert(messages_view(out@) + Seq::<Message>::empty() =~= messages_view(out@));
    }
    true
}

/// The timestamp of a packet that is a bundle; `None` for a message, or for
/// bytes too short to hold the timestamp.
pub fn decode_timetag(bytes: &[u8]) -> (r: Option<TimeTag>)
    ensures
        r == dec_timetag(bytes@),
{
    if opens_bundle(bytes) && bytes.len() >= 16 {
        Some(TimeTag { seconds: get_word(bytes, 8), fraction: get_word(bytes, 12) })
    } else {
        None
    }
}

/// The messages of one packet, in order: the one message, or the leaf
/// messages of a bundle, depth first and left to right. Fails exactly when
/// the bytes are not one well-formed packet. Where the packet is a message,
/// encoding what was decoded gives the packet back, byte for byte.
pub fn decode(bytes: &[u8]) -> (r: Result<Vec<OscMessage>, TuioError>)
    ensures
        match r {
            Ok(ms) => dec_packet(bytes@) == Some(messages_view(ms@)) && (!is_bundle(bytes@)
                ==> ms@.len() == 1 && message_ok(ms@[0]@) && enc_message(ms@[0]@) == bytes@),
            Err(e) => e == TuioError::FormatError && dec_packet(bytes@) is None,
        },
{
    let mut out: Vec<OscMessage> = Vec::new();
    if read_packet(bytes, &mut out) {
        proof {
            assert(messages_view(Seq::<OscMessage>::empty()) + dec_packet(bytes@)->0
                =~= dec_packet(bytes@)->0);
            if !is_bundle(bytes@) {
                lemma_encode_decode_message(bytes@);
                assert(messages_view(out@).len() == 1);
                assert(messages_view(out@)[0] == out@[0]@);
            }
        }
        Ok(out)
    } else {
        Err(TuioError::FormatError)
    }
}

} // verus!
