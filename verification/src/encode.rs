//! From messages to bytes.

use vstd::prelude::*;
use crate::codec_laws::{
    lemma_decode_encode_bundle, lemma_decode_encode_message, lemma_timetag_of_bundle,
};
use crate::decode::{dec_packet, dec_timetag};
use crate::errors::TuioError;
use crate::osc::{
    arg_ok, enc_arg, enc_args, enc_blob, enc_message, enc_str, message_ok, messages_view, plain,
    tag_of, tags_of, zeros, Message, OscArg, OscMessage, TimeTag, COMMA, SLASH, TAG_BLOB,
    TAG_FLOAT, TAG_INT, TAG_STR,
};
use crate::wire::{put_word, word_bytes};

verus! {

/// The eight bytes that open a bundle: `#bundle` and its terminator.
pub open spec fn bundle_marker() -> Seq<u8> {
    seq![0x23u8, 0x62u8, 0x75u8, 0x6eu8, 0x64u8, 0x6cu8, 0x65u8, 0x00u8]
}

/// One element of a bundle: the size of the message, then the message.
pub open spec fn enc_element(m: Message) -> Seq<u8> {
    word_bytes(enc_message(m).len() as u32) + enc_message(m)
}

/// The elements for `ms[from..]`, back to back.
pub open spec fn enc_elements(ms: Seq<Message>, from: int) -> Seq<u8>
    decreases ms.len() - from,
{
    if 0 <= from < ms.len() {
        enc_element(ms[from]) + enc_elements(ms, from + 1)
    } else {
        Seq::empty()
    }
}

/// A bundle that holds `ms`, in order, under the timestamp `t`.
pub open spec fn enc_bundle(t: TimeTag, ms: Seq<Message>) -> Seq<u8> {
    bundle_marker() + word_bytes(t.seconds) + word_bytes(t.fraction) + enc_elements(ms, 0)
}

/// Messages that can share a bundle: each has an encoding, short enough for
/// the signed 32-bit size that precedes it.
pub open spec fn bundle_ok(ms: Seq<Message>) -> bool {
    forall|i: int|
        0 <= i < ms.len() ==> message_ok(#[trigger] ms[i]) && enc_message(ms[i]).len() <= i32::MAX
}

fn put_zeros(out: &mut Vec<u8>, n: usize)
    ensures
        final(out)@ == old(out)@ + zeros(n as int),
{
    let mut k: usize = 0;
    while k < n
        invariant
            k <= n,
            out@ == old(out)@ + zeros(k as int),
        decreases n - k,
    {
        out.push(0u8);
        k += 1;
        assert(out@ =~= old(out)@ + zeros(k as int));
    }
}

fn put_bytes(out: &mut Vec<u8>, src: &[u8])
    ensures
        final(out)@ == old(out)@ + src@,
{
    let mut k: usize = 0;
    while k < src.len()
        invariant
            k <= src@.len(),
            out@ == old(out)@ + src@.subrange(0, k as int),
        decreases src@.len() - k,
    {
        out.push(src[k]);
        k += 1;
        assert(out@ =~= old(out)@ + src@.subrange(0, k as int));
    }
    assert(src@.subrange(0, k as int) =~= src@);
}

fn put_str(out: &mut Vec<u8>, s: &[u8])
    ensures
        final(out)@ == old(out)@ + enc_str(s@),
{
    put_bytes(out, s);
    put_zeros(out, 4 - s.len() % 4);
    assert(out@ =~= old(out)@ + enc_str(s@));
}

fn put_blob(out: &mut Vec<u8>, b: &[u8])
    requires
        b@.len() <= i32::MAX,
    ensures
        final(out)@ == old(out)@ + enc_blob(b@),
{
    put_word(out, b.len() as u32);
    put_bytes(out, b);
    put_zeros(out, (4 - b.len() % 4) % 4);
    assert(out@ =~= old(out)@ + enc_blob(b@));
}

fn put_arg(out: &mut Vec<u8>, a: &OscArg)
    requires
        arg_ok(a@),
    ensures
        final(out)@ == old(out)@ + enc_arg(a@),
{
    match a {
        OscArg::Int(i) => put_word(out, #[verifier::truncate] (*i as u32)),
        OscArg::Float(w) => put_word(out, *w),
        OscArg::Str(s) => put_str(out, s.as_slice()),
        OscArg::Blob(b) => put_blob(out, b.as_slice()),
    }
}

/// Whether no byte of `s` is zero.
pub fn is_plain(s: &[u8]) -> (r: bool)
    ensures
        r == plain(s@),
{
    let mut k: usize = 0;
    while k < s.len()
        invariant
            k <= s@.len(),
            forall|i: int| 0 <= i < k ==> s@[i] != 0,
        decreases s@.len() - k,
    {
        if s[k] == 0 {
            return false;
        }
        k += 1;
    }
    true
}

/// Whether `a` has an encoding.
pub fn arg_is_ok(a: &OscArg) -> (r: bool)
    ensures
        r == arg_ok(a@),
{
    match a {
        OscArg::Int(_) => true,
        OscArg::Float(_) => true,
        OscArg::Str(s) => is_plain(s.as_slice()),
        OscArg::Blob(b) => b.len() <= 0x7fff_ffff,
    }
}

/// Whether `m` has an encoding.
pub fn message_is_ok(m: &OscMessage) -> (r: bool)
    ensures
        r == message_ok(m@),
{
    if m.address.len() == 0 || m.address[0] != SLASH || !is_plain(m.address.as_slice()) {
        return false;
    }
    let mut k: usize = 0;
    while k < m.args.len()
        invariant
            k <= m.args@.len(),
            forall|i: int| 0 <= i < k ==> arg_ok(#[trigger] m@.args[i]),
        decreases m.args@.len() - k,
    {
        if !arg_is_ok(&m.args[k]) {
            assert(!arg_ok(m@.args[k as int]));
            return false;
        }
        k += 1;
    }
    true
}

fn put_message(out: &mut Vec<u8>, m: &OscMessage)
    requires
        message_ok(m@),
    ensures
        final(out)@ == old(out)@ + enc_message(m@),
{
    let mut tags: Vec<u8> = Vec::new();
    tags.push(COMMA);
    let mut k: usize = 0;
    while k < m.args.len()
        invariant
            k <= m.args@.len(),
            tags@ == seq![COMMA] + Seq::new(k as nat, |i: int| tag_of(m@.args[i])),
        decreases m.args@.len() - k,
    {
        let t: u8 = match &m.args[k] {
            OscArg::Int(_) => TAG_INT,
            OscArg::Float(_) => TAG_FLOAT,
            OscArg::Str(_) => TAG_STR,
            OscArg::Blob(_) => TAG_BLOB,
        };
        tags.push(t);
        k += 1;
        assert(tags@ =~= seq![COMMA] + Seq::new(k as nat, |i: int| tag_of(m@.args[i])));
    }
    assert(tags@ =~= tags_of(m@.args));
    put_str(out, m.address.as_slice());
    put_str(out, tags.as_slice());
    let ghost head = out@;
    let mut j: usize = 0;
    while j < m.args.len()
        invariant
            j <= m.args@.len(),
            message_ok(m@),
            out@ + enc_args(m@.args, j as int) == head + enc_args(m@.args, 0),
        decreases m.args@.len() - j,
    {
        let ghost before = out@;
        assert(arg_ok(m@.args[j as int]));
        put_arg(out, &m.args[j]);
        assert(out@ + enc_args(m@.args, j + 1) =~= before + enc_args(m@.args, j as int));
        j += 1;
    }
    assert(out@ =~= old(out)@ + enc_message(m@));
}

/// The bytes of a message: the padded address, the padded type tags, then
/// the arguments back to back. Fails exactly when the message has no
/// encoding. What it gives decodes to the message again, and to nothing
/// else.
pub fn encode_message(m: &OscMessage) -> (r: Result<Vec<u8>, TuioError>)
    ensures
        r is Ok <==> message_ok(m@),
        r matches Ok(bytes) ==> bytes@ == enc_message(m@) && dec_packet(bytes@) == Some(
            seq![m@],
        ),
        r matches Err(e) ==> e == TuioError::FormatError,
{
    if !message_is_ok(m) {
        return Err(TuioError::FormatError);
    }
    let mut out: Vec<u8> = Vec::new();
    put_message(&mut out, m);
    proof {
        assert(out@ =~= enc_message(m@));
        lemma_decode_encode_message(m@);
    }
    Ok(out)
}

/// The bytes of a bundle that holds `ms`, in order, under the timestamp `t`.
/// Fails exactly when one of the messages has no encoding, or one too long
/// for a bundle. What it gives decodes to the same messages and the same
/// timestamp again.
pub fn encode_bundle(ms: &Vec<OscMessage>, t: TimeTag) -> (r: Result<Vec<u8>, TuioError>)
    ensures
        r is Ok <==> bundle_ok(messages_view(ms@)),
        r matches Ok(bytes) ==> bytes@ == enc_bundle(t, messages_view(ms@)) && dec_packet(bytes@)
            == Some(messages_view(ms@)) && dec_timetag(bytes@) == Some(t),
        r matches Err(e) ==> e == TuioError::FormatError,
{
    let ghost all = messages_view(ms@);
    let mut out: Vec<u8> = Vec::new();
    out.push(0x23u8);
    out.push(0x62u8);
    out.push(0x75u8);
    out.push(0x6eu8);
    out.push(0x64u8);
    out.push(0x6cu8);
    out.push(0x65u8);
    out.push(0x00u8);
    assert(out@ =~= bundle_marker());
    put_word(&mut out, t.seconds);
    put_word(&mut out, t.fraction);
    let ghost head = out@;
    let mut k: usize = 0;
    while k < ms.len()
        invariant
            k <= ms@.len(),
            all == messages_view(ms@),
            forall|i: int|
                0 <= i < k ==> message_ok(#[trigger] all[i]) && enc_message(all[i]).len()
                    <= i32::MAX,
            out@ + enc_elements(all, k as int) == head + enc_elements(all, 0),
        decreases ms@.len() - k,
    {
        let m = &ms[k];
        assert(all[k as int] == m@);
        if !message_is_ok(m) {
            return Err(TuioError::FormatError);
        }
        let mut body: Vec<u8> = Vec::new();
        put_message(&mut body, m);
        assert(body@ =~= enc_message(m@));
        if body.len() > 0x7fff_ffff {
            return Err(TuioError::FormatError);
        }
        let ghost before = out@;
        put_word(&mut out, body.len() as u32);
        put_bytes(&mut out, body.as_slice());
        assert(out@ + enc_elements(all, k + 1) =~= before + enc_elements(all, k as int));
        k += 1;
    }
    proof {
        assert(out@ =~= enc_bundle(t, all));
        lemma_decode_encode_bundle(t, all);
        lemma_timetag_of_bundle(t, all);
    }
    Ok(out)
}

} // verus!
