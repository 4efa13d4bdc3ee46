//! Decoding undoes encoding, and encoding undoes decoding.

use vstd::prelude::*;
use crate::decode::{
    dec_arg, dec_args, dec_blob, dec_elements, dec_message, dec_packet, dec_str, dec_timetag,
    dec_word, flat_from, is_bundle, join, nul_from,
};
use crate::encode::{bundle_marker, bundle_ok, enc_bundle, enc_element, enc_elements};
use crate::osc::{
    arg_ok, blob_pad, enc_arg, enc_args, enc_blob, enc_message, enc_str, message_ok, plain,
    str_pad, tag_of, tags_of, zeros, Arg, Message, TimeTag, COMMA, SLASH, TAG_BLOB, TAG_FLOAT,
    TAG_INT, TAG_STR,
};
use crate::wire::{lemma_bytes_of_word, lemma_word_of_bytes, word_bytes};

verus! {

/// `piece` lies in `b` at `at`.
pub open spec fn holds_at(b: Seq<u8>, at: int, piece: Seq<u8>) -> bool {
    &&& 0 <= at
    &&& at + piece.len() <= b.len()
    &&& b.subrange(at, at + piece.len()) == piece
}

proof fn lemma_holds_at_index(b: Seq<u8>, at: int, piece: Seq<u8>, i: int)
    requires
        holds_at(b, at, piece),
        0 <= i < piece.len(),
    ensures
        b[at + i] == piece[i],
{
    assert(b.subrange(at, at + piece.len())[i] == b[at + i]);
}

/// A piece made of two parts lies where its parts lie one after the other.
proof fn lemma_holds_at_split(b: Seq<u8>, at: int, x: Seq<u8>, y: Seq<u8>)
    requires
        holds_at(b, at, x + y),
    ensures
        holds_at(b, at, x),
        holds_at(b, at + x.len(), y),
{
    assert(b.subrange(at, at + x.len()) =~= x) by {
        assert forall|i: int| 0 <= i < x.len() implies b[at + i] == x[i] by {
            lemma_holds_at_index(b, at, x + y, i);
        }
    }
    assert(b.subrange(at + x.len(), at + x.len() + y.len()) =~= y) by {
        assert forall|i: int| 0 <= i < y.len() implies b[at + x.len() + i] == y[i] by {
            lemma_holds_at_index(b, at, x + y, x.len() + i);
        }
    }
}

proof fn lemma_holds_at_join(b: Seq<u8>, at: int, x: Seq<u8>, y: Seq<u8>)
    requires
        holds_at(b, at, x),
        holds_at(b, at + x.len(), y),
    ensures
        holds_at(b, at, x + y),
{
    assert(b.subrange(at, at + (x + y).len()) =~= x + y) by {
        assert forall|i: int| 0 <= i < (x + y).len() implies b[at + i] == (x + y)[i] by {
            if i < x.len() {
                lemma_holds_at_index(b, at, x, i);
            } else {
                lemma_holds_at_index(b, at + x.len(), y, i - x.len());
            }
        }
    }
}

proof fn lemma_nul_from_found(b: Seq<u8>, at: int, n: int)
    requires
        0 <= at,
        0 <= n,
        at + n <= b.len(),
        forall|i: int| at <= i < at + n ==> b[i] != 0,
        at + n == b.len() || b[at + n] == 0,
    ensures
        nul_from(b, at) == at + n,
    decreases n,
{
    if n > 0 {
        lemma_nul_from_found(b, at + 1, n - 1);
    }
}

proof fn lemma_nul_from_bounds(b: Seq<u8>, at: int)
    requires
        0 <= at <= b.len(),
    ensures
        at <= nul_from(b, at) <= b.len(),
        forall|i: int| at <= i < nul_from(b, at) ==> b[i] != 0,
        nul_from(b, at) < b.len() ==> b[nul_from(b, at)] == 0,
    decreases b.len() - at,
{
    if at < b.len() && b[at] != 0 {
        lemma_nul_from_bounds(b, at + 1);
    }
}

/// A padded string is read back where it lies.
pub proof fn lemma_dec_str_of_enc(b: Seq<u8>, at: int, s: Seq<u8>)
    requires
        plain(s),
        holds_at(b, at, enc_str(s)),
    ensures
        dec_str(b, at) == Some((s, at + enc_str(s).len())),
{
    let e = enc_str(s);
    let n = s.len() as int;
    assert forall|i: int| at <= i < at + n implies b[i] != 0 by {
        lemma_holds_at_index(b, at, e, i - at);
    }
    lemma_holds_at_index(b, at, e, n);
    lemma_nul_from_found(b, at, n);
    assert forall|i: int| at + n <= i < at + n + str_pad(n) implies b[i] == 0 by {
        lemma_holds_at_index(b, at, e, i - at);
    }
    assert(b.subrange(at, at + n) =~= s) by {
        assert forall|i: int| 0 <= i < n implies b[at + i] == s[i] by {
            lemma_holds_at_index(b, at, e, i);
        }
    }
}

/// What was read as a padded string lies there as the encoding of what was
/// read.
pub proof fn lemma_enc_str_of_dec(b: Seq<u8>, at: int)
    requires
        dec_str(b, at) is Some,
    ensures
        dec_str(b, at) matches Some(found) && plain(found.0) && found.1 == at + enc_str(
            found.0,
        ).len() && holds_at(b, at, enc_str(found.0)),
{
    lemma_nul_from_bounds(b, at);
    let found = dec_str(b, at)->0;
    assert(b.subrange(at, found.1) =~= enc_str(found.0));
}

proof fn lemma_dec_word_of_enc(b: Seq<u8>, at: int, w: u32)
    requires
        holds_at(b, at, word_bytes(w)),
    ensures
        dec_word(b, at) == w,
{
    let e = word_bytes(w);
    lemma_holds_at_index(b, at, e, 0);
    lemma_holds_at_index(b, at, e, 1);
    lemma_holds_at_index(b, at, e, 2);
    lemma_holds_at_index(b, at, e, 3);
    lemma_word_of_bytes(w);
}

proof fn lemma_enc_word_of_dec(b: Seq<u8>, at: int)
    requires
        0 <= at,
        at + 4 <= b.len(),
    ensures
        holds_at(b, at, word_bytes(dec_word(b, at))),
{
    lemma_bytes_of_word(b[at], b[at + 1], b[at + 2], b[at + 3]);
    assert(b.subrange(at, at + 4) =~= seq![b[at], b[at + 1], b[at + 2], b[at + 3]]);
}

proof fn lemma_signed_round_trip(i: i32)
    ensures
        (i as u32) as i32 == i,
{
    assert((i as u32) as i32 == i) by (bit_vector);
}

proof fn lemma_unsigned_round_trip(w: u32)
    ensures
        (w as i32) as u32 == w,
{
    assert((w as i32) as u32 == w) by (bit_vector);
}

/// A sized, padded blob is read back where it lies.
pub proof fn lemma_dec_blob_of_enc(b: Seq<u8>, at: int, d: Seq<u8>)
    requires
        d.len() <= i32::MAX,
        holds_at(b, at, enc_blob(d)),
    ensures
        dec_blob(b, at) == Some((d, at + enc_blob(d).len())),
{
    let n = d.len() as int;
    let size = word_bytes(d.len() as u32);
    let pad = zeros(blob_pad(n));
    lemma_holds_at_split(b, at, size + d, pad);
    lemma_holds_at_split(b, at, size, d);
    lemma_dec_word_of_enc(b, at, d.len() as u32);
    assert forall|i: int| at + 4 + n <= i < at + 4 + n + blob_pad(n) implies b[i] == 0 by {
        lemma_holds_at_index(b, at + 4 + n, pad, i - (at + 4 + n));
    }
}

/// What was read as a blob lies there as the encoding of what was read.
pub proof fn lemma_enc_blob_of_dec(b: Seq<u8>, at: int)
    requires
        dec_blob(b, at) is Some,
    ensures
        dec_blob(b, at) matches Some(found) && found.0.len() <= i32::MAX && found.1 == at
            + enc_blob(found.0).len() && holds_at(b, at, enc_blob(found.0)),
{
    let found = dec_blob(b, at)->0;
    let n = dec_word(b, at) as i32;
    lemma_enc_word_of_dec(b, at);
    lemma_unsigned_round_trip(dec_word(b, at));
    assert(found.0.len() as u32 == dec_word(b, at));
    assert(b.subrange(at, found.1) =~= enc_blob(found.0));
}

/// An argument is read back where it lies, under its own tag.
pub proof fn lemma_dec_arg_of_enc(b: Seq<u8>, at: int, a: Arg)
    requires
        arg_ok(a),
        holds_at(b, at, enc_arg(a)),
    ensures
        dec_arg(b, tag_of(a), at) == Some((a, at + enc_arg(a).len())),
{
    match a {
        Arg::Int(i) => {
            lemma_dec_word_of_enc(b, at, i as u32);
            lemma_signed_round_trip(i);
        },
        Arg::Float(w) => {
            lemma_dec_word_of_enc(b, at, w);
        },
        Arg::Str(s) => {
            lemma_dec_str_of_enc(b, at, s);
        },
        Arg::Blob(d) => {
            lemma_dec_blob_of_enc(b, at, d);
        },
    }
}

/// What was read as an argument lies there as the encoding of what was read.
pub proof fn lemma_enc_arg_of_dec(b: Seq<u8>, tag: u8, at: int)
    requires
        dec_arg(b, tag, at) is Some,
    ensures
        dec_arg(b, tag, at) matches Some(found) && arg_ok(found.0) && tag_of(found.0) == tag
            && found.1 == at + enc_arg(found.0).len() && holds_at(b, at, enc_arg(found.0)),
{
    if tag == TAG_INT {
        lemma_enc_word_of_dec(b, at);
        lemma_unsigned_round_trip(dec_word(b, at));
    } else if tag == TAG_FLOAT {
        lemma_enc_word_of_dec(b, at);
    } else if tag == TAG_STR {
        lemma_enc_str_of_dec(b, at);
    } else if tag == TAG_BLOB {
        lemma_enc_blob_of_dec(b, at);
    }
}

/// Dropping the first argument shifts the rest down by one.
proof fn lemma_enc_args_shift(a: Arg, rest: Seq<Arg>, j: int)
    requires
        0 <= j,
    ensures
        enc_args(seq![a] + rest, j + 1) == enc_args(rest, j),
    decreases rest.len() - j,
{
    let all = seq![a] + rest;
    if j < rest.len() {
        assert(all[j + 1] == rest[j]);
        lemma_enc_args_shift(a, rest, j + 1);
    }
}

/// A run of arguments is read back where it lies, under its own tags.
pub proof fn lemma_dec_args_of_enc(b: Seq<u8>, at: int, args: Seq<Arg>, j: int)
    requires
        0 <= j <= args.len(),
        forall|i: int| 0 <= i < args.len() ==> arg_ok(#[trigger] args[i]),
        holds_at(b, at, enc_args(args, j)),
    ensures
        dec_args(b, tags_of(args), j + 1, at) == Some(
            (args.subrange(j, args.len() as int), at + enc_args(args, j).len()),
        ),
    decreases args.len() - j,
{
    let tags = tags_of(args);
    if j < args.len() {
        let a = args[j];
        assert(tags[j + 1] == tag_of(a));
        lemma_holds_at_split(b, at, enc_arg(a), enc_args(args, j + 1));
        lemma_dec_arg_of_enc(b, at, a);
        lemma_dec_args_of_enc(b, at + enc_arg(a).len(), args, j + 1);
        assert(seq![a] + args.subrange(j + 1, args.len() as int) =~= args.subrange(
            j,
            args.len() as int,
        ));
    } else {
        assert(args.subrange(j, args.len() as int) =~= Seq::<Arg>::empty());
    }
}

/// What was read as a run of arguments lies there as the encoding of what
/// was read, one argument for each tag.
pub proof fn lemma_enc_args_of_dec(b: Seq<u8>, tags: Seq<u8>, k: int, at: int)
    requires
        0 <= k <= tags.len(),
        0 <= at <= b.len(),
        dec_args(b, tags, k, at) is Some,
    ensures
        dec_args(b, tags, k, at) matches Some(found) && found.0.len() == tags.len() - k
            && found.1 == at + enc_args(found.0, 0).len() && holds_at(
            b,
            at,
            enc_args(found.0, 0),
        ) && (forall|i: int| 0 <= i < found.0.len() ==> arg_ok(#[trigger] found.0[i]) && tag_of(
            found.0[i],
        ) == tags[k + i]),
    decreases tags.len() - k,
{
    let found = dec_args(b, tags, k, at)->0;
    if k < tags.len() {
        lemma_enc_arg_of_dec(b, tags[k], at);
        let first = dec_arg(b, tags[k], at)->0;
        lemma_enc_args_of_dec(b, tags, k + 1, first.1);
        let tail = dec_args(b, tags, k + 1, first.1)->0;
        assert(found.0 == seq![first.0] + tail.0);
        lemma_enc_args_shift(first.0, tail.0, 0);
        assert(found.0[0] == first.0);
        lemma_holds_at_join(b, at, enc_arg(first.0), enc_args(tail.0, 0));
        assert forall|i: int| 0 <= i < found.0.len() implies arg_ok(#[trigger] found.0[i])
            && tag_of(found.0[i]) == tags[k + i] by {
            if i > 0 {
                assert(found.0[i] == tail.0[i - 1]);
            }
        }
    } else {
        assert(b.subrange(at, at) =~= Seq::<u8>::empty());
    }
}

proof fn lemma_holds_at_whole(b: Seq<u8>)
    ensures
        holds_at(b, 0, b),
{
    assert(b.subrange(0, b.len() as int) =~= b);
}

proof fn lemma_tags_plain(args: Seq<Arg>)
    ensures
        plain(tags_of(args)),
        tags_of(args).len() == args.len() + 1,
        tags_of(args)[0] == COMMA,
{
}

/// Where the three parts of an encoded message lie.
proof fn lemma_message_layout(m: Message)
    ensures
        holds_at(enc_message(m), 0, enc_str(m.address)),
        holds_at(enc_message(m), enc_str(m.address).len() as int, enc_str(tags_of(m.args))),
        holds_at(
            enc_message(m),
            (enc_str(m.address).len() + enc_str(tags_of(m.args)).len()) as int,
            enc_args(m.args, 0),
        ),
        enc_message(m).len() == enc_str(m.address).len() + enc_str(tags_of(m.args)).len()
            + enc_args(m.args, 0).len(),
{
    let b = enc_message(m);
    let x = enc_str(m.address);
    let y = enc_str(tags_of(m.args));
    let z = enc_args(m.args, 0);
    lemma_holds_at_whole(b);
    lemma_holds_at_split(b, 0, x + y, z);
    lemma_holds_at_split(b, 0, x, y);
}

proof fn lemma_message_is_no_bundle(m: Message)
    requires
        m.address.len() > 0,
        m.address[0] == SLASH,
    ensures
        !is_bundle(enc_message(m)),
{
    let b = enc_message(m);
    if b.len() >= 8 {
        assert(b.subrange(0, 8)[0] == b[0]);
        assert(b[0] == m.address[0]);
        assert(bundle_marker()[0] == 0x23u8);
    }
}

/// Decoding the bytes of a message that has an encoding gives back that
/// message, and nothing else.
pub proof fn lemma_decode_encode_message(m: Message)
    requires
        message_ok(m),
    ensures
        dec_message(enc_message(m)) == Some(m),
        dec_packet(enc_message(m)) == Some(seq![m]),
{
    let b = enc_message(m);
    let tags = tags_of(m.args);
    let tags_at = enc_str(m.address).len() as int;
    let args_at = tags_at + enc_str(tags).len();
    lemma_message_layout(m);
    assert(dec_str(b, 0) == Some((m.address, tags_at))) by {
        lemma_dec_str_of_enc(b, 0, m.address);
    }
    assert(dec_str(b, tags_at) == Some((tags, args_at))) by {
        lemma_tags_plain(m.args);
        lemma_dec_str_of_enc(b, tags_at, tags);
    }
    assert(dec_args(b, tags, 1, args_at) == Some((m.args, b.len() as int))) by {
        lemma_dec_args_of_enc(b, args_at, m.args, 0);
        assert(m.args.subrange(0, m.args.len() as int) =~= m.args);
    }
    assert(tags.len() > 0 && tags[0] == COMMA) by {
        lemma_tags_plain(m.args);
    }
    assert(dec_message(b) == Some(m));
    lemma_message_is_no_bundle(m);
}

/// Encoding the message that was decoded from a packet gives back the
/// packet, byte for byte; and what decoding accepts has an encoding.
pub proof fn lemma_encode_decode_message(b: Seq<u8>)
    requires
        dec_message(b) is Some,
    ensures
        dec_message(b) matches Some(m) && message_ok(m) && enc_message(m) == b,
{
    let m = dec_message(b)->0;
    lemma_enc_str_of_dec(b, 0);
    let first = dec_str(b, 0)->0;
    lemma_enc_str_of_dec(b, first.1);
    let second = dec_str(b, first.1)->0;
    let tags = second.0;
    lemma_enc_args_of_dec(b, tags, 1, second.1);
    let third = dec_args(b, tags, 1, second.1)->0;
    assert(m.address == first.0);
    assert(m.args == third.0);
    assert(tags =~= tags_of(m.args));
    let x = enc_str(m.address);
    let y = enc_str(tags);
    let z = enc_args(m.args, 0);
    lemma_holds_at_join(b, 0, x, y);
    lemma_holds_at_join(b, 0, x + y, z);
    assert(b.subrange(0, b.len() as int) =~= b);
}

/// Two messages with the same bytes are the same message.
pub proof fn lemma_encoding_is_injective(m1: Message, m2: Message)
    requires
        message_ok(m1),
        message_ok(m2),
        enc_message(m1) == enc_message(m2),
    ensures
        m1 == m2,
{
    lemma_decode_encode_message(m1);
    lemma_decode_encode_message(m2);
}

/// The element for `m` is read back where it lies, and reading goes on
/// behind it.
proof fn lemma_element_read(b: Seq<u8>, at: int, m: Message)
    requires
        message_ok(m),
        enc_message(m).len() <= i32::MAX,
        holds_at(b, at, enc_element(m)),
    ensures
        dec_elements(b, at) == join(seq![m], dec_elements(b, at + 4 + enc_message(m).len())),
{
    let body = enc_message(m);
    let size = word_bytes(body.len() as u32);
    lemma_holds_at_split(b, at, size, body);
    lemma_dec_word_of_enc(b, at, body.len() as u32);
    assert(dec_word(b, at) as i32 == body.len());
    assert(b.subrange(at + 4, at + 4 + body.len()) == body);
    assert(dec_packet(body) == Some(seq![m])) by {
        lemma_decode_encode_message(m);
    }
}

proof fn lemma_dec_elements_of_enc(b: Seq<u8>, at: int, ms: Seq<Message>, j: int)
    requires
        0 <= j <= ms.len(),
        bundle_ok(ms),
        holds_at(b, at, enc_elements(ms, j)),
        at + enc_elements(ms, j).len() == b.len(),
    ensures
        dec_elements(b, at) == Some(ms.subrange(j, ms.len() as int)),
    decreases ms.len() - j,
{
    if j < ms.len() {
        let m = ms[j];
        assert(message_ok(m) && enc_message(m).len() <= i32::MAX);
        lemma_holds_at_split(b, at, enc_element(m), enc_elements(ms, j + 1));
        lemma_element_read(b, at, m);
        lemma_dec_elements_of_enc(b, at + 4 + enc_message(m).len(), ms, j + 1);
        assert(seq![m] + ms.subrange(j + 1, ms.len() as int) =~= ms.subrange(
            j,
            ms.len() as int,
        ));
    } else {
        assert(ms.subrange(j, ms.len() as int) =~= Seq::<Message>::empty());
    }
}

/// Where the parts of an encoded bundle lie.
proof fn lemma_bundle_layout(t: TimeTag, ms: Seq<Message>)
    ensures
        is_bundle(enc_bundle(t, ms)),
        holds_at(enc_bundle(t, ms), 8, word_bytes(t.seconds)),
        holds_at(enc_bundle(t, ms), 12, word_bytes(t.fraction)),
        holds_at(enc_bundle(t, ms), 16, enc_elements(ms, 0)),
        enc_bundle(t, ms).len() == 16 + enc_elements(ms, 0).len(),
{
    let b = enc_bundle(t, ms);
    let marker = bundle_marker();
    let seconds = word_bytes(t.seconds);
    let fraction = word_bytes(t.fraction);
    lemma_holds_at_whole(b);
    lemma_holds_at_split(b, 0, marker + seconds + fraction, enc_elements(ms, 0));
    lemma_holds_at_split(b, 0, marker + seconds, fraction);
    lemma_holds_at_split(b, 0, marker, seconds);
}

/// Decoding a bundle built from messages that can share one gives back those
/// messages, in order.
pub proof fn lemma_decode_encode_bundle(t: TimeTag, ms: Seq<Message>)
    requires
        bundle_ok(ms),
    ensures
        dec_packet(enc_bundle(t, ms)) == Some(ms),
{
    let b = enc_bundle(t, ms);
    lemma_bundle_layout(t, ms);
    assert(dec_elements(b, 16) == Some(ms)) by {
        lemma_dec_elements_of_enc(b, 16, ms, 0);
        assert(ms.subrange(0, ms.len() as int) =~= ms);
    }
}

/// The timestamp read from a bundle is the one it was built with.
pub proof fn lemma_timetag_of_bundle(t: TimeTag, ms: Seq<Message>)
    ensures
        dec_timetag(enc_bundle(t, ms)) == Some(t),
{
    let b = enc_bundle(t, ms);
    lemma_bundle_layout(t, ms);
    lemma_dec_word_of_enc(b, 8, t.seconds);
    lemma_dec_word_of_enc(b, 12, t.fraction);
}

/// Dropping the first message shifts the elements of the rest down by one.
proof fn lemma_enc_elements_shift(m: Message, rest: Seq<Message>, j: int)
    requires
        0 <= j,
    ensures
        enc_elements(seq![m] + rest, j + 1) == enc_elements(rest, j),
    decreases rest.len() - j,
{
    let all = seq![m] + rest;
    if j < rest.len() {
        assert(all[j + 1] == rest[j]);
        lemma_enc_elements_shift(m, rest, j + 1);
    }
}

/// The size that the element at `at` declares.
spec fn size_at(b: Seq<u8>, at: int) -> int {
    (dec_word(b, at) as i32) as int
}

/// What reading one element of a flat bundle amounts to.
proof fn lemma_element_at(b: Seq<u8>, at: int)
    requires
        0 <= at < b.len(),
        flat_from(b, at),
        dec_elements(b, at) is Some,
    ensures
        at + 4 <= b.len(),
        0 <= size_at(b, at),
        at + 4 + size_at(b, at) <= b.len(),
        dec_message(b.subrange(at + 4, at + 4 + size_at(b, at))) is Some,
        flat_from(b, at + 4 + size_at(b, at)),
        dec_elements(b, at + 4 + size_at(b, at)) is Some,
        dec_elements(b, at) == Some(
            seq![dec_message(b.subrange(at + 4, at + 4 + size_at(b, at)))->0] + dec_elements(
                b,
                at + 4 + size_at(b, at),
            )->0,
        ),
{
    let n = size_at(b, at);
    let body = b.subrange(at + 4, at + 4 + n);
    assert(at + 4 <= b.len() && 0 <= n && at + 4 + n <= b.len());
    assert(!is_bundle(body));
    assert(dec_packet(body) is Some);
    assert(dec_packet(body) == Some(seq![dec_message(body)->0]));
    assert(dec_elements(b, at) == join(seq![dec_message(body)->0], dec_elements(b, at + 4 + n)));
}

/// The element for `m` lies at `at`, where its size and then its bytes lie.
proof fn lemma_element_lies(b: Seq<u8>, at: int, m: Message)
    requires
        0 <= at,
        at + 4 <= b.len(),
        0 <= size_at(b, at),
        enc_message(m).len() == size_at(b, at),
        holds_at(b, at + 4, enc_message(m)),
    ensures
        holds_at(b, at, enc_element(m)),
        enc_element(m).len() == 4 + size_at(b, at),
{
    lemma_enc_word_of_dec(b, at);
    lemma_unsigned_round_trip(dec_word(b, at));
    assert(enc_message(m).len() as u32 == dec_word(b, at));
    lemma_holds_at_join(b, at, word_bytes(dec_word(b, at)), enc_message(m));
}

proof fn lemma_bundle_ok_cons(m: Message, rest: Seq<Message>)
    requires
        message_ok(m),
        enc_message(m).len() <= i32::MAX,
        bundle_ok(rest),
    ensures
        bundle_ok(seq![m] + rest),
{
    let ms = seq![m] + rest;
    assert forall|i: int| 0 <= i < ms.len() implies message_ok(#[trigger] ms[i]) && enc_message(
        ms[i],
    ).len() <= i32::MAX by {
        if i > 0 {
            assert(ms[i] == rest[i - 1]);
        }
    }
}

proof fn lemma_enc_elements_cons(m: Message, rest: Seq<Message>)
    ensures
        enc_elements(seq![m] + rest, 0) == enc_element(m) + enc_elements(rest, 0),
{
    let ms = seq![m] + rest;
    assert(ms[0] == m);
    lemma_enc_elements_shift(m, rest, 0);
}

proof fn lemma_enc_elements_of_dec(b: Seq<u8>, at: int)
    requires
        0 <= at <= b.len(),
        flat_from(b, at),
        dec_elements(b, at) is Some,
    ensures
        dec_elements(b, at) matches Some(ms) && bundle_ok(ms) && holds_at(
            b,
            at,
            enc_elements(ms, 0),
        ) && at + enc_elements(ms, 0).len() == b.len(),
    decreases b.len() - at,
{
    if at == b.len() {
        assert(b.subrange(at, at) =~= Seq::<u8>::empty());
    } else {
        lemma_element_at(b, at);
        let n = size_at(b, at);
        let body = b.subrange(at + 4, at + 4 + n);
        let m = dec_message(body)->0;
        let next = at + 4 + n;
        let rest = dec_elements(b, next)->0;
        lemma_enc_elements_of_dec(b, next);
        assert(message_ok(m) && enc_message(m) == body) by {
            lemma_encode_decode_message(body);
        }
        lemma_bundle_ok_cons(m, rest);
        lemma_enc_elements_cons(m, rest);
        lemma_element_lies(b, at, m);
        lemma_holds_at_join(b, at, enc_element(m), enc_elements(rest, 0));
    }
}

/// Building a bundle from the timestamp and the messages that were decoded
/// from one gives back the bundle, byte for byte, where its elements are
/// messages; and what was decoded can share a bundle.
pub proof fn lemma_encode_decode_bundle(b: Seq<u8>)
    requires
        dec_timetag(b) is Some,
        dec_packet(b) is Some,
        flat_from(b, 16),
    ensures
        bundle_ok(dec_packet(b)->0),
        enc_bundle(dec_timetag(b)->0, dec_packet(b)->0) == b,
{
    let t = dec_timetag(b)->0;
    let ms = dec_packet(b)->0;
    lemma_enc_elements_of_dec(b, 16);
    lemma_enc_word_of_dec(b, 8);
    lemma_enc_word_of_dec(b, 12);
    assert(holds_at(b, 0, bundle_marker()));
    lemma_holds_at_join(b, 0, bundle_marker(), word_bytes(t.seconds));
    lemma_holds_at_join(b, 0, bundle_marker() + word_bytes(t.seconds), word_bytes(t.fraction));
    lemma_holds_at_join(
        b,
        0,
        bundle_marker() + word_bytes(t.seconds) + word_bytes(t.fraction),
        enc_elements(ms, 0),
    );
    assert(b.subrange(0, b.len() as int) =~= b);
}

} // verus!
