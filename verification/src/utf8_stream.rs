//! Incremental decoding of a byte stream into text.
//!
//! Bytes arrive in chunks that may end in the middle of a multi-byte
//! sequence. The decoder hands out the text of every whole sequence it has
//! seen and keeps the bytes of an unfinished one for the next chunk.

use crate::text::string_from_chars;
use vstd::prelude::*;
use vstd::utf8::*;

verus! {

/// Why bytes could not be decoded.
#[derive(Debug, Clone, Copy, PartialEq, Eq)]
pub enum Utf8Error {
    /// The bytes hold a sequence that is not well-formed UTF-8.
    Malformed,
    /// The input ended inside a multi-byte sequence.
    Truncated,
}

/// Length of the longest prefix of `bytes` that consists of whole,
/// well-formed encodings of scalar values.
pub open spec fn valid_up_to(bytes: Seq<u8>) -> nat
    decreases bytes.len(),
{
    if bytes.len() > 0 && valid_first_scalar(bytes) {
        length_of_first_scalar(bytes) as nat + valid_up_to(pop_first_scalar(bytes))
    } else {
        0
    }
}

/// `bytes` is the beginning, but not the whole, of a well-formed encoding of
/// one scalar value: a leading byte of a multi-byte sequence, followed by
/// fewer continuation bytes than it calls for, each in the range that the
/// leading byte admits.
pub open spec fn is_incomplete_scalar(bytes: Seq<u8>) -> bool {
    &&& 1 <= bytes.len() <= 3
    &&& 0xC2 <= bytes[0] <= 0xF4
    &&& bytes.len() >= 2 ==> {
        &&& 0xE0 <= bytes[0]
        &&& is_continuation_byte(bytes[1])
        &&& bytes[0] == 0xE0 ==> 0xA0 <= bytes[1]
        &&& bytes[0] == 0xED ==> bytes[1] <= 0x9F
        &&& bytes[0] == 0xF0 ==> 0x90 <= bytes[1]
        &&& bytes[0] == 0xF4 ==> bytes[1] <= 0x8F
    }
    &&& bytes.len() >= 3 ==> {
        &&& 0xF0 <= bytes[0]
        &&& is_continuation_byte(bytes[2])
    }
}

/// What one chunk yields: the decoded text, or the error, and the bytes that
/// are kept for the next chunk.
///
/// The text is that of the longest well-formed prefix of the kept bytes
/// followed by the chunk. Decoding fails when that prefix is empty and the
/// bytes cannot be the beginning of a well-formed sequence; nothing is
/// dropped then.
pub open spec fn decode_step(pending: Seq<u8>, chunk: Seq<u8>) -> (Result<Seq<char>, Utf8Error>, Seq<u8>) {
    let all = pending + chunk;
    let valid = valid_up_to(all) as int;
    let rest = all.skip(valid);
    if valid == 0 && rest.len() > 0 && !is_incomplete_scalar(rest) {
        (Err(Utf8Error::Malformed), all)
    } else {
        (Ok(decode_utf8(all.take(valid))), rest)
    }
}

/// What is left to report when the input ends: an error if bytes are still
/// kept, since they can no longer be completed.
pub open spec fn finish_step(pending: Seq<u8>) -> Result<(), Utf8Error> {
    if pending.len() == 0 {
        Ok(())
    } else if is_incomplete_scalar(pending) {
        Err(Utf8Error::Truncated)
    } else {
        Err(Utf8Error::Malformed)
    }
}

/// The valid prefix of `bytes` is well-formed UTF-8 and lies within `bytes`,
/// and no well-formed scalar follows it.
pub proof fn lemma_valid_up_to(bytes: Seq<u8>)
    ensures
        valid_up_to(bytes) <= bytes.len(),
        valid_utf8(bytes.take(valid_up_to(bytes) as int)),
        is_char_boundary(bytes.take(valid_up_to(bytes) as int), valid_up_to(bytes) as int),
        valid_up_to(bytes) < bytes.len() ==> !valid_first_scalar(bytes.skip(valid_up_to(bytes) as int)),
        valid_up_to(bytes.skip(valid_up_to(bytes) as int)) == 0,
    decreases bytes.len(),
{
    let k = valid_up_to(bytes) as int;
    if bytes.len() > 0 && valid_first_scalar(bytes) {
        let w = length_of_first_scalar(bytes);
        let tail = pop_first_scalar(bytes);
        lemma_valid_up_to(tail);
        let kt = valid_up_to(tail) as int;
        let head = bytes.take(k);
        assert(valid_first_scalar(head));
        assert(pop_first_scalar(head) =~= tail.take(kt));
        assert(bytes.skip(k) =~= tail.skip(kt));
        is_char_boundary_start_end_of_seq(head);
    } else {
        assert(bytes.take(0) =~= Seq::<u8>::empty());
        assert(bytes.skip(0) =~= bytes);
    }
}

/// The valid prefix of `bytes` stays valid when more bytes follow, and the
/// scan goes on from where it stopped.
pub proof fn lemma_valid_up_to_extend(bytes: Seq<u8>, more: Seq<u8>)
    ensures
        valid_up_to(bytes + more) == valid_up_to(bytes) + valid_up_to(
            bytes.skip(valid_up_to(bytes) as int) + more,
        ),
    decreases bytes.len(),
{
    let k = valid_up_to(bytes) as int;
    if bytes.len() > 0 && valid_first_scalar(bytes) {
        let w = length_of_first_scalar(bytes);
        let tail = pop_first_scalar(bytes);
        let whole = bytes + more;
        assert(valid_first_scalar(whole));
        assert(pop_first_scalar(whole) =~= tail + more);
        lemma_valid_up_to_extend(tail, more);
        lemma_valid_up_to(tail);
        assert(bytes.skip(k) =~= tail.skip(valid_up_to(tail) as int));
    } else {
        assert(bytes.skip(0) =~= bytes);
    }
}

/// Two chunks decode to the text of their concatenation: what one chunk
/// leaves unfinished, the next one completes.
pub proof fn lemma_decode_step_split(pending: Seq<u8>, a: Seq<u8>, b: Seq<u8>)
    requires
        decode_step(pending, a).0 is Ok,
        decode_step(decode_step(pending, a).1, b).0 is Ok,
    ensures
        decode_step(pending, a + b) == (
            Ok::<Seq<char>, Utf8Error>(
                decode_step(pending, a).0->Ok_0 + decode_step(decode_step(pending, a).1, b).0->Ok_0,
            ),
            decode_step(decode_step(pending, a).1, b).1,
        ),
{
    let all1 = pending + a;
    let k1 = valid_up_to(all1) as int;
    let p1 = all1.skip(k1);
    let all2 = p1 + b;
    let k2 = valid_up_to(all2) as int;
    let p2 = all2.skip(k2);
    let whole = pending + (a + b);
    assert(whole =~= all1 + b);
    lemma_valid_up_to_extend(all1, b);
    lemma_valid_up_to(all1);
    lemma_valid_up_to(all2);
    assert(valid_up_to(whole) == k1 + k2);
    assert(whole.skip(k1 + k2) =~= p2);
    let head = all1.take(k1);
    let mid = all2.take(k2);
    assert(whole.take(k1 + k2) =~= head + mid);
    lemma_boundary_extend(head, mid);
    decode_utf8_split(head + mid, k1);
    assert((head + mid).subrange(0, k1) =~= head);
    assert((head + mid).subrange(k1, (head + mid).len() as int) =~= mid);
}

/// Every chunk of `chunks` is decoded without an error when they reach a
/// decoder that holds `pending` one after the other.
pub open spec fn decodable(pending: Seq<u8>, chunks: Seq<Seq<u8>>) -> bool
    decreases chunks.len(),
{
    chunks.len() > 0 ==> decode_step(pending, chunks.first()).0 is Ok && decodable(
        decode_step(pending, chunks.first()).1,
        chunks.drop_first(),
    )
}

/// What follows well-formed bytes in a well-formed sequence is well-formed.
pub proof fn lemma_valid_suffix(head: Seq<u8>, tail: Seq<u8>)
    requires
        valid_utf8(head),
        valid_utf8(head + tail),
    ensures
        valid_utf8(tail),
    decreases head.len(),
{
    if head.len() == 0 {
        assert(head + tail =~= tail);
    } else {
        let rest = pop_first_scalar(head);
        assert(valid_first_scalar(head + tail));
        assert(pop_first_scalar(head + tail) =~= rest + tail);
        lemma_valid_suffix(rest, tail);
    }
}

/// The first bytes of a well-formed encoding of one scalar value, short of
/// the whole, are an incomplete scalar.
pub proof fn lemma_scalar_prefix_is_incomplete(bytes: Seq<u8>, n: int)
    requires
        valid_first_scalar(bytes),
        1 <= n < length_of_first_scalar(bytes),
    ensures
        is_incomplete_scalar(bytes.take(n)),
{
    let b0 = bytes[0];
    let b1 = bytes[1];
    let part = bytes.take(n);
    assert(part[0] == b0);
    if is_leading_byte_width_2(b0) {
        assert(b0 >= 0xc2) by (bit_vector)
            requires
                0xc0 <= b0 <= 0xdf,
                ((((b0 & 0x1f) as u32) << 6) | ((b1 & 0x3f) as u32)) >= 0x80u32,
        ;
    } else if is_leading_byte_width_3(b0) {
        let b2 = bytes[2];
        let cp = ((((b0 & 0x0f) as u32) << 12) | (((b1 & 0x3f) as u32) << 6) | ((b2 & 0x3f) as u32));
        assert(b0 == 0xe0 ==> b1 >= 0xa0) by (bit_vector)
            requires
                0x80 <= b1 <= 0xbf,
                cp == ((((b0 & 0x0f) as u32) << 12) | (((b1 & 0x3f) as u32) << 6) | ((b2
                    & 0x3f) as u32)),
                cp >= 0x800u32,
        ;
        assert(b0 == 0xed ==> b1 <= 0x9f) by (bit_vector)
            requires
                0x80 <= b1 <= 0xbf,
                cp == ((((b0 & 0x0f) as u32) << 12) | (((b1 & 0x3f) as u32) << 6) | ((b2
                    & 0x3f) as u32)),
                !(0xD800u32 <= cp && cp <= 0xDFFFu32),
        ;
        if n >= 2 {
            assert(part[1] == b1);
        }
    } else {
        let b2 = bytes[2];
        let b3 = bytes[3];
        let cp = ((((b0 & 0x07) as u32) << 18) | (((b1 & 0x3f) as u32) << 12) | (((b2
            & 0x3f) as u32) << 6) | ((b3 & 0x3f) as u32));
        assert(b0 <= 0xf4 && (b0 == 0xf0 ==> b1 >= 0x90) && (b0 == 0xf4 ==> b1 <= 0x8f))
            by (bit_vector)
            requires
                0xf0 <= b0 <= 0xf7,
                0x80 <= b1 <= 0xbf,
                cp == ((((b0 & 0x07) as u32) << 18) | (((b1 & 0x3f) as u32) << 12) | (((b2
                    & 0x3f) as u32) << 6) | ((b3 & 0x3f) as u32)),
                0x10000u32 <= cp && cp <= 0x10ffffu32,
        ;
        if n >= 2 {
            assert(part[1] == b1);
        }
        if n >= 3 {
            assert(part[2] == b2);
        }
    }
}

/// Bytes that well-formed UTF-8 begins with leave, after their longest
/// well-formed prefix, nothing or an incomplete scalar, which the bytes that
/// follow complete.
pub proof fn lemma_prefix_of_valid(bytes: Seq<u8>, more: Seq<u8>)
    requires
        valid_utf8(bytes + more),
    ensures
        ({
            let rest = bytes.skip(valid_up_to(bytes) as int);
            &&& rest.len() == 0 || is_incomplete_scalar(rest)
            &&& valid_utf8(rest + more)
        }),
{
    let k = valid_up_to(bytes) as int;
    let rest = bytes.skip(k);
    lemma_valid_up_to(bytes);
    assert(bytes + more =~= bytes.take(k) + (rest + more));
    lemma_valid_suffix(bytes.take(k), rest + more);
    if rest.len() > 0 {
        let whole = rest + more;
        assert(valid_first_scalar(whole));
        let w = length_of_first_scalar(whole);
        if w <= rest.len() {
            assert(valid_first_scalar(rest));
        }
        lemma_scalar_prefix_is_incomplete(whole, rest.len() as int);
        assert(whole.take(rest.len() as int) =~= rest);
    }
}

/// The chunks of well-formed UTF-8 are decoded without an error, wherever
/// the cuts fall. The same holds of the chunks that well-formed UTF-8 begins
/// with.
pub proof fn lemma_valid_is_decodable(pending: Seq<u8>, chunks: Seq<Seq<u8>>, more: Seq<u8>)
    requires
        valid_utf8(pending + chunks.flatten() + more),
    ensures
        decodable(pending, chunks),
    decreases chunks.len(),
{
    if chunks.len() > 0 {
        let first = chunks.first();
        let rest = chunks.drop_first();
        let all = pending + first;
        assert(pending + chunks.flatten() + more =~= all + (rest.flatten() + more));
        lemma_prefix_of_valid(all, rest.flatten() + more);
        let left = all.skip(valid_up_to(all) as int);
        assert(left + (rest.flatten() + more) =~= left + rest.flatten() + more);
        lemma_valid_is_decodable(left, rest, more);
    }
}

/// The beginning of an incomplete scalar is an incomplete scalar.
pub proof fn lemma_incomplete_prefix(bytes: Seq<u8>, n: int)
    requires
        is_incomplete_scalar(bytes),
        1 <= n <= bytes.len(),
    ensures
        is_incomplete_scalar(bytes.take(n)),
{
    let part = bytes.take(n);
    assert(part[0] == bytes[0]);
    if n >= 2 {
        assert(part[1] == bytes[1]);
    }
    if n >= 3 {
        assert(part[2] == bytes[2]);
    }
}

/// A decoding error is final: once a chunk was refused, every later chunk is
/// refused too, and nothing of what is kept is dropped.
pub proof fn lemma_decode_failure_is_final(pending: Seq<u8>, chunk: Seq<u8>, later: Seq<u8>)
    requires
        decode_step(pending, chunk).0 is Err,
    ensures
        decode_step(decode_step(pending, chunk).1, later) == (
            Err::<Seq<char>, Utf8Error>(Utf8Error::Malformed),
            pending + chunk + later,
        ),
{
    let all = pending + chunk;
    let whole = all + later;
    assert(all.skip(0) =~= all);
    lemma_valid_up_to(all);
    assert(!valid_first_scalar(all));
    if valid_first_scalar(whole) {
        let w = length_of_first_scalar(whole);
        if w <= all.len() {
            assert(valid_first_scalar(all));
        } else {
            lemma_scalar_prefix_is_incomplete(whole, all.len() as int);
            assert(whole.take(all.len() as int) =~= all);
        }
    }
    assert(valid_up_to(whole) == 0);
    assert(whole.skip(0) =~= whole);
    if is_incomplete_scalar(whole) {
        lemma_incomplete_prefix(whole, all.len() as int);
        assert(whole.take(all.len() as int) =~= all);
    }
}

/// Well-formed UTF-8 is decoded whole: nothing of it is kept.
pub proof fn lemma_valid_up_to_whole(bytes: Seq<u8>)
    requires
        valid_utf8(bytes),
    ensures
        valid_up_to(bytes) == bytes.len(),
    decreases bytes.len(),
{
    if bytes.len() > 0 {
        lemma_valid_up_to_whole(pop_first_scalar(bytes));
    }
}

/// An incomplete scalar can be completed: some bytes after it make it the
/// well-formed encoding of one scalar value.
pub proof fn lemma_incomplete_can_be_completed(bytes: Seq<u8>) -> (rest: Seq<u8>)
    requires
        is_incomplete_scalar(bytes),
    ensures
        rest.len() > 0,
        valid_first_scalar(bytes + rest),
        length_of_first_scalar(bytes + rest) == bytes.len() + rest.len(),
{
    let b0 = bytes[0];
    let second: u8 = if bytes.len() >= 2 {
        bytes[1]
    } else if b0 == 0xE0 {
        0xA0
    } else if b0 == 0xF0 {
        0x90
    } else {
        0x80
    };
    let third: u8 = if bytes.len() >= 3 {
        bytes[2]
    } else {
        0x80
    };
    let fourth: u8 = 0x80;
    let whole = if b0 < 0xE0 {
        seq![b0, second]
    } else if b0 < 0xF0 {
        seq![b0, second, third]
    } else {
        seq![b0, second, third, fourth]
    };
    let rest = whole.skip(bytes.len() as int);
    assert(bytes + rest =~= whole);
    if b0 < 0xE0 {
        assert(((((b0 & 0x1f) as u32) << 6) | ((second & 0x3f) as u32)) >= 0x80u32 && ((((b0
            & 0x1f) as u32) << 6) | ((second & 0x3f) as u32)) < 0x800u32) by (bit_vector)
            requires
                0xc2 <= b0 < 0xe0,
                0x80 <= second <= 0xbf,
        ;
    } else if b0 < 0xF0 {
        let cp = ((((b0 & 0x0f) as u32) << 12) | (((second & 0x3f) as u32) << 6) | ((third
            & 0x3f) as u32));
        assert(cp >= 0x800u32 && !(0xD800u32 <= cp && cp <= 0xDFFFu32)) by (bit_vector)
            requires
                cp == ((((b0 & 0x0f) as u32) << 12) | (((second & 0x3f) as u32) << 6) | ((third
                    & 0x3f) as u32)),
                0xe0 <= b0 < 0xf0,
                0x80 <= second <= 0xbf,
                0x80 <= third <= 0xbf,
                b0 == 0xe0 ==> second >= 0xa0,
                b0 == 0xed ==> second <= 0x9f,
        ;
    } else {
        let cp = ((((b0 & 0x07) as u32) << 18) | (((second & 0x3f) as u32) << 12) | (((third
            & 0x3f) as u32) << 6) | ((fourth & 0x3f) as u32));
        assert(0x10000u32 <= cp && cp <= 0x10ffffu32) by (bit_vector)
            requires
                cp == ((((b0 & 0x07) as u32) << 18) | (((second & 0x3f) as u32) << 12) | (((third
                    & 0x3f) as u32) << 6) | ((fourth & 0x3f) as u32)),
                0xf0 <= b0 <= 0xf4,
                0x80 <= second <= 0xbf,
                0x80 <= third <= 0xbf,
                0x80 <= fourth <= 0xbf,
                b0 == 0xf0 ==> second >= 0x90,
                b0 == 0xf4 ==> second <= 0x8f,
        ;
    }
    rest
}

/// [`char::from_u32`]: a scalar value as a `char`. It is `Some` for every
/// scalar value.
#[verifier::external_body]
fn scalar_to_char(scalar: u32) -> (r: Option<char>)
    ensures
        is_scalar(scalar) ==> r == Some(scalar as char),
{
    char::from_u32(scalar)
}

/// Decodes the scalar value whose encoding starts at `at`.
fn decode_scalar(bytes: &[u8], at: usize) -> (r: Option<(char, usize)>)
    requires
        at < bytes@.len(),
    ensures
        match r {
            Some((c, width)) => {
                &&& valid_first_scalar(bytes@.skip(at as int))
                &&& width == length_of_first_scalar(bytes@.skip(at as int))
                &&& c == decode_first_scalar(bytes@.skip(at as int)) as char
                &&& at + width <= bytes@.len()
            },
            None => !valid_first_scalar(bytes@.skip(at as int)),
        },
{
    let ghost rest = bytes@.skip(at as int);
    let left: usize = bytes.len() - at;
    let b0: u8 = bytes[at];
    assert(rest[0] == b0);
    let scalar: u32;
    let width: usize;
    if b0 <= 0x7f {
        scalar = (b0 & 0x7f) as u32;
        width = 1;
        assert(scalar <= 0x7f) by (bit_vector)
            requires
                scalar == (b0 & 0x7f) as u32,
        ;
    } else if 0xc0 <= b0 && b0 <= 0xdf {
        if left < 2 {
            return None;
        }
        let b1: u8 = bytes[at + 1];
        assert(rest[1] == b1);
        if !(0x80 <= b1 && b1 <= 0xbf) {
            return None;
        }
        scalar = (((b0 & 0x1f) as u32) << 6) | ((b1 & 0x3f) as u32);
        width = 2;
        assert(scalar <= 0x7ff) by (bit_vector)
            requires
                scalar == (((b0 & 0x1f) as u32) << 6) | ((b1 & 0x3f) as u32),
        ;
        if scalar < 0x80 {
            return None;
        }
    } else if 0xe0 <= b0 && b0 <= 0xef {
        if left < 3 {
            return None;
        }
        let b1: u8 = bytes[at + 1];
        let b2: u8 = bytes[at + 2];
        assert(rest[1] == b1 && rest[2] == b2);
        if !(0x80 <= b1 && b1 <= 0xbf) || !(0x80 <= b2 && b2 <= 0xbf) {
            return None;
        }
        scalar = (((b0 & 0x0f) as u32) << 12) | (((b1 & 0x3f) as u32) << 6) | ((b2 & 0x3f) as u32);
        width = 3;
        assert(scalar <= 0xffff) by (bit_vector)
            requires
                scalar == (((b0 & 0x0f) as u32) << 12) | (((b1 & 0x3f) as u32) << 6) | ((b2
                    & 0x3f) as u32),
        ;
        if scalar < 0x800 || (0xD800 <= scalar && scalar <= 0xDFFF) {
            return None;
        }
    } else if 0xf0 <= b0 && b0 <= 0xf7 {
        if left < 4 {
            return None;
        }
        let b1: u8 = bytes[at + 1];
        let b2: u8 = bytes[at + 2];
        let b3: u8 = bytes[at + 3];
        assert(rest[1] == b1 && rest[2] == b2 && rest[3] == b3);
        if !(0x80 <= b1 && b1 <= 0xbf) || !(0x80 <= b2 && b2 <= 0xbf) || !(0x80 <= b3 && b3
            <= 0xbf) {
            return None;
        }
        scalar = (((b0 & 0x07) as u32) << 18) | (((b1 & 0x3f) as u32) << 12) | (((b2
            & 0x3f) as u32) << 6) | ((b3 & 0x3f) as u32);
        width = 4;
        if scalar < 0x10000 || scalar > 0x10ffff {
            return None;
        }
    } else {
        return None;
    }
    match scalar_to_char(scalar) {
        Some(c) => Some((c, width)),
        None => None,
    }
}

/// Decodes the whole scalars at the front of `bytes`.
fn decode_prefix(bytes: &[u8]) -> (r: (Vec<char>, usize))
    ensures
        r.1 == valid_up_to(bytes@),
        r.1 <= bytes@.len(),
        r.0@ == decode_utf8(bytes@.take(r.1 as int)),
{
    let mut out: Vec<char> = Vec::new();
    let mut at: usize = 0;
    proof {
        assert(bytes@.take(0) =~= Seq::<u8>::empty());
        assert(bytes@.skip(0) =~= bytes@);
    }
    while at < bytes.len()
        invariant
            at <= bytes@.len(),
            valid_utf8(bytes@.take(at as int)),
            out@ == decode_utf8(bytes@.take(at as int)),
            valid_up_to(bytes@) == at + valid_up_to(bytes@.skip(at as int)),
        ensures
            at <= bytes@.len(),
            at == valid_up_to(bytes@),
            out@ == decode_utf8(bytes@.take(at as int)),
        decreases bytes@.len() - at,
    {
        match decode_scalar(bytes, at) {
            Some((c, width)) => {
                proof {
                    let rest = bytes@.skip(at as int);
                    let next = bytes@.take(at + width);
                    assert(pop_first_scalar(rest) =~= bytes@.skip(at + width));
                    assert(partial_valid_utf8(bytes@, at as int));
                    assert(bytes@.subrange(at as int, bytes@.len() as int) =~= rest);
                    partial_valid_utf8_extend(bytes@, at as int);
                    assert(bytes@.subrange(0, at + width) =~= next);
                    assert(next.subrange(0, at as int) =~= bytes@.take(at as int));
                    let one = next.subrange(at as int, next.len() as int);
                    assert(one =~= rest.take(width as int));
                    lemma_decode_one(rest);
                    lemma_valid_up_to(bytes@.take(at as int));
                    lemma_boundary_extend(bytes@.take(at as int), one);
                    assert(bytes@.take(at as int) + one =~= next);
                    decode_utf8_split(next, at as int);
                }
                out.push(c);
                at = at + width;
            },
            None => {
                break ;
            },
        }
    }
    proof {
        if at == bytes@.len() {
            assert(bytes@.skip(at as int) =~= Seq::<u8>::empty());
        }
    }
    (out, at)
}

/// The first scalar of `bytes`, taken alone, decodes to one character.
proof fn lemma_decode_one(bytes: Seq<u8>)
    requires
        valid_first_scalar(bytes),
    ensures
        valid_utf8(bytes.take(length_of_first_scalar(bytes))),
        decode_utf8(bytes.take(length_of_first_scalar(bytes))) == seq![
            decode_first_scalar(bytes) as char,
        ],
{
    let one = bytes.take(length_of_first_scalar(bytes));
    assert(valid_first_scalar(one));
    assert(pop_first_scalar(one) =~= Seq::<u8>::empty());
    reveal_with_fuel(valid_utf8, 2);
    reveal_with_fuel(decode_utf8, 2);
    assert(decode_utf8(one) =~= seq![decode_first_scalar(bytes) as char]);
}

/// The end of a well-formed sequence is still a character boundary once more
/// well-formed bytes follow it.
proof fn lemma_boundary_extend(head: Seq<u8>, tail: Seq<u8>)
    requires
        valid_utf8(head),
        valid_utf8(tail),
    ensures
        valid_utf8(head + tail),
        is_char_boundary(head + tail, head.len() as int),
    decreases head.len(),
{
    valid_utf8_concat(head, tail);
    if head.len() == 0 {
    } else {
        let rest = pop_first_scalar(head);
        lemma_boundary_extend(rest, tail);
        assert(pop_first_scalar(head + tail) =~= rest + tail);
        assert(length_of_first_scalar(head + tail) == length_of_first_scalar(head));
    }
}

/// The decoder: the bytes of a sequence that the chunks seen so far left
/// unfinished.
pub struct Utf8Stream {
    buffer: Vec<u8>,
}

impl Utf8Stream {
    /// The bytes kept for the next chunk.
    pub closed spec fn pending(&self) -> Seq<u8> {
        self.buffer@
    }

    /// A decoder that has seen no bytes.
    pub fn new() -> (r: Utf8Stream)
        ensures
            r.pending() == Seq::<u8>::empty(),
    {
        Utf8Stream { buffer: Vec::new() }
    }

    /// Number of bytes kept for the next chunk.
    pub fn pending_len(&self) -> (r: usize)
        ensures
            r == self.pending().len(),
    {
        self.buffer.len()
    }

    /// Decodes one chunk into characters.
    pub fn decode_chars(&mut self, chunk: &[u8]) -> (r: Result<Vec<char>, Utf8Error>)
        ensures
            match r {
                Ok(text) => decode_step(old(self).pending(), chunk@) == (
                    Ok::<Seq<char>, Utf8Error>(text@),
                    final(self).pending(),
                ),
                Err(e) => decode_step(old(self).pending(), chunk@) == (
                    Err::<Seq<char>, Utf8Error>(e),
                    final(self).pending(),
                ),
            },
    {
        let ghost all = self.buffer@ + chunk@;
        self.buffer.extend_from_slice(chunk);
        assert(self.buffer@ =~= all);
        let (text, valid) = decode_prefix(self.buffer.as_slice());
        let rest = self.buffer.split_off(valid);
        assert(rest@ == all.skip(valid as int));
        if valid == 0 && rest.len() > 0 && !incomplete_scalar(rest.as_slice()) {
            self.buffer = rest;
            assert(rest@ =~= all);
            Err(Utf8Error::Malformed)
        } else {
            self.buffer = rest;
            Ok(text)
        }
    }

    /// Decodes one chunk: the text of the whole sequences in the kept bytes
    /// followed by the chunk. The bytes of an unfinished sequence at the end
    /// are kept.
    pub fn decode(&mut self, chunk: &[u8]) -> (r: Result<String, Utf8Error>)
        ensures
            match r {
                Ok(text) => decode_step(old(self).pending(), chunk@) == (
                    Ok::<Seq<char>, Utf8Error>(text@),
                    final(self).pending(),
                ),
                Err(e) => decode_step(old(self).pending(), chunk@) == (
                    Err::<Seq<char>, Utf8Error>(e),
                    final(self).pending(),
                ),
            },
    {
        match self.decode_chars(chunk) {
            Ok(text) => Ok(string_from_chars(text.as_slice())),
            Err(e) => Err(e),
        }
    }

    /// Reports the end of the input. Kept bytes are an error then, and stay.
    pub fn finish(&self) -> (r: Result<(), Utf8Error>)
        ensures
            r == finish_step(self.pending()),
    {
        if self.buffer.len() == 0 {
            Ok(())
        } else if incomplete_scalar(self.buffer.as_slice()) {
            Err(Utf8Error::Truncated)
        } else {
            Err(Utf8Error::Malformed)
        }
    }
}

/// Decides whether `bytes` is the beginning, but not the whole, of one
/// well-formed sequence.
fn incomplete_scalar(bytes: &[u8]) -> (r: bool)
    ensures
        r == is_incomplete_scalar(bytes@),
{
    let n = bytes.len();
    if n < 1 || n > 3 {
        return false;
    }
    let b0: u8 = bytes[0];
    if b0 < 0xC2 || b0 > 0xF4 {
        return false;
    }
    if n >= 2 {
        let b1: u8 = bytes[1];
        if b0 < 0xE0 || b1 < 0x80 || b1 > 0xBF {
            return false;
        }
        if (b0 == 0xE0 && b1 < 0xA0) || (b0 == 0xED && b1 > 0x9F) || (b0 == 0xF0 && b1 < 0x90) || (
        b0 == 0xF4 && b1 > 0x8F) {
            return false;
        }
    }
    if n >= 3 {
        let b2: u8 = bytes[2];
        if b0 < 0xF0 || b2 < 0x80 || b2 > 0xBF {
            return false;
        }
    }
    true
}

} // verus!
