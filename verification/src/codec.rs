//! Newline-delimited framing of the messages exchanged with Dredd.
//!
//! Every message is one line of UTF-8 text ended by a line feed. Incoming bytes
//! gather in a [`BytesMut`] buffer; [`decode_line`] takes the first complete line
//! out of it and [`encode_line`] appends a framed message to it.

use bytes::BytesMut;
use vstd::prelude::*;
use vstd::utf8::*;

verus! {

broadcast use {vstd::utf8::group_utf8_lib, vstd::string::group_string_axioms};

/// `bytes::BytesMut`, the growable byte buffer that incoming data gathers in;
/// opaque here, its bytes are [`buffered`].
#[verifier::external_type_specification]
#[verifier::external_body]
pub struct ExBytesMut(BytesMut);

/// `std::str::Utf8Error`, the error of `std::str::from_utf8`; opaque here.
#[verifier::external_type_specification]
#[verifier::external_body]
pub struct ExUtf8Error(std::str::Utf8Error);

/// The bytes that a buffer holds, in order.
pub uninterp spec fn buffered(buf: BytesMut) -> Seq<u8>;

/// `BytesMut`'s `Deref<Target = [u8]>`: a view of the bytes the buffer holds.
#[verifier::external_body]
fn buffer_bytes(buf: &BytesMut) -> (s: &[u8])
    ensures
        s@ == buffered(*buf),
{
    buf
}

/// `BytesMut::split_to`: the buffer keeps the bytes from `at` on and hands out
/// the ones before `at` (the source panics when `at` is past the end).
#[verifier::external_body]
fn buffer_split_to(buf: &mut BytesMut, at: usize) -> (front: BytesMut)
    requires
        at <= buffered(*old(buf)).len(),
    ensures
        buffered(front) == buffered(*old(buf)).take(at as int),
        buffered(*final(buf)) == buffered(*old(buf)).skip(at as int),
{
    buf.split_to(at)
}

/// `BytesMut`'s `Extend<&u8>`: appends the bytes of `tail` to the buffer.
/// The source reserves the room first, which panics when the capacity overflows;
/// the length bound keeps the result within what an allocation may hold.
#[verifier::external_body]
fn buffer_extend(buf: &mut BytesMut, tail: &[u8])
    requires
        buffered(*old(buf)).len() + tail@.len() <= isize::MAX,
    ensures
        buffered(*final(buf)) == buffered(*old(buf)) + tail@,
{
    buf.extend(tail)
}

/// `std::str::from_utf8`: succeeds exactly on well-formed UTF-8, and then
/// reads the characters that the bytes encode.
#[verifier::external_body]
fn utf8_text<'a>(bytes: &'a [u8]) -> (r: Result<&'a str, std::str::Utf8Error>)
    ensures
        r is Ok <==> valid_utf8(bytes@),
        r matches Ok(s) ==> s@ == decode_utf8(bytes@),
{
    std::str::from_utf8(bytes)
}

/// Why a line could not be read.
#[derive(Clone, Copy, Debug, PartialEq, Eq, Structural)]
pub enum LineError {
    /// The line is not well-formed UTF-8.
    InvalidUtf8,
}

/// The line feed that ends every message.
pub open spec fn line_feed() -> u8 {
    10u8
}

/// `i` is the position of the first line feed in `bytes`.
pub open spec fn first_line_feed_at(bytes: Seq<u8>, i: int) -> bool {
    &&& 0 <= i < bytes.len()
    &&& bytes[i] == line_feed()
    &&& forall|j: int| 0 <= j < i ==> bytes[j] != line_feed()
}

/// `bytes` holds a complete line.
pub open spec fn holds_line(bytes: Seq<u8>) -> bool {
    exists|i: int| first_line_feed_at(bytes, i)
}

/// The position of the line feed that ends the first line of `bytes`.
pub open spec fn line_end(bytes: Seq<u8>) -> int {
    choose|i: int| first_line_feed_at(bytes, i)
}

/// What reading a line out of a buffer yields.
pub enum LineRead {
    /// No complete line has arrived yet.
    Pending,
    /// A complete line with this text.
    Text(Seq<char>),
    /// A complete line that is not well-formed UTF-8.
    Malformed,
}

/// What reading the first line out of `bytes` yields.
pub open spec fn read_line(bytes: Seq<u8>) -> LineRead {
    if !holds_line(bytes) {
        LineRead::Pending
    } else if valid_utf8(bytes.take(line_end(bytes))) {
        LineRead::Text(decode_utf8(bytes.take(line_end(bytes))))
    } else {
        LineRead::Malformed
    }
}

/// What stays in the buffer after the first line of `bytes` is read.
pub open spec fn after_line(bytes: Seq<u8>) -> Seq<u8> {
    if holds_line(bytes) {
        bytes.skip(line_end(bytes) + 1)
    } else {
        bytes
    }
}

/// The result of [`decode_line`] agrees with what reading the line yields.
pub open spec fn decoded_as(r: Result<Option<String>, LineError>, read: LineRead) -> bool {
    match read {
        LineRead::Pending => r == Ok::<Option<String>, LineError>(None),
        LineRead::Text(text) => r matches Ok(Some(s)) && s@ == text,
        LineRead::Malformed => r == Err::<Option<String>, LineError>(LineError::InvalidUtf8),
    }
}

/// The bytes that frame a message: its UTF-8 encoding followed by a line feed.
pub open spec fn frame(msg: Seq<char>) -> Seq<u8> {
    encode_utf8(msg).push(line_feed())
}

proof fn lemma_first_line_feed_unique(bytes: Seq<u8>, i: int, k: int)
    requires
        first_line_feed_at(bytes, i),
        first_line_feed_at(bytes, k),
    ensures
        i == k,
{
    if i < k {
        assert(bytes[i] != line_feed());
    } else if k < i {
        assert(bytes[k] != line_feed());
    }
}

proof fn lemma_scalar_bytes_not_line_feed(v: u32)
    requires
        v != 10,
    ensures
        v <= 0x7F ==> leading_byte_width_1(v) != 10,
        leading_byte_width_2(v) != 10,
        leading_byte_width_3(v) != 10,
        leading_byte_width_4(v) != 10,
        last_continuation_byte(v) != 10,
        second_last_continuation_byte(v) != 10,
        third_last_continuation_byte(v) != 10,
{
    assert(v <= 0x7Fu32 ==> ((v & 0x7Fu32) as u8) != 10u8) by (bit_vector)
        requires
            v != 10u32,
    ;
    assert((0xC0u8 | (((v >> 6u32) & 0x1Fu32) as u8)) != 10u8) by (bit_vector);
    assert((0xE0u8 | (((v >> 12u32) & 0x0Fu32) as u8)) != 10u8) by (bit_vector);
    assert((0xF0u8 | (((v >> 18u32) & 0x7u32) as u8)) != 10u8) by (bit_vector);
    assert((0x80u8 | ((v & 0x3Fu32) as u8)) != 10u8) by (bit_vector);
    assert((0x80u8 | (((v >> 6u32) & 0x3Fu32) as u8)) != 10u8) by (bit_vector);
    assert((0x80u8 | (((v >> 12u32) & 0x3Fu32) as u8)) != 10u8) by (bit_vector);
}

/// Text without a line break encodes to bytes without a line feed.
pub proof fn lemma_encoding_has_no_line_feed(msg: Seq<char>)
    requires
        !msg.contains('\n'),
    ensures
        forall|i: int| 0 <= i < encode_utf8(msg).len() ==> encode_utf8(msg)[i] != line_feed(),
    decreases msg.len(),
{
    if msg.len() > 0 {
        let c = msg[0];
        assert(c != '\n');
        let v = c as u32;
        char_is_scalar(c);
        char_u32_cast(c, v);
        assert(('\n' as u32) as char == '\n');
        assert('\n' as u32 == 10u32);
        assert(v != 10u32);
        lemma_scalar_bytes_not_line_feed(v);
        let rest = msg.drop_first();
        assert forall|k: int| 0 <= k < rest.len() implies rest[k] != '\n' by {
            assert(rest[k] == msg[k + 1]);
        }
        lemma_encoding_has_no_line_feed(rest);
        let head = encode_scalar(v);
        assert(encode_utf8(msg) == head + encode_utf8(rest));
        assert forall|i: int| 0 <= i < encode_utf8(msg).len() implies encode_utf8(msg)[i] != line_feed() by {
            if i < head.len() {
                assert(encode_utf8(msg)[i] == head[i]);
            } else {
                assert(encode_utf8(msg)[i] == encode_utf8(rest)[i - head.len()]);
            }
        }
    }
}

/// A message framed by [`encode_line`] is read back whole by [`decode_line`]:
/// for a message without a line break, reading a line from its frame followed by
/// any further bytes gives the message and leaves exactly the further bytes.
pub proof fn lemma_frame_read_back(msg: Seq<char>, rest: Seq<u8>)
    requires
        !msg.contains('\n'),
    ensures
        read_line(frame(msg) + rest) == LineRead::Text(msg),
        after_line(frame(msg) + rest) == rest,
{
    let bytes = frame(msg) + rest;
    let n = encode_utf8(msg).len() as int;
    lemma_encoding_has_no_line_feed(msg);
    assert(first_line_feed_at(bytes, n));
    lemma_first_line_feed_unique(bytes, n, line_end(bytes));
    assert(bytes.take(n) =~= encode_utf8(msg));
    assert(bytes.skip(n + 1) =~= rest);
}

/// Takes the first complete line out of `buf`.
///
/// Without a line feed in the buffer nothing happens and `Ok(None)` comes back.
/// Otherwise the line and its line feed leave the buffer, and the line's text
/// comes back, or `InvalidUtf8` when the line is not well-formed UTF-8.
pub fn decode_line(buf: &mut BytesMut) -> (r: Result<Option<String>, LineError>)
    ensures
        decoded_as(r, read_line(buffered(*old(buf)))),
        buffered(*final(buf)) == after_line(buffered(*old(buf))),
{
    let ghost start = buffered(*buf);
    let bytes = buffer_bytes(buf);
    let n = bytes.len();
    let mut i: usize = 0;
    while i < n
        invariant
            n == bytes@.len(),
            bytes@ == start,
            i <= n,
            forall|j: int| 0 <= j < i ==> bytes@[j] != line_feed(),
        ensures
            i <= n,
            forall|j: int| 0 <= j < i ==> bytes@[j] != line_feed(),
            i < n ==> bytes@[i as int] == line_feed(),
        decreases n - i,
    {
        if bytes[i] == 10u8 {
            break;
        }
        i += 1;
    }
    if i == n {
        assert(!holds_line(start));
        return Ok(None);
    }
    proof {
        assert(first_line_feed_at(start, i as int));
        lemma_first_line_feed_unique(start, i as int, line_end(start));
    }
    let line = buffer_split_to(buf, i);
    let _ = buffer_split_to(buf, 1);
    assert(buffered(*buf) =~= start.skip(i + 1));
    let text = buffer_bytes(&line);
    match utf8_text(text) {
        Ok(s) => Ok(Some(s.to_string())),
        Err(_) => Err(LineError::InvalidUtf8),
    }
}

/// Appends `msg` to `buf` as one line: its UTF-8 bytes and a line feed.
pub fn encode_line(msg: String, buf: &mut BytesMut)
    requires
        buffered(*old(buf)).len() + encode_utf8(msg@).len() + 1 <= isize::MAX,
    ensures
        buffered(*final(buf)) == buffered(*old(buf)) + frame(msg@),
{
    let ghost start = buffered(*buf);
    let body = msg.as_str().as_bytes();
    buffer_extend(buf, body);
    let end: [u8; 1] = [10u8];
    buffer_extend(buf, end.as_slice());
    assert(buffered(*buf) =~= start + frame(msg@));
}

} // verus!
