//! The counting sink: a byte buffer that keeps count of the lines written to
//! it.

use vstd::prelude::*;
use vstd::utf8::*;

verus! {

broadcast use {vstd::utf8::group_utf8_lib, vstd::string::group_string_axioms};

/// The number of line feed bytes in `bytes`.
pub open spec fn line_feeds(bytes: Seq<u8>) -> nat
    decreases bytes.len(),
{
    if bytes.len() == 0 {
        0
    } else {
        line_feeds(bytes.drop_last()) + if bytes.last() == 10u8 {
            1nat
        } else {
            0nat
        }
    }
}

/// The line feeds of two byte strings add up when the strings are joined.
pub proof fn lemma_line_feeds_concat(a: Seq<u8>, b: Seq<u8>)
    ensures
        line_feeds(a + b) == line_feeds(a) + line_feeds(b),
    decreases b.len(),
{
    if b.len() == 0 {
    } else {
        assert((a + b).drop_last() =~= a + b.drop_last());
        lemma_line_feeds_concat(a, b.drop_last());
    }
}

/// Of the bytes that encode a character, only the one byte that encodes a
/// line feed is the line feed byte.
proof fn lemma_encoded_byte_values(v: u32)
    by (bit_vector)
    ensures
        v <= 0x7F ==> (((v & 0x7F) as u8 == 10u8) <==> v == 10),
        (0xC0u8 | ((v >> 6) & 0x1F) as u8) != 10u8,
        (0xE0u8 | ((v >> 12) & 0x0F) as u8) != 10u8,
        (0xF0u8 | ((v >> 18) & 0x7) as u8) != 10u8,
        (0x80u8 | (v & 0x3F) as u8) != 10u8,
        (0x80u8 | ((v >> 6) & 0x3F) as u8) != 10u8,
        (0x80u8 | ((v >> 12) & 0x3F) as u8) != 10u8,
{
}

/// One more byte is one more line feed exactly if it is the line feed byte.
proof fn lemma_line_feeds_push(s: Seq<u8>, b: u8)
    ensures
        line_feeds(s.push(b)) == line_feeds(s) + if b == 10u8 {
            1nat
        } else {
            0nat
        },
{
    assert(s.push(b).drop_last() =~= s);
}

/// The encoding of a character holds one line feed byte if the character
/// is the line feed, else none.
proof fn lemma_scalar_line_feeds(c: char)
    ensures
        line_feeds(encode_scalar(c as u32)) == if c == '\n' {
            1nat
        } else {
            0nat
        },
{
    let v = c as u32;
    lemma_encoded_byte_values(v);
    char_u32_cast(c, v);
    let e = Seq::<u8>::empty();
    if has_width_1_encoding(v) {
        lemma_line_feeds_push(e, leading_byte_width_1(v));
    } else if has_width_2_encoding(v) {
        let s1 = e.push(leading_byte_width_2(v));
        assert(encode_scalar(v) =~= s1.push(last_continuation_byte(v)));
        lemma_line_feeds_push(e, leading_byte_width_2(v));
        lemma_line_feeds_push(s1, last_continuation_byte(v));
    } else if has_width_3_encoding(v) {
        let s1 = e.push(leading_byte_width_3(v));
        let s2 = s1.push(second_last_continuation_byte(v));
        assert(encode_scalar(v) =~= s2.push(last_continuation_byte(v)));
        lemma_line_feeds_push(e, leading_byte_width_3(v));
        lemma_line_feeds_push(s1, second_last_continuation_byte(v));
        lemma_line_feeds_push(s2, last_continuation_byte(v));
    } else {
        let s1 = e.push(leading_byte_width_4(v));
        let s2 = s1.push(third_last_continuation_byte(v));
        let s3 = s2.push(second_last_continuation_byte(v));
        assert(encode_scalar(v) =~= s3.push(last_continuation_byte(v)));
        lemma_line_feeds_push(e, leading_byte_width_4(v));
        lemma_line_feeds_push(s1, third_last_continuation_byte(v));
        lemma_line_feeds_push(s2, second_last_continuation_byte(v));
        lemma_line_feeds_push(s3, last_continuation_byte(v));
    }
}

/// The UTF-8 encoding of a text without line feed characters holds no line
/// feed byte.
pub proof fn lemma_text_without_line_feed(s: Seq<char>)
    requires
        !s.contains('\n'),
    ensures
        line_feeds(encode_utf8(s)) == 0,
    decreases s.len(),
{
    if s.len() > 0 {
        let rest = s.drop_first();
        assert(s[0] != '\n') by {
        }
        assert forall|k: int| 0 <= k < rest.len() implies rest[k] != '\n' by {
        }
        lemma_text_without_line_feed(rest);
        lemma_scalar_line_feeds(s[0]);
        lemma_line_feeds_concat(encode_scalar(s[0] as u32), encode_utf8(rest));
    }
}

/// The encoding of a text followed by a line feed is the text's encoding
/// followed by the line feed byte.
pub proof fn lemma_encode_line(s: Seq<char>)
    ensures
        encode_utf8(s.push('\n')) == encode_utf8(s).push(10u8),
    decreases s.len(),
{
    lemma_encoded_byte_values('\n' as u32);
    if s.len() == 0 {
        let one = s.push('\n');
        assert(encode_utf8(one.drop_first()) =~= Seq::<u8>::empty());
    } else {
        assert(s.push('\n').drop_first() =~= s.drop_first().push('\n'));
        lemma_encode_line(s.drop_first());
    }
}

/// A line of text without line feed characters, terminated by one line feed,
/// counts as exactly one line.
pub proof fn lemma_one_line(s: Seq<char>)
    requires
        !s.contains('\n'),
    ensures
        line_feeds(encode_utf8(s.push('\n'))) == 1,
{
    lemma_encode_line(s);
    lemma_text_without_line_feed(s);
    lemma_line_feeds_push(encode_utf8(s), 10u8);
}

/// Why a write did not take place.
#[derive(Clone, Copy, Debug, PartialEq, Eq, Structural)]
pub enum WriteError {
    /// The counter cannot hold the number of lines that the buffer would
    /// bring it to.
    CounterOverflow,
}

/// What is said of a write that did not take place.
pub open spec fn write_error_text(error: WriteError) -> Seq<char> {
    match error {
        WriteError::CounterOverflow => "entity counter overflow"@,
    }
}

impl WriteError {
    /// What is said of the failure.
    pub fn message(self) -> (text: &'static str)
        ensures
            text@ == write_error_text(self),
    {
        match self {
            WriteError::CounterOverflow => "entity counter overflow",
        }
    }
}

/// A sink that counts the lines written to it.
pub struct CountingWriter {
    inner: Vec<u8>,
    counter: usize,
    refused: bool,
}

/// What a sink holds: the bytes written to it, its count of lines, and
/// whether it has refused a write.
pub struct SinkState {
    pub written: Seq<u8>,
    pub count: nat,
    pub refused: bool,
}

impl View for CountingWriter {
    type V = SinkState;

    closed spec fn view(&self) -> SinkState {
        SinkState { written: self.inner@, count: self.counter as nat, refused: self.refused }
    }
}

impl CountingWriter {
    /// Everything in the sink.
    pub open spec fn written(&self) -> Seq<u8> {
        self@.written
    }

    /// The count of lines.
    pub open spec fn count(&self) -> nat {
        self@.count
    }

    /// The count of lines fits the counter.
    pub proof fn lemma_count_in_range(&self)
        ensures
            self.count() <= usize::MAX,
    {
    }

    /// A sink that continues `inner` and counts on from `counter`, and that
    /// has refused nothing yet.
    pub fn new(inner: Vec<u8>, counter: usize) -> (sink: CountingWriter)
        ensures
            sink@ == (SinkState { written: inner@, count: counter as nat, refused: false }),
    {
        CountingWriter { inner, counter, refused: false }
    }

    /// Appends `buf` to the sink and adds its line feeds to the count. A
    /// buffer whose line feeds the counter cannot count is refused: nothing
    /// of it is written, and the sink remembers the refusal. So the count
    /// stays in step with the lines in the sink, whatever is written.
    pub fn write(&mut self, buf: &[u8]) -> (done: Result<usize, WriteError>)
        ensures
            done is Ok <==> old(self).count() + line_feeds(buf@) <= usize::MAX,
            done matches Ok(n) ==> n == buf@.len() && final(self)@ == (SinkState {
                written: old(self).written() + buf@,
                count: old(self).count() + line_feeds(buf@),
                ..old(self)@
            }),
            done is Err ==> final(self)@ == (SinkState { refused: true, ..old(self)@ }),
            final(self).count() - old(self).count() == line_feeds(final(self).written())
                - line_feeds(old(self).written()),
    {
        let lines = count_line_feeds(buf);
        proof {
            lemma_line_feeds_concat(self.inner@, buf@);
        }
        if lines > usize::MAX - self.counter {
            self.refused = true;
            return Err(WriteError::CounterOverflow);
        }
        self.counter = self.counter + lines;
        self.inner.extend_from_slice(buf);
        assert(self.inner@ =~= old(self).inner@ + buf@);
        Ok(buf.len())
    }

    /// Whether the sink has refused a write.
    pub fn refused(&self) -> (yes: bool)
        ensures
            yes == self@.refused,
    {
        self.refused
    }

    /// Passes on what the sink holds; a memory sink holds nothing back.
    pub fn flush(&mut self)
        ensures
            final(self)@ == old(self)@,
    {
    }

    /// The number of lines counted so far.
    pub fn lines(&self) -> (n: usize)
        ensures
            n == self.count(),
    {
        self.counter
    }

    /// The bytes in the sink.
    pub fn bytes(&self) -> (bytes: &Vec<u8>)
        ensures
            bytes@ == self.written(),
    {
        &self.inner
    }

    /// Gives back the buffer and the counter.
    pub fn into_parts(self) -> (parts: (Vec<u8>, usize))
        ensures
            parts.0@ == self.written(),
            parts.1 == self.count(),
    {
        (self.inner, self.counter)
    }
}

/// The number of line feed bytes in `buf`.
pub fn count_line_feeds(buf: &[u8]) -> (n: usize)
    ensures
        n == line_feeds(buf@),
{
    let mut n: usize = 0;
    let mut i: usize = 0;
    while i < buf.len()
        invariant
            i <= buf.len(),
            n <= i,
            n == line_feeds(buf@.take(i as int)),
        decreases buf.len() - i,
    {
        proof {
            assert(buf@.take(i + 1) =~= buf@.take(i as int).push(buf@[i as int]));
            lemma_line_feeds_push(buf@.take(i as int), buf@[i as int]);
        }
        if buf[i] == 10u8 {
            n = n + 1;
        }
        i = i + 1;
    }
    assert(buf@.take(buf.len() as int) =~= buf@);
    n
}

} // verus!
