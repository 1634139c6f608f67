//! Line-oriented byte transports used by the motor backends.

use vstd::prelude::*;

use crate::errors::RuntimeError;
use vstd::utf8::{decode_utf8, encode_scalar, encode_utf8, valid_utf8};
use crate::text::{chars_of, slice_vec, string_of, texts, trim_end, trim_end_len, CharClass};

verus! {

/// The text that `String::from_utf8_lossy` makes of `bytes`.
pub uninterp spec fn utf8_lossy(bytes: Seq<u8>) -> Seq<char>;

/// `String::from_utf8_lossy`: decodes the bytes, replacing invalid sequences.
/// Stated: the result is named [`utf8_lossy`] of the bytes, and for valid UTF-8
/// it is exactly the decoded text. Not stated: which replacement characters
/// stand for invalid sequences.
#[verifier::external_body]
fn string_from_utf8_lossy(bytes: &[u8]) -> (s: String)
    ensures
        s@ == utf8_lossy(bytes@),
        valid_utf8(bytes@) ==> s@ == decode_utf8(bytes@),
{
    String::from_utf8_lossy(bytes).to_string()
}

/// Minimal line-oriented transport used by stepper / ODrive backends.
pub trait Transport {
    /// Write raw bytes (must include newline if the protocol needs it).
    fn write_all(&mut self, bytes: &[u8]) -> Result<(), RuntimeError>;

    /// Read until newline (or timeout). Returns line without trailing `\r`/`\n`.
    fn read_line(&mut self) -> Result<String, RuntimeError>;
}

/// Records writes; scripted replies for tests.
#[derive(Default, Debug)]
pub struct MockTransport {
    /// Bytes written (as UTF-8 lossy strings per write).
    pub writes: Vec<String>,
    /// FIFO of replies returned by `read_line`.
    pub replies: Vec<String>,
}

impl MockTransport {
    /// Create empty mock.
    pub fn new() -> (t: Self)
        ensures
            t.writes@.len() == 0,
            t.replies@.len() == 0,
    {
        MockTransport { writes: Vec::new(), replies: Vec::new() }
    }

    /// Queue a reply for the next read.
    pub fn push_reply(&mut self, s: &str)
        ensures
            texts(final(self).replies@) == texts(old(self).replies@).push(s@),
            final(self).writes@ == old(self).writes@,
    {
        let ghost before = texts(self.replies@);
        self.replies.push(String::from_str(s));
        assert(texts(self.replies@) =~= before.push(s@));
    }
}

impl Transport for MockTransport {
    fn write_all(&mut self, bytes: &[u8]) -> (r: Result<(), RuntimeError>)
        ensures
            r is Ok,
            texts(final(self).writes@) == texts(old(self).writes@).push(utf8_lossy(bytes@)),
            final(self).replies@ == old(self).replies@,
    {
        let ghost before = texts(self.writes@);
        self.writes.push(string_from_utf8_lossy(bytes));
        assert(texts(self.writes@) =~= before.push(utf8_lossy(bytes@)));
        Ok(())
    }

    fn read_line(&mut self) -> (r: Result<String, RuntimeError>)
        ensures
            old(self).replies@.len() == 0 ==> (r matches Ok(s) && s@ == "OK"@),
            old(self).replies@.len() == 0 ==> final(self).replies@ == old(self).replies@,
            old(self).replies@.len() > 0 ==> r == Ok::<String, RuntimeError>(old(self).replies@[0]),
            old(self).replies@.len() > 0 ==> final(self).replies@ == old(self).replies@.drop_first(),
            final(self).writes@ == old(self).writes@,
    {
        if self.replies.len() == 0 {
            return Ok(String::from_str("OK"));
        }
        let s = self.replies.remove(0);
        assert(self.replies@ =~= old(self).replies@.drop_first());
        Ok(s)
    }
}

/// Index of the first newline byte of `b` (`b.len()` if none).
pub open spec fn newline_pos(b: Seq<u8>) -> nat
    decreases b.len(),
{
    if b.len() == 0 {
        0
    } else if b[0] == 10u8 {
        0
    } else {
        1 + newline_pos(b.drop_first())
    }
}

proof fn lemma_newline_pos(b: Seq<u8>, r: int)
    requires
        0 <= r <= b.len(),
        forall|j: int| 0 <= j < r ==> b[j] != 10u8,
        r < b.len() ==> b[r] == 10u8,
    ensures
        newline_pos(b) == r,
    decreases r,
{
    if r > 0 {
        lemma_newline_pos(b.drop_first(), r - 1);
    }
}

/// The text of a received line: the bytes decoded, without trailing `\r`
/// and `\n` characters.
pub open spec fn line_text(bytes: Seq<u8>) -> Seq<char> {
    trim_end(utf8_lossy(bytes), CharClass::LineEnd)
}

/// Bytes received on a line-oriented link and not yet handed out as lines.
#[derive(Clone, Debug)]
pub struct LineBuffer {
    buf: Vec<u8>,
}

impl View for LineBuffer {
    type V = Seq<u8>;

    closed spec fn view(&self) -> Seq<u8> {
        self.buf@
    }
}

/// Decodes `bytes` and strips the trailing line-end characters.
fn decode_line(bytes: &[u8]) -> (s: String)
    ensures
        s@ == line_text(bytes@),
        valid_utf8(bytes@) ==> s@ == trim_end(decode_utf8(bytes@), CharClass::LineEnd),
{
    let t = string_from_utf8_lossy(bytes);
    let v = chars_of(t.as_str());
    let k = trim_end_len(&v, CharClass::LineEnd);
    string_of(&slice_vec(&v, 0, k))
}

impl LineBuffer {
    /// An empty buffer.
    pub fn new() -> (b: Self)
        ensures
            b@ == Seq::<u8>::empty(),
    {
        LineBuffer { buf: Vec::new() }
    }

    /// Whether nothing is buffered.
    pub fn is_empty(&self) -> (r: bool)
        ensures
            r == (self@.len() == 0),
    {
        self.buf.len() == 0
    }

    /// Appends received bytes.
    pub fn extend(&mut self, data: &[u8])
        ensures
            final(self)@ == old(self)@ + data@,
    {
        let mut i: usize = 0;
        while i < data.len()
            invariant
                0 <= i <= data.len(),
                self@ == old(self)@ + data@.take(i as int),
            decreases data.len() - i,
        {
            self.buf.push(data[i]);
            assert(old(self)@ + data@.take(i + 1) =~= (old(self)@ + data@.take(i as int)).push(data@[i as int]));
            i = i + 1;
        }
        assert(data@.take(data.len() as int) =~= data@);
    }

    /// Hands out the first complete line (through its newline), as
    /// [`line_text`]; `None` and nothing changes when no newline has arrived.
    pub fn take_line(&mut self) -> (r: Option<String>)
        ensures
            newline_pos(old(self)@) == old(self)@.len() ==> r is None && final(self)@ == old(self)@,
            newline_pos(old(self)@) < old(self)@.len() ==> {
                let p = newline_pos(old(self)@) as int;
                &&& r is Some
                &&& r->0@ == line_text(old(self)@.take(p + 1))
                &&& valid_utf8(old(self)@.take(p + 1)) ==> r->0@ == trim_end(
                    decode_utf8(old(self)@.take(p + 1)),
                    CharClass::LineEnd,
                )
                &&& final(self)@ == old(self)@.skip(p + 1)
            },
    {
        let n = self.buf.len();
        let mut p: usize = 0;
        let mut head: Vec<u8> = Vec::new();
        while p < n && self.buf[p] != 10u8
            invariant
                p <= n == self.buf.len(),
                forall|j: int| 0 <= j < p ==> self.buf@[j] != 10u8,
                head@ == self.buf@.take(p as int),
            decreases n - p,
        {
            head.push(self.buf[p]);
            assert(self.buf@.take(p + 1) =~= self.buf@.take(p as int).push(self.buf@[p as int]));
            p = p + 1;
        }
        proof {
            lemma_newline_pos(self.buf@, p as int);
        }
        if p == n {
            return None;
        }
        head.push(10u8);
        assert(head@ =~= self.buf@.take(p + 1));
        let line = decode_line(head.as_slice());
        let mut rest: Vec<u8> = Vec::new();
        let mut i = p + 1;
        while i < n
            invariant
                p + 1 <= i <= n == self.buf.len(),
                rest@ == self.buf@.subrange(p + 1, i as int),
            decreases n - i,
        {
            rest.push(self.buf[i]);
            assert(self.buf@.subrange(p + 1, i + 1) =~= self.buf@.subrange(p + 1, i as int).push(self.buf@[i as int]));
            i = i + 1;
        }
        assert(self.buf@.subrange(p + 1, n as int) =~= self.buf@.skip(p + 1));
        self.buf = rest;
        Some(line)
    }

    /// Hands out whatever is buffered as a line (as [`line_text`]) and
    /// empties the buffer; `None` when nothing is buffered.
    pub fn take_rest(&mut self) -> (r: Option<String>)
        ensures
            old(self)@.len() == 0 ==> r is None && final(self)@ == old(self)@,
            old(self)@.len() > 0 ==> (r matches Some(t) && t@ == line_text(old(self)@)) && final(self)@
                == Seq::<u8>::empty(),
    {
        if self.buf.len() == 0 {
            return None;
        }
        let line = decode_line(self.buf.as_slice());
        self.buf = Vec::new();
        Some(line)
    }
}


proof fn lemma_encode_concat(a: Seq<char>, b: Seq<char>)
    ensures
        encode_utf8(a + b) == encode_utf8(a) + encode_utf8(b),
    decreases a.len(),
{
    if a.len() == 0 {
        assert(a + b =~= b);
        assert(encode_utf8(a) + encode_utf8(b) =~= encode_utf8(b));
    } else {
        assert((a + b).drop_first() =~= a.drop_first() + b);
        assert((a + b)[0] == a[0]);
        lemma_encode_concat(a.drop_first(), b);
        assert(encode_utf8(a + b) =~= encode_utf8(a) + encode_utf8(b));
    }
}

proof fn lemma_ascii_byte(u: u32)
    by (bit_vector)
    requires
        u <= 0x7f,
    ensures
        ((u & 0x7f) as u8) == u as u8,
        u == 10 <==> (u as u8) == 10u8,
{
}

proof fn lemma_marked_byte(x: u8)
    by (bit_vector)
    ensures
        (0x80u8 | x) != 10u8,
        (0xC0u8 | x) != 10u8,
        (0xE0u8 | x) != 10u8,
        (0xF0u8 | x) != 10u8,
{
}

/// The encoding of a character other than `\n` holds no newline byte.
proof fn lemma_scalar_no_newline(c: char)
    requires
        c != '\n',
    ensures
        forall|j: int| 0 <= j < encode_scalar(c as u32).len() ==> #[trigger] encode_scalar(c as u32)[j] != 10u8,
{
    let u = c as u32;
    vstd::utf8::char_is_scalar(c);
    if u <= 0x7f {
        lemma_ascii_byte(u);
        assert(u != 10) by {
            vstd::utf8::char_u32_cast(c, u);
        }
    } else {
        lemma_marked_byte(((u >> 6) & 0x1F) as u8);
        lemma_marked_byte(((u >> 12) & 0x0F) as u8);
        lemma_marked_byte(((u >> 18) & 0x7) as u8);
        lemma_marked_byte((u & 0x3F) as u8);
        lemma_marked_byte(((u >> 6) & 0x3F) as u8);
        lemma_marked_byte(((u >> 12) & 0x3F) as u8);
    }
}

proof fn lemma_encode_no_newline(text: Seq<char>)
    requires
        forall|i: int| 0 <= i < text.len() ==> text[i] != '\n',
    ensures
        forall|j: int| 0 <= j < encode_utf8(text).len() ==> #[trigger] encode_utf8(text)[j] != 10u8,
    decreases text.len(),
{
    if text.len() > 0 {
        let head = encode_scalar(text[0] as u32);
        let tail = encode_utf8(text.drop_first());
        lemma_scalar_no_newline(text[0]);
        lemma_encode_no_newline(text.drop_first());
        assert(encode_utf8(text) == head + tail);
        assert forall|j: int| 0 <= j < encode_utf8(text).len() implies #[trigger] encode_utf8(text)[j]
            != 10u8 by {
            if j < head.len() {
                assert(encode_utf8(text)[j] == head[j]);
            } else {
                assert(encode_utf8(text)[j] == tail[j - head.len()]);
            }
        }
    }
}

/// A line of text with no newline in it and no carriage return at its end,
/// sent as its UTF-8 bytes followed by `\n`, is what [`LineBuffer::take_line`]
/// hands back at the other end: the first newline of the received bytes ends
/// exactly that line, the bytes up to it are valid UTF-8 whose decoding,
/// without its line end, is the text, and whatever followed stays buffered.
pub proof fn lemma_sent_line_reads_back(text: Seq<char>, rest: Seq<u8>)
    requires
        forall|i: int| 0 <= i < text.len() ==> text[i] != '\n',
        text.len() == 0 || text.last() != '\r',
    ensures
        ({
            let bytes = encode_utf8(text.push('\n')) + rest;
            let p = encode_utf8(text).len() as int;
            &&& newline_pos(bytes) == p
            &&& p < bytes.len()
            &&& valid_utf8(bytes.take(p + 1))
            &&& trim_end(decode_utf8(bytes.take(p + 1)), CharClass::LineEnd) == text
            &&& bytes.skip(p + 1) == rest
        }),
{
    let line = text.push('\n');
    let e = encode_utf8(text);
    let p = e.len() as int;
    lemma_encode_concat(text, seq!['\n']);
    assert(text + seq!['\n'] =~= line);
    lemma_ascii_byte(10u32);
    assert(('\n' as u32) == 10u32);
    assert(encode_scalar('\n' as u32) =~= seq![10u8]);
    assert(seq!['\n'].drop_first() =~= Seq::<char>::empty());
    assert(encode_utf8(Seq::<char>::empty()) == Seq::<u8>::empty());
    assert(encode_utf8(seq!['\n']) == encode_scalar('\n' as u32) + encode_utf8(seq!['\n'].drop_first()));
    assert(encode_utf8(seq!['\n']) =~= seq![10u8]);
    let bytes = encode_utf8(line) + rest;
    assert(bytes =~= e + seq![10u8] + rest);
    lemma_encode_no_newline(text);
    lemma_newline_pos(bytes, p);
    assert(bytes.take(p + 1) =~= encode_utf8(line));
    assert(bytes.skip(p + 1) =~= rest);
    vstd::utf8::encode_utf8_valid_utf8(line);
    vstd::utf8::encode_utf8_decode_utf8(line);
    assert(line.drop_last() =~= text);
    assert(trim_end(text, CharClass::LineEnd) == text);
}

} // verus!
