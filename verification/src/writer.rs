//! The indented text writer and its mathematical model.
//!
//! [`IndentedTextWriter`] owns a growable byte buffer, an indent unit, a
//! signed indent level, a pending-indentation flag and a pair of delimiter
//! characters. Its behaviour is described by the ghost [`WriterModel`] and the
//! transition functions [`write_model`], [`write_line_model`],
//! [`write_no_tabs_model`] and [`write_line_no_tabs_model`].

use vstd::prelude::*;
use vstd::utf8::decode_utf8;
use vstd::utf8::encode_scalar;
use vstd::utf8::encode_utf8;
use vstd::utf8::valid_utf8;
use vstd::string::StringExecFns;
use vstd::string::StringSliceAdditionalSpecFns;
use crate::to_bytes::ToBytes;

verus! {

/// Mathematical state of an [`IndentedTextWriter`].
#[verifier::ext_equal]
pub ghost struct WriterModel {
    /// Bytes appended so far.
    pub buffer: Seq<u8>,
    /// Text of one indentation level.
    pub tab: Seq<char>,
    /// Current nesting depth; may go negative.
    pub level: int,
    /// True when the next tabbed write must first emit the indentation.
    pub pending: bool,
    /// Character whose occurrences in a written line raise the level.
    pub begin: char,
    /// Character whose occurrences in a written line lower the level.
    pub end: char,
}

/// The line terminator appended by the line-writing operations: a single
/// newline byte.
pub open spec fn line_ending() -> Seq<u8> {
    seq![10u8]
}

/// `level` copies of `tab`, or the empty sequence when `level <= 0`.
/// A negative level never emits anything.
pub open spec fn tab_block(tab: Seq<u8>, level: int) -> Seq<u8>
    decreases level,
{
    if level <= 0 {
        Seq::empty()
    } else {
        tab_block(tab, level - 1) + tab
    }
}

/// `level` copies of the indent-unit text, or the empty text when
/// `level <= 0`.
pub open spec fn repeat_text(tab: Seq<char>, level: int) -> Seq<char>
    decreases level,
{
    if level <= 0 {
        Seq::empty()
    } else {
        repeat_text(tab, level - 1) + tab
    }
}

/// Number of positions in `bytes` at which the byte pattern `pat` occurs.
/// An empty pattern occurs nowhere.
pub open spec fn count_matches(bytes: Seq<u8>, pat: Seq<u8>) -> int
    decreases bytes.len(),
{
    if pat.len() == 0 || bytes.len() < pat.len() {
        0
    } else {
        (if bytes.subrange(0, pat.len() as int) == pat {
            1int
        } else {
            0int
        }) + count_matches(bytes.drop_first(), pat)
    }
}

/// Number of occurrences of the delimiter character `c` in `bytes`, counted
/// as occurrences of the character's full UTF-8 encoding.
pub open spec fn count_delim(bytes: Seq<u8>, c: char) -> int {
    count_matches(bytes, encode_scalar(c as u32))
}

/// The indentation bytes a tabbed write would emit before its content:
/// `level` copies of the encoded indent unit when indentation is pending,
/// nothing otherwise.
pub open spec fn pending_block(m: WriterModel) -> Seq<u8> {
    if m.pending {
        tab_block(encode_utf8(m.tab), m.level)
    } else {
        Seq::empty()
    }
}

/// Effect of `write`: flush pending indentation, append the bytes, clear the
/// pending flag. The level and the configuration do not change.
pub open spec fn write_model(m: WriterModel, bytes: Seq<u8>) -> WriterModel {
    WriterModel { buffer: m.buffer + pending_block(m) + bytes, pending: false, ..m }
}

/// Effect of `write_no_tabs`: append the bytes and touch nothing else.
pub open spec fn write_no_tabs_model(m: WriterModel, bytes: Seq<u8>) -> WriterModel {
    WriterModel { buffer: m.buffer + bytes, ..m }
}

/// Effect of `write_line`: a net surplus of closing delimiters lowers the
/// level before the line is emitted, pending indentation is flushed at the
/// lowered level, the bytes and the line terminator are appended, the pending
/// flag is set, and a net surplus of opening delimiters raises the level
/// afterwards. Only the net of the two counts matters.
pub open spec fn write_line_model(m: WriterModel, bytes: Seq<u8>) -> WriterModel {
    let opens = count_delim(bytes, m.begin);
    let closes = count_delim(bytes, m.end);
    let dec = if closes > opens {
        closes - opens
    } else {
        0int
    };
    let lowered = WriterModel { level: m.level - dec, ..m };
    WriterModel {
        buffer: m.buffer + pending_block(lowered) + bytes + line_ending(),
        level: m.level + opens - closes,
        pending: true,
        ..m
    }
}

/// Effect of `write_line_no_tabs`: append the bytes and the line terminator;
/// no indent accounting, and the pending flag is left untouched.
pub open spec fn write_line_no_tabs_model(m: WriterModel, bytes: Seq<u8>) -> WriterModel {
    WriterModel { buffer: m.buffer + bytes + line_ending(), ..m }
}

/// A growable string builder that tracks indentation.
///
/// Delimiter occurrences in a written line are counted as occurrences of the
/// delimiter character's full UTF-8 encoding within the line's bytes; for
/// text lines this is exactly a character count.
#[derive(Debug)]
pub struct IndentedTextWriter {
    inner: Vec<u8>,
    tab_string: String,
    indent_level: i32,
    tabs_pending: bool,
    indent_begin: char,
    indent_end: char,
}

impl View for IndentedTextWriter {
    type V = WriterModel;

    closed spec fn view(&self) -> WriterModel {
        WriterModel {
            buffer: self.inner@,
            tab: self.tab_string@,
            level: self.indent_level as int,
            pending: self.tabs_pending,
            begin: self.indent_begin,
            end: self.indent_end,
        }
    }
}

/// Append every byte of `src` to `dst`.
fn append_bytes(dst: &mut Vec<u8>, src: &[u8])
    ensures
        final(dst)@ == old(dst)@ + src@,
{
    let ghost dst0: Seq<u8> = dst@;
    let mut i: usize = 0;
    while i < src.len()
        invariant
            i <= src@.len(),
            dst@ == dst0 + src@.take(i as int),
        decreases src@.len() - i,
    {
        proof {
            assert(src@.take(i + 1).drop_last() =~= src@.take(i as int));
        }
        dst.push(src[i]);
        proof {
            assert(dst0 + src@.take(i + 1) =~= (dst0 + src@.take(i as int)).push(src@[i as int]));
        }
        i = i + 1;
    }
    proof {
        assert(src@.take(src@.len() as int) =~= src@);
    }
}

/// True when `pat` occurs in `bytes` at position `i`.
fn pattern_at(bytes: &Vec<u8>, i: usize, pat: &Vec<u8>) -> (b: bool)
    requires
        i + pat@.len() <= bytes@.len(),
    ensures
        b == (bytes@.subrange(i as int, i as int + pat@.len()) == pat@),
{
    let ghost sub: Seq<u8> = bytes@.subrange(i as int, i as int + pat@.len());
    let blen = bytes.len();
    let mut j: usize = 0;
    while j < pat.len()
        invariant
            j <= pat@.len(),
            i + pat@.len() <= bytes@.len(),
            bytes@.len() == blen,
            sub == bytes@.subrange(i as int, i as int + pat@.len()),
            forall|k: int| 0 <= k < j ==> bytes@[i + k] == pat@[k],
        decreases pat@.len() - j,
    {
        if bytes[i + j] != pat[j] {
            proof {
                assert(sub[j as int] == bytes@[i + j]);
            }
            return false;
        }
        j = j + 1;
    }
    proof {
        assert(sub =~= pat@);
    }
    true
}

/// Count the positions in `bytes` at which the byte pattern `pat` occurs.
fn count_occurrences(bytes: &Vec<u8>, pat: &Vec<u8>) -> (r: usize)
    ensures
        r == count_matches(bytes@, pat@),
        r <= bytes@.len(),
{
    if pat.len() == 0 || pat.len() > bytes.len() {
        return 0;
    }
    let end_pos = bytes.len() - pat.len() + 1;
    let mut r: usize = 0;
    let mut i: usize = 0;
    proof {
        assert(bytes@.skip(0) =~= bytes@);
    }
    while i < end_pos
        invariant
            1 <= pat@.len(),
            pat@.len() <= bytes@.len(),
            end_pos == bytes@.len() - pat@.len() + 1,
            i <= end_pos,
            r <= i,
            count_matches(bytes@, pat@) == r + count_matches(bytes@.skip(i as int), pat@),
        decreases end_pos - i,
    {
        proof {
            assert(bytes@.skip(i as int).drop_first() =~= bytes@.skip(i + 1));
            assert(bytes@.skip(i as int).subrange(0, pat@.len() as int) =~= bytes@.subrange(
                i as int,
                i as int + pat@.len(),
            ));
        }
        if pattern_at(bytes, i, pat) {
            r = r + 1;
        }
        i = i + 1;
    }
    proof {
        assert(bytes@.skip(i as int).len() < pat@.len());
        assert(count_matches(bytes@.skip(i as int), pat@) == 0);
    }
    r
}

impl IndentedTextWriter {
    /// Return a new `IndentedTextWriter` with an initial capacity, an indent
    /// unit and the pair of delimiter characters that drive auto-indent.
    pub fn new(tab_string: &str, size: usize, indent_begin: char, indent_end: char) -> (w: Self)
        ensures
            w@.buffer == Seq::<u8>::empty(),
            w@.tab == tab_string@,
            w@.level == 0,
            w@.pending == false,
            w@.begin == indent_begin,
            w@.end == indent_end,
    {
        IndentedTextWriter {
            inner: Vec::with_capacity(size),
            tab_string: tab_string.to_owned(),
            indent_level: 0,
            tabs_pending: false,
            indent_begin,
            indent_end,
        }
    }

    /// Emit the pending indentation, if any, and clear the pending flag.
    fn output_tabs(&mut self)
        ensures
            final(self)@ == (WriterModel {
                buffer: old(self)@.buffer + pending_block(old(self)@),
                pending: false,
                ..old(self)@
            }),
    {
        if self.tabs_pending {
            let ghost buf0: Seq<u8> = self.inner@;
            let ghost tab_bytes: Seq<u8> = encode_utf8(self.tab_string@);
            let n = self.indent_level;
            let mut i: i32 = 0;
            while i < n
                invariant
                    0 <= i,
                    n == self.indent_level,
                    i <= (if n > 0 {
                        n as int
                    } else {
                        0int
                    }),
                    tab_bytes == encode_utf8(self.tab_string@),
                    self.inner@ == buf0 + tab_block(tab_bytes, i as int),
                    self.tab_string == old(self).tab_string,
                    self.indent_level == old(self).indent_level,
                    self.tabs_pending == old(self).tabs_pending,
                    self.indent_begin == old(self).indent_begin,
                    self.indent_end == old(self).indent_end,
                decreases n - i,
            {
                let tab_str = self.tab_string.as_str();
                let tab_slice = tab_str.as_bytes();
                proof {
                    assert(tab_str.spec_bytes() == encode_utf8(tab_str@));
                    assert(tab_slice@ == tab_bytes);
                }
                append_bytes(&mut self.inner, tab_slice);
                proof {
                    assert(buf0 + tab_block(tab_bytes, i as int) + tab_bytes =~= buf0 + tab_block(
                        tab_bytes,
                        i + 1,
                    ));
                }
                i = i + 1;
            }
            self.tabs_pending = false;
            proof {
                assert(self.inner@ =~= buf0 + tab_block(tab_bytes, self.indent_level as int));
                assert(final(self)@ =~= (WriterModel {
                    buffer: old(self)@.buffer + pending_block(old(self)@),
                    pending: false,
                    ..old(self)@
                }));
            }
        } else {
            proof {
                assert(old(self)@.buffer + pending_block(old(self)@) =~= old(self)@.buffer);
                assert(final(self)@ =~= (WriterModel {
                    buffer: old(self)@.buffer + pending_block(old(self)@),
                    pending: false,
                    ..old(self)@
                }));
            }
        }
    }

    /// Return the text that one block of pending indentation would emit:
    /// `level` copies of the indent unit, empty when the level is zero or
    /// negative. The writer is not changed.
    pub fn get_tab_line(&self) -> (r: String)
        ensures
            r@ == repeat_text(self@.tab, self@.level),
    {
        let mut s = String::new();
        let n = self.indent_level;
        let mut i: i32 = 0;
        while i < n
            invariant
                0 <= i,
                i <= (if n > 0 {
                    n as int
                } else {
                    0int
                }),
                s@ == repeat_text(self.tab_string@, i as int),
            decreases n - i,
        {
            s.append(self.tab_string.as_str());
            i = i + 1;
        }
        proof {
            assert(s@ =~= repeat_text(self@.tab, self@.level));
        }
        s
    }

    /// Raise the indent level by one.
    pub fn indent(&mut self)
        requires
            old(self)@.level + 1 <= i32::MAX,
        ensures
            final(self)@ == (WriterModel { level: old(self)@.level + 1, ..old(self)@ }),
    {
        self.indent_level = self.indent_level + 1;
    }

    /// Raise the indent level by `len`; a negative `len` lowers it.
    pub fn indents(&mut self, len: i32)
        requires
            i32::MIN <= old(self)@.level + len,
            old(self)@.level + len <= i32::MAX,
        ensures
            final(self)@ == (WriterModel { level: old(self)@.level + len, ..old(self)@ }),
    {
        self.indent_level = self.indent_level + len;
    }

    /// Lower the indent level by one. The level may become negative.
    pub fn unindent(&mut self)
        requires
            i32::MIN <= old(self)@.level - 1,
        ensures
            final(self)@ == (WriterModel { level: old(self)@.level - 1, ..old(self)@ }),
    {
        self.indent_level = self.indent_level - 1;
    }

    /// Lower the indent level by `size`; a negative `size` raises it.
    pub fn unindents(&mut self, size: i32)
        requires
            i32::MIN <= old(self)@.level - size,
            old(self)@.level - size <= i32::MAX,
        ensures
            final(self)@ == (WriterModel { level: old(self)@.level - size, ..old(self)@ }),
    {
        self.indent_level = self.indent_level - size;
    }

    /// Append the converted bytes of `buf`, emitting pending indentation
    /// first. No line terminator is appended.
    pub fn write<T: ToBytes>(&mut self, buf: T)
        ensures
            final(self)@ == write_model(old(self)@, buf.bytes_spec()),
    {
        self.output_tabs();
        let bytes = buf.to_bytes();
        append_bytes(&mut self.inner, bytes.as_slice());
        proof {
            assert(final(self)@ =~= write_model(old(self)@, buf.bytes_spec()));
        }
    }

    /// Append the converted bytes of `buf` directly, bypassing pending
    /// indentation and leaving the pending flag untouched.
    pub fn write_no_tabs<T: ToBytes>(&mut self, buf: T)
        ensures
            final(self)@ == write_no_tabs_model(old(self)@, buf.bytes_spec()),
    {
        let bytes = buf.to_bytes();
        append_bytes(&mut self.inner, bytes.as_slice());
        proof {
            assert(final(self)@ =~= write_no_tabs_model(old(self)@, buf.bytes_spec()));
        }
    }

    /// Append the converted bytes of `buf` as a line: a net surplus of
    /// closing delimiters dedents this very line, a net surplus of opening
    /// delimiters indents the lines that follow, and the next tabbed write
    /// will emit indentation.
    pub fn write_line<T: ToBytes>(&mut self, buf: T)
        requires
            buf.bytes_spec().len() <= i32::MAX,
            i32::MIN <= old(self)@.level - count_delim(buf.bytes_spec(), old(self)@.end),
            old(self)@.level + count_delim(buf.bytes_spec(), old(self)@.begin) <= i32::MAX,
        ensures
            final(self)@ == write_line_model(old(self)@, buf.bytes_spec()),
    {
        let bytes = buf.to_bytes();
        let begin_pat = self.indent_begin.to_bytes();
        let end_pat = self.indent_end.to_bytes();
        let opens = count_occurrences(&bytes, &begin_pat);
        let closes = count_occurrences(&bytes, &end_pat);
        proof {
            lemma_count_matches_le_len(bytes@, begin_pat@);
            lemma_count_matches_le_len(bytes@, end_pat@);
        }
        let inc: i32 = if opens > closes {
            (opens - closes) as i32
        } else {
            0
        };
        let dec: i32 = if closes > opens {
            (closes - opens) as i32
        } else {
            0
        };
        self.indent_level = self.indent_level - dec;
        self.output_tabs();
        append_bytes(&mut self.inner, bytes.as_slice());
        self.inner.push(10u8);
        self.tabs_pending = true;
        self.indent_level = self.indent_level + inc;
        proof {
            assert(final(self)@ =~= write_line_model(old(self)@, buf.bytes_spec()));
        }
    }

    /// Append the converted bytes of `buf` and a line terminator; no indent
    /// accounting, and the pending flag is left untouched.
    pub fn write_line_no_tabs<T: ToBytes>(&mut self, buf: T)
        ensures
            final(self)@ == write_line_no_tabs_model(old(self)@, buf.bytes_spec()),
    {
        let bytes = buf.to_bytes();
        append_bytes(&mut self.inner, bytes.as_slice());
        self.inner.push(10u8);
        proof {
            assert(final(self)@ =~= write_line_no_tabs_model(old(self)@, buf.bytes_spec()));
        }
    }

    /// Return the byte length of the accumulated buffer. Pending indentation
    /// that has not been flushed is not counted.
    pub fn len(&self) -> (r: usize)
        ensures
            r == self@.buffer.len(),
    {
        self.inner.len()
    }

    /// Consume the writer and return the buffer decoded as UTF-8 text:
    /// `Ok` with the decoded text exactly when the accumulated bytes are
    /// valid UTF-8, and the undecodable buffer's error otherwise.
    pub fn string(self) -> (r: Result<String, std::string::FromUtf8Error>)
        ensures
            r is Ok <==> valid_utf8(self@.buffer),
            r is Ok ==> r->Ok_0@ == decode_utf8(self@.buffer),
    {
        String::from_utf8(self.inner)
    }
}

/// The count of a pattern's occurrences never exceeds the sequence's length.
pub proof fn lemma_count_matches_le_len(bytes: Seq<u8>, pat: Seq<u8>)
    ensures
        0 <= count_matches(bytes, pat),
        count_matches(bytes, pat) <= bytes.len(),
    decreases bytes.len(),
{
    if pat.len() > 0 && bytes.len() >= pat.len() {
        lemma_count_matches_le_len(bytes.drop_first(), pat);
    }
}

/// The error type of strict UTF-8 decoding.
#[verifier::external_type_specification]
#[verifier::external_body]
pub struct ExFromUtf8Error(std::string::FromUtf8Error);

/// Relies on `String::from_utf8`: it returns `Ok` with the bytes decoded as
/// text exactly when the bytes are valid UTF-8, and `Err` otherwise; the
/// bytes are never substituted or truncated.
pub assume_specification [ String::from_utf8 ](v: Vec<u8>) -> (r: Result<
    String,
    std::string::FromUtf8Error,
>)
    ensures
        r is Ok <==> valid_utf8(v@),
        r is Ok ==> r->Ok_0@ == decode_utf8(v@),
;

impl Default for IndentedTextWriter {
    /// The default writer: an empty buffer, a one-space indent unit, level
    /// zero, no pending indentation, and `{` / `}` as delimiters.
    fn default() -> (w: Self)
        ensures
            w@.buffer == Seq::<u8>::empty(),
            w@.tab == seq![' '],
            w@.level == 0,
            w@.pending == false,
            w@.begin == '{',
            w@.end == '}',
    {
        let w = IndentedTextWriter::new(" ", 1024, '{', '}');
        proof {
            reveal_strlit(" ");
            assert(w@.tab =~= seq![' ']);
        }
        w
    }
}

} // verus!
