//! Laws of the writer, proved over its mathematical model.
//!
//! Each lemma here relates the transition functions of
//! [`crate::writer`] across several operations: what a run of plain writes
//! appends, when a written line leaves the level alone, and how writing
//! UTF-8 text keeps the buffer decodable.

use vstd::prelude::*;
use vstd::utf8::encode_utf8;
use vstd::utf8::encode_utf8_valid_utf8;
use vstd::utf8::valid_utf8;
use vstd::utf8::valid_utf8_concat;
use crate::writer::count_delim;
use crate::writer::line_ending;
use crate::writer::pending_block;
use crate::writer::tab_block;
use crate::writer::write_line_model;
use crate::writer::write_model;
use crate::writer::write_no_tabs_model;
use crate::writer::WriterModel;

verus! {

/// The state after a run of `write` calls, applied left to right.
pub open spec fn write_all_model(m: WriterModel, vals: Seq<Seq<u8>>) -> WriterModel
    decreases vals.len(),
{
    if vals.len() == 0 {
        m
    } else {
        write_all_model(write_model(m, vals[0]), vals.drop_first())
    }
}

/// The concatenation of a sequence of byte sequences.
pub open spec fn concat_bytes(vals: Seq<Seq<u8>>) -> Seq<u8>
    decreases vals.len(),
{
    if vals.len() == 0 {
        Seq::empty()
    } else {
        vals[0] + concat_bytes(vals.drop_first())
    }
}

/// Law: a run of `write` calls on a writer with no pending indentation
/// appends exactly the concatenation of the written byte sequences, inserts
/// no indentation anywhere, never sets the pending flag, and leaves the
/// level and the configuration unchanged.
pub proof fn lemma_writes_concatenate(m: WriterModel, vals: Seq<Seq<u8>>)
    requires
        !m.pending,
    ensures
        write_all_model(m, vals) == (WriterModel {
            buffer: m.buffer + concat_bytes(vals),
            ..m
        }),
    decreases vals.len(),
{
    if vals.len() == 0 {
        assert(m.buffer + concat_bytes(vals) =~= m.buffer);
        assert(write_all_model(m, vals) =~= (WriterModel {
            buffer: m.buffer + concat_bytes(vals),
            ..m
        }));
    } else {
        let m1 = write_model(m, vals[0]);
        assert(m1.buffer =~= m.buffer + vals[0]);
        lemma_writes_concatenate(m1, vals.drop_first());
        assert(m1.buffer + concat_bytes(vals.drop_first()) =~= m.buffer + concat_bytes(vals));
        assert(write_all_model(m, vals) =~= (WriterModel {
            buffer: m.buffer + concat_bytes(vals),
            ..m
        }));
    }
}

/// Law: writing a line that contains neither delimiter character leaves the
/// level unchanged and appends exactly the pending indentation, the line's
/// bytes and the line terminator.
pub proof fn lemma_neutral_line(m: WriterModel, bytes: Seq<u8>)
    requires
        count_delim(bytes, m.begin) == 0,
        count_delim(bytes, m.end) == 0,
    ensures
        write_line_model(m, bytes).level == m.level,
        write_line_model(m, bytes).pending,
        write_line_model(m, bytes).buffer == m.buffer + pending_block(m) + bytes + line_ending(),
{
    let lowered = WriterModel { level: m.level - 0, ..m };
    assert(lowered =~= m);
}

/// Law: after any `write_line`, the level has moved by exactly the net of
/// the two delimiter counts; lines with the same net move it identically.
pub proof fn lemma_net_delta(m: WriterModel, bytes1: Seq<u8>, bytes2: Seq<u8>)
    requires
        count_delim(bytes1, m.begin) - count_delim(bytes1, m.end) == count_delim(bytes2, m.begin)
            - count_delim(bytes2, m.end),
    ensures
        write_line_model(m, bytes1).level == write_line_model(m, bytes2).level,
        write_line_model(m, bytes1).level == m.level + count_delim(bytes1, m.begin) - count_delim(
            bytes1,
            m.end,
        ),
{
}

/// A block of repeated valid UTF-8 text is valid UTF-8.
pub proof fn lemma_tab_block_valid_utf8(tab: Seq<u8>, level: int)
    requires
        valid_utf8(tab),
    ensures
        valid_utf8(tab_block(tab, level)),
    decreases level,
{
    if level <= 0 {
        assert(valid_utf8(Seq::<u8>::empty()));
    } else {
        lemma_tab_block_valid_utf8(tab, level - 1);
        valid_utf8_concat(tab_block(tab, level - 1), tab);
    }
}

/// The line terminator is valid UTF-8.
pub proof fn lemma_line_ending_valid_utf8()
    ensures
        valid_utf8(line_ending()),
{
    encode_utf8_valid_utf8(seq!['\n']);
    assert('\n' as u32 == 10);
    assert(10u32 & 0x7F == 10) by (bit_vector);
    assert(vstd::utf8::encode_scalar(10u32) =~= seq![10u8]);
    assert(seq!['\n'].drop_first() =~= Seq::<char>::empty());
    assert(encode_utf8(Seq::<char>::empty()) =~= Seq::<u8>::empty());
    assert(encode_utf8(seq!['\n']) =~= vstd::utf8::encode_scalar(10u32) + encode_utf8(
        seq!['\n'].drop_first(),
    ));
    assert(encode_utf8(seq!['\n']) =~= line_ending());
}

/// Law: `write` keeps the buffer valid UTF-8 when the written bytes are
/// valid UTF-8. Together with the contract of
/// [`crate::IndentedTextWriter::string`], a writer that received only
/// UTF-8-producing writes always decodes successfully.
pub proof fn lemma_write_preserves_valid_utf8(m: WriterModel, bytes: Seq<u8>)
    requires
        valid_utf8(m.buffer),
        valid_utf8(bytes),
    ensures
        valid_utf8(write_model(m, bytes).buffer),
{
    encode_utf8_valid_utf8(m.tab);
    lemma_tab_block_valid_utf8(encode_utf8(m.tab), m.level);
    valid_utf8_concat(m.buffer, pending_block(m));
    valid_utf8_concat(m.buffer + pending_block(m), bytes);
}

/// Law: `write_no_tabs` keeps the buffer valid UTF-8 when the written bytes
/// are valid UTF-8.
pub proof fn lemma_write_no_tabs_preserves_valid_utf8(m: WriterModel, bytes: Seq<u8>)
    requires
        valid_utf8(m.buffer),
        valid_utf8(bytes),
    ensures
        valid_utf8(write_no_tabs_model(m, bytes).buffer),
{
    valid_utf8_concat(m.buffer, bytes);
}

/// Law: `write_line` keeps the buffer valid UTF-8 when the written bytes
/// are valid UTF-8.
pub proof fn lemma_write_line_preserves_valid_utf8(m: WriterModel, bytes: Seq<u8>)
    requires
        valid_utf8(m.buffer),
        valid_utf8(bytes),
    ensures
        valid_utf8(write_line_model(m, bytes).buffer),
{
    let opens = count_delim(bytes, m.begin);
    let closes = count_delim(bytes, m.end);
    let dec = if closes > opens {
        closes - opens
    } else {
        0int
    };
    let lowered = WriterModel { level: m.level - dec, ..m };
    encode_utf8_valid_utf8(lowered.tab);
    lemma_tab_block_valid_utf8(encode_utf8(lowered.tab), lowered.level);
    lemma_line_ending_valid_utf8();
    valid_utf8_concat(m.buffer, pending_block(lowered));
    valid_utf8_concat(m.buffer + pending_block(lowered), bytes);
    valid_utf8_concat(m.buffer + pending_block(lowered) + bytes, line_ending());
}

} // verus!
