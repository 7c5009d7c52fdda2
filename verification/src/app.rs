//! What the application loop does with the runner on each tick, and the
//! read-only buffer through which it shows the output.

use crate::code_editor::CodeEditor;
use crate::js_runner::{text_of, JsRunnerComm, MessageView};
use std::ops::Range;
use vstd::prelude::*;
use vstd::utf8::{
    char_is_scalar, decode_utf8, encode_utf8, encode_utf8_decode_utf8,
    encode_utf8_first_scalar, encode_utf8_valid_utf8, is_char_boundary,
    is_char_boundary_iff_not_is_continuation_byte, is_char_boundary_start_end_of_seq,
    pop_first_scalar, valid_utf8_split,
};

verus! {

/// The output after one poll: the text that was polled, as a line of its own
/// at the end; unchanged where the poll gave nothing.
pub open spec fn shown(output: Seq<char>, polled: Option<Seq<char>>) -> Seq<char> {
    match polled {
        Some(text) => output + text + seq!['\n'],
        None => output,
    }
}

/// The output once every one of `results` has been polled, oldest first, one
/// tick after the other.
pub open spec fn shown_all(output: Seq<char>, results: Seq<MessageView>) -> Seq<char>
    decreases results.len(),
{
    if results.len() == 0 {
        output
    } else {
        shown_all(shown(output, text_of(Some(results[0]))), results.drop_first())
    }
}

/// One tick of the application loop: polls the runner once and appends what
/// it got, with a line terminator, to the output. A tick takes at most one
/// outcome; a failure, like no outcome at all, leaves the output as it is.
pub fn update(runner: &mut JsRunnerComm, output: &mut String)
    ensures
        final(runner)@ == old(runner)@.peek().0,
        final(runner)@.valid(),
        final(output)@ == shown(old(output)@, old(runner)@.peek().1),
{
    if let Some(text) = runner.peek_result() {
        output.append(text.as_str());
        output.append("\n");
        proof {
            reveal_strlit("\n");
        }
    }
}

/// The user's run action: submits the source as it stands in the editor. The
/// editor is only read.
pub fn submit_source(editor: &CodeEditor, runner: &mut JsRunnerComm)
    requires
        !old(runner)@.exited,
    ensures
        final(runner)@ == old(runner)@.enqueue(editor@.code),
        final(runner)@.valid(),
{
    runner.enqueue_script(editor.source());
}

/// The byte position at which the character with the given index starts in
/// the UTF-8 encoding of a text: the length of what encodes the characters
/// before it. An index past the last character gives the length of the whole
/// encoding.
pub open spec fn byte_offset(text: Seq<char>, char_index: int) -> int {
    if 0 <= char_index < text.len() {
        encode_utf8(text.take(char_index)).len() as int
    } else {
        encode_utf8(text).len() as int
    }
}

/// The encoding of a text is that of its first characters followed by that
/// of the others.
proof fn lemma_encoding_splits(text: Seq<char>, n: int)
    requires
        0 <= n <= text.len(),
    ensures
        encode_utf8(text) == encode_utf8(text.take(n)) + encode_utf8(text.skip(n)),
    decreases n,
{
    if n == 0 {
        assert(text.skip(0) =~= text);
    } else {
        let rest = text.drop_first();
        assert(text.take(n).drop_first() =~= rest.take(n - 1));
        assert(text.skip(n) =~= rest.skip(n - 1));
        lemma_encoding_splits(rest, n - 1);
    }
}

/// The encoding of the first characters of a text ends on a character
/// boundary of the encoding of the text.
proof fn lemma_prefix_ends_on_boundary(text: Seq<char>, n: int)
    requires
        0 <= n <= text.len(),
    ensures
        encode_utf8(text.take(n)).len() <= encode_utf8(text).len(),
        is_char_boundary(encode_utf8(text), encode_utf8(text.take(n)).len() as int),
    decreases n,
{
    encode_utf8_valid_utf8(text);
    if n > 0 {
        // Behind the first character the claim is that of the rest.
        let rest = text.drop_first();
        char_is_scalar(text[0]);
        encode_utf8_first_scalar(text);
        assert(pop_first_scalar(encode_utf8(text)) =~= encode_utf8(rest));
        assert(text.take(n).drop_first() =~= rest.take(n - 1));
        lemma_prefix_ends_on_boundary(rest, n - 1);
    }
}

/// The byte position of a character lies within the encoding of the text,
/// on a character boundary.
pub proof fn lemma_byte_offset_is_char_boundary(text: Seq<char>, char_index: int)
    ensures
        0 <= byte_offset(text, char_index) <= encode_utf8(text).len(),
        is_char_boundary(encode_utf8(text), byte_offset(text, char_index)),
{
    if 0 <= char_index < text.len() {
        lemma_prefix_ends_on_boundary(text, char_index);
    } else {
        encode_utf8_valid_utf8(text);
        is_char_boundary_start_end_of_seq(encode_utf8(text));
    }
}

/// What lies between the byte positions of two characters is the encoding
/// of the characters from the first up to the second.
pub proof fn lemma_bytes_between_char_indexes(text: Seq<char>, from: int, to: int)
    requires
        0 <= from <= to <= text.len(),
    ensures
        byte_offset(text, from) <= byte_offset(text, to),
        encode_utf8(text).subrange(byte_offset(text, from), byte_offset(text, to)) == encode_utf8(
            text.subrange(from, to),
        ),
        decode_utf8(encode_utf8(text).subrange(byte_offset(text, from), byte_offset(text, to)))
            == text.subrange(from, to),
{
    let head = text.take(to);
    assert(text.take(text.len() as int) =~= text);
    lemma_encoding_splits(text, to);
    lemma_encoding_splits(head, from);
    assert(head.take(from) =~= text.take(from));
    assert(head.skip(from) =~= text.subrange(from, to));
    encode_utf8_decode_utf8(text.subrange(from, to));
}

/// egui's `TextBuffer::byte_index_from_char_index`, as `&str` has it. It walks
/// the characters with their byte positions and returns the position of the
/// one with the given index, or the length in bytes where there is none.
/// The contract says so in terms of [`byte_offset`]; it is taken on trust.
#[verifier::external_body]
fn egui_byte_index_from_char_index(text: &str, char_index: usize) -> (index: usize)
    ensures
        index == byte_offset(text@, char_index as int),
{
    egui::TextBuffer::byte_index_from_char_index(&text, char_index)
}

/// Immutable string buffer: a text shown in an editing widget that cannot
/// change it. Every editing operation leaves the text as it is.
pub struct LockedStr<'a> {
    pub s: &'a str,
}

impl<'a> LockedStr<'a> {
    /// The text between two byte positions, each of which must lie on a
    /// character boundary of the text.
    pub fn char_range(&self, char_range: Range<usize>) -> (text: &str)
        requires
            char_range.start <= char_range.end,
            is_char_boundary(encode_utf8(self.s@), char_range.start as int),
            is_char_boundary(encode_utf8(self.s@), char_range.end as int),
        ensures
            encode_utf8(text@) == encode_utf8(self.s@).subrange(
                char_range.start as int,
                char_range.end as int,
            ),
            text@ == decode_utf8(
                encode_utf8(self.s@).subrange(char_range.start as int, char_range.end as int),
            ),
    {
        let ghost bytes = encode_utf8(self.s@);
        let ghost start = char_range.start as int;
        let ghost end = char_range.end as int;
        proof {
            // The start is a boundary of the text up to the end as it is one
            // of the whole text.
            encode_utf8_valid_utf8(self.s@);
            valid_utf8_split(bytes, end);
            let head = bytes.subrange(0, end);
            if start < end {
                is_char_boundary_iff_not_is_continuation_byte(bytes, start);
                is_char_boundary_iff_not_is_continuation_byte(head, start);
            } else {
                is_char_boundary_start_end_of_seq(head);
            }
        }
        let (head, _) = self.s.split_at(char_range.end);
        let (_, text) = head.split_at(char_range.start);
        proof {
            encode_utf8_decode_utf8(text@);
        }
        text
    }

    /// The byte position at which the character with the given index
    /// starts, or the length of the text in bytes where it has no such
    /// character.
    pub fn byte_index_from_char_index(&self, char_index: usize) -> (index: usize)
        ensures
            index == byte_offset(self.s@, char_index as int),
            index <= encode_utf8(self.s@).len(),
            is_char_boundary(encode_utf8(self.s@), index as int),
    {
        proof {
            lemma_byte_offset_is_char_boundary(self.s@, char_index as int);
        }
        egui_byte_index_from_char_index(self.as_str(), char_index)
    }

    /// Nothing is cleared: the text cannot change.
    pub fn clear(&mut self)
        ensures
            *final(self) == *old(self),
    {
    }

    /// Nothing is replaced: the text cannot change.
    pub fn replace(&mut self, _text: &str)
        ensures
            *final(self) == *old(self),
    {
    }

    /// A copy of the text. The buffer keeps its text.
    pub fn take(&mut self) -> (text: String)
        ensures
            text@ == old(self).s@,
            *final(self) == *old(self),
    {
        let s = self.s.to_owned();
        self.clear();
        s
    }

    /// Whether the text can be edited: it cannot.
    pub fn is_mutable(&self) -> (mutable: bool)
        ensures
            !mutable,
    {
        false
    }

    /// The text.
    pub fn as_str(&self) -> (text: &str)
        ensures
            text@ == self.s@,
    {
        self.s
    }

    /// Nothing is inserted: the text cannot change. Returns the number of
    /// characters inserted, which is 0.
    pub fn insert_text(&mut self, _text: &str, _char_index: usize) -> (inserted: usize)
        ensures
            inserted == 0,
            *final(self) == *old(self),
    {
        0
    }

    /// Nothing is deleted: the text cannot change.
    pub fn delete_char_range(&mut self, _char_range: Range<usize>)
        ensures
            *final(self) == *old(self),
    {
    }
}

} // verus!
