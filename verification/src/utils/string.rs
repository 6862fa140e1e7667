//! String shaping: repeated-character strings, centering a string inside a
//! fixed width, and cutting over-long names down to a target length with an
//! optional truncation indicator.
//!
//! All lengths are character counts, never byte counts, so the functions stay
//! correct for multi-byte text.

use vstd::prelude::*;
use vstd::string::{StrSliceExecFns, StringExecFns};

verus! {

/// A terminal color tag. Styling never changes a string's character count,
/// so layout can be computed from the text alone.
#[derive(Clone, Copy, Debug, PartialEq, Eq, Structural)]
pub enum Color {
    Black,
    Blue,
    Cyan,
    Green,
    Magenta,
    Red,
    White,
}

/// One run of characters of a printable line, together with the color it
/// should be styled in (`None` for unstyled framing text).
#[derive(Debug)]
pub struct StyledText {
    pub text: String,
    pub color: Option<Color>,
}

impl View for StyledText {
    type V = (Seq<char>, Option<Color>);

    open spec fn view(&self) -> (Seq<char>, Option<Color>) {
        (self.text@, self.color)
    }
}

/// The characters of a whole line: the concatenation of its pieces' texts.
pub open spec fn pieces_text(pieces: Seq<StyledText>) -> Seq<char>
    decreases pieces.len(),
{
    if pieces.len() == 0 {
        Seq::empty()
    } else {
        pieces_text(pieces.drop_last()) + pieces.last().text@
    }
}

/// Piece texts concatenate: a line split anywhere reads the same.
pub proof fn lemma_pieces_text_concat(a: Seq<StyledText>, b: Seq<StyledText>)
    ensures
        pieces_text(a + b) == pieces_text(a) + pieces_text(b),
    decreases b.len(),
{
    if b.len() == 0 {
        assert(a + b =~= a);
        assert(pieces_text(a) + pieces_text(b) =~= pieces_text(a));
    } else {
        lemma_pieces_text_concat(a, b.drop_last());
        assert((a + b).drop_last() =~= a + b.drop_last());
        assert((a + b).last() == b.last());
        assert(pieces_text(a) + pieces_text(b) =~= pieces_text(a) + pieces_text(b.drop_last())
            + b.last().text@);
    }
}

/// The views of a line's pieces, for stating what a renderer returned.
pub open spec fn line_view(pieces: Seq<StyledText>) -> Seq<(Seq<char>, Option<Color>)> {
    pieces.map_values(|piece: StyledText| piece@)
}

/// The plain texts of a sequence of lines, one character sequence per line.
pub open spec fn lines_texts(lines: Seq<Vec<StyledText>>) -> Seq<Seq<char>> {
    lines.map_values(|line: Vec<StyledText>| pieces_text(line@))
}

/// `n` copies of `character`, as a sequence of characters.
pub open spec fn repeated_char_seq(character: char, n: int) -> Seq<char> {
    Seq::new(n as nat, |i: int| character)
}

/// Relies on `String::push`, which appends the given character to the end of
/// the string.
#[verifier::external_body]
pub(crate) fn push_char(text: &mut String, character: char)
    ensures
        final(text)@ == old(text)@.push(character),
{
    text.push(character);
}

/// A string of `repetitions` copies of `character`.
pub fn make_repeated_char_string(character: char, repetitions: usize) -> (result: String)
    ensures
        result@ == repeated_char_seq(character, repetitions as int),
{
    let mut result = String::new();
    let mut i: usize = 0;
    while i < repetitions
        invariant
            i <= repetitions,
            result@ == repeated_char_seq(character, i as int),
        decreases repetitions - i,
    {
        push_char(&mut result, character);
        i = i + 1;
        proof {
            assert(result@ =~= repeated_char_seq(character, i as int));
        }
    }
    result
}

/// How many padding characters go to the left of a centered string: half the
/// leftover width, rounded down (the odd leftover character goes right).
pub open spec fn left_padding_length(text_length: int, required_length: int) -> int {
    (required_length - text_length) / 2
}

/// `text` centered within `required_length` columns of spaces.
pub open spec fn centered_seq(text: Seq<char>, required_length: int) -> Seq<char> {
    let left = left_padding_length(text.len() as int, required_length);
    let right = required_length - text.len() - left;
    repeated_char_seq(' ', left) + text + repeated_char_seq(' ', right)
}

/// `text` padded with spaces on both sides to exactly `required_length`
/// characters; with an odd number of padding characters the extra one goes to
/// the right.
pub fn add_padding_to_center_string(text: &str, required_length: usize) -> (result: String)
    requires
        text@.len() <= required_length,
    ensures
        result@ == centered_seq(text@, required_length as int),
        result@.len() == required_length,
{
    let text_length: usize = text.unicode_len();
    let left_padding: usize = (required_length - text_length) / 2;
    let right_padding: usize = required_length - text_length - left_padding;

    let mut result = make_repeated_char_string(' ', left_padding);
    result.append(text);
    let right_pad = make_repeated_char_string(' ', right_padding);
    result.append(right_pad.as_str());
    proof {
        assert(result@ =~= centered_seq(text@, required_length as int));
    }
    result
}

/// The view of an optional `(indicator, indicator counts toward the target)`
/// pair.
pub open spec fn indicator_view(option: Option<(String, bool)>) -> Option<(Seq<char>, bool)> {
    match option {
        Option::None => Option::None,
        Option::Some((indicator, counts)) => Option::Some((indicator@, counts)),
    }
}

/// `text` cut down to `target` characters. A text at or under the target is
/// returned unchanged. Otherwise, with no indicator the first `target`
/// characters are kept; with an indicator that does not count toward the
/// target, the indicator is appended to them; with one that does count, the
/// indicator's length is first subtracted from the target, and if the target
/// is at or under the indicator's own length the indicator itself is cut to
/// the target instead.
pub open spec fn truncated_seq(
    text: Seq<char>,
    target: int,
    indicator: Option<(Seq<char>, bool)>,
) -> Seq<char> {
    if text.len() <= target {
        text
    } else {
        match indicator {
            Option::None => text.take(target),
            Option::Some((indicator_text, counts_toward_target)) => {
                if !counts_toward_target {
                    text.take(target) + indicator_text
                } else if target <= indicator_text.len() {
                    indicator_text.take(target)
                } else {
                    text.take(target - indicator_text.len()) + indicator_text
                }
            },
        }
    }
}

/// Cuts `text` to `text_length_after_truncation` characters, appending the
/// optional indicator text; the paired flag says whether the indicator's own
/// length counts against the target.
pub fn truncate_text(
    text: String,
    text_length_after_truncation: usize,
    text_to_append_option: Option<(String, bool)>,
) -> (result: String)
    ensures
        result@ == truncated_seq(
            text@,
            text_length_after_truncation as int,
            indicator_view(text_to_append_option),
        ),
{
    let text_length: usize = text.as_str().unicode_len();
    if text_length > text_length_after_truncation {
        match text_to_append_option {
            Option::Some((text_to_append, should_include_in_length)) => {
                if should_include_in_length {
                    let append_length: usize = text_to_append.as_str().unicode_len();
                    if text_length_after_truncation <= append_length {
                        let cut = text_to_append.as_str().substring_char(
                            0,
                            text_length_after_truncation,
                        );
                        String::from_str(cut)
                    } else {
                        let kept = text.as_str().substring_char(
                            0,
                            text_length_after_truncation - append_length,
                        );
                        String::from_str(kept).concat(text_to_append.as_str())
                    }
                } else {
                    let kept = text.as_str().substring_char(0, text_length_after_truncation);
                    String::from_str(kept).concat(text_to_append.as_str())
                }
            },
            Option::None => {
                let kept = text.as_str().substring_char(0, text_length_after_truncation);
                String::from_str(kept)
            },
        }
    } else {
        text
    }
}

/// The plain text of a line, with all styling dropped.
pub fn styled_line_text(line: &Vec<StyledText>) -> (result: String)
    ensures
        result@ == pieces_text(line@),
{
    let mut result = String::new();
    let mut i: usize = 0;
    while i < line.len()
        invariant
            i <= line@.len(),
            result@ == pieces_text(line@.take(i as int)),
        decreases line@.len() - i,
    {
        result.append(line[i].text.as_str());
        i = i + 1;
        proof {
            assert(line@.take(i as int).drop_last() =~= line@.take(i - 1));
            assert(line@.take(i as int).last() == line@[i - 1]);
        }
    }
    proof {
        assert(line@.take(line@.len() as int) =~= line@);
    }
    result
}

} // verus!
