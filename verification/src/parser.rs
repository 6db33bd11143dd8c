//! The line grammar of a server-sent event stream.
//!
//! A line ends with LF, CR LF, or a lone CR. A line that starts with a colon
//! is a comment; any other non-empty line is a field, whose name runs up to
//! the first colon and whose value follows it, less one leading space.

use crate::text::{first_index, lemma_first_index, lemma_first_index_unique};
use vstd::prelude::*;
use vstd::slice::{slice_subrange, slice_to_vec};

verus! {

/// One line of an event stream.
pub enum RawEventLine {
    Comment(Vec<char>),
    Field(Vec<char>, Option<Vec<char>>),
    Empty,
}

/// The mathematical value of a [`RawEventLine`].
pub enum RawLine {
    Comment(Seq<char>),
    Field(Seq<char>, Option<Seq<char>>),
    Empty,
}

impl View for RawEventLine {
    type V = RawLine;

    open spec fn view(&self) -> RawLine {
        match self {
            RawEventLine::Comment(text) => RawLine::Comment(text@),
            RawEventLine::Field(name, None) => RawLine::Field(name@, None),
            RawEventLine::Field(name, Some(value)) => RawLine::Field(name@, Some(value@)),
            RawEventLine::Empty => RawLine::Empty,
        }
    }
}

/// A character that ends a line, alone or as one of a pair.
pub open spec fn is_line_break(c: char) -> bool {
    c == '\n' || c == '\r'
}

/// The character that parts the name of a field from its value.
pub open spec fn is_colon(c: char) -> bool {
    c == ':'
}

/// The line whose content, without its line ending, is `content`.
pub open spec fn classify(content: Seq<char>) -> RawLine {
    if content.len() == 0 {
        RawLine::Empty
    } else if content[0] == ':' {
        RawLine::Comment(content.skip(1))
    } else {
        let colon = first_index(content, |c: char| is_colon(c)) as int;
        if colon >= content.len() {
            RawLine::Field(content, None)
        } else {
            let value = content.skip(colon + 1);
            RawLine::Field(
                content.take(colon),
                Some(
                    if value.len() > 0 && value[0] == ' ' {
                        value.skip(1)
                    } else {
                        value
                    },
                ),
            )
        }
    }
}

/// The first line of `input` and the number of characters it takes up, line
/// ending included; `None` while the line is not known to be complete. A CR
/// at the very end of `input` does not complete a line, since an LF that
/// belongs to the same line ending may still follow.
pub open spec fn parse_line(input: Seq<char>) -> Option<(RawLine, nat)> {
    let end = first_index(input, |c: char| is_line_break(c)) as int;
    let content = classify(input.take(end));
    if end >= input.len() {
        None
    } else if input[end] == '\n' {
        Some((content, (end + 1) as nat))
    } else if end + 1 >= input.len() {
        None
    } else if input[end + 1] == '\n' {
        Some((content, (end + 2) as nat))
    } else {
        Some((content, (end + 1) as nat))
    }
}

/// A parsed line takes up at least one character and no more than there are.
pub proof fn lemma_parse_line_consumes(input: Seq<char>)
    ensures
        parse_line(input) matches Some((_, n)) ==> 1 <= n <= input.len(),
{
    lemma_first_index(input, |c: char| is_line_break(c));
}

/// A complete line stays the same line when more input follows it.
pub proof fn lemma_parse_line_extend(input: Seq<char>, more: Seq<char>)
    requires
        parse_line(input) is Some,
    ensures
        parse_line(input + more) == parse_line(input),
{
    let p = |c: char| is_line_break(c);
    let end = first_index(input, p) as int;
    lemma_first_index(input, p);
    let whole = input + more;
    assert forall|i: int| 0 <= i < end implies !p(#[trigger] whole[i]) by {
        assert(whole[i] == input[i]);
    }
    assert(whole[end] == input[end]);
    lemma_first_index_unique(whole, p, end);
    assert(whole.take(end) =~= input.take(end));
    if input[end] != '\n' {
        assert(whole[end + 1] == input[end + 1]);
    }
}

/// The place of the first line break.
fn find_line_break(s: &[char]) -> (r: usize)
    ensures
        r == first_index(s@, |c: char| is_line_break(c)),
        r <= s@.len(),
{
    let mut i: usize = 0;
    while i < s.len() && s[i] != '\n' && s[i] != '\r'
        invariant
            i <= s@.len(),
            forall|j: int| 0 <= j < i ==> !is_line_break(#[trigger] s@[j]),
        decreases s@.len() - i,
    {
        i += 1;
    }
    proof {
        lemma_first_index_unique(s@, |c: char| is_line_break(c), i as int);
    }
    i
}

/// The place of the first colon.
fn find_colon(s: &[char]) -> (r: usize)
    ensures
        r == first_index(s@, |c: char| is_colon(c)),
        r <= s@.len(),
{
    let mut i: usize = 0;
    while i < s.len() && s[i] != ':'
        invariant
            i <= s@.len(),
            forall|j: int| 0 <= j < i ==> !is_colon(#[trigger] s@[j]),
        decreases s@.len() - i,
    {
        i += 1;
    }
    proof {
        lemma_first_index_unique(s@, |c: char| is_colon(c), i as int);
    }
    i
}

/// Tells a comment, a field and an empty line apart.
pub fn classify_line(content: &[char]) -> (r: RawEventLine)
    ensures
        r@ == classify(content@),
{
    let n = content.len();
    if n == 0 {
        RawEventLine::Empty
    } else if content[0] == ':' {
        let text = slice_to_vec(slice_subrange(content, 1, n));
        assert(content@.subrange(1, n as int) == content@.skip(1));
        RawEventLine::Comment(text)
    } else {
        let colon = find_colon(content);
        if colon >= n {
            let name = slice_to_vec(content);
            RawEventLine::Field(name, None)
        } else {
            let name = slice_to_vec(slice_subrange(content, 0, colon));
            let start = if colon + 1 < n && content[colon + 1] == ' ' {
                colon + 2
            } else {
                colon + 1
            };
            let value = slice_to_vec(slice_subrange(content, start, n));
            proof {
                let whole = content@.skip(colon + 1);
                assert(content@.subrange(0, colon as int) == content@.take(colon as int));
                if whole.len() > 0 && whole[0] == ' ' {
                    assert(content@.subrange(start as int, n as int) =~= whole.skip(1));
                } else {
                    assert(content@.subrange(start as int, n as int) =~= whole);
                }
            }
            RawEventLine::Field(name, Some(value))
        }
    }
}

/// Takes the first line off the front of `input`, if it is complete, and
/// returns it with the number of characters it takes up.
pub fn next_line(input: &[char]) -> (r: Option<(RawEventLine, usize)>)
    ensures
        match r {
            Some((line, n)) => parse_line(input@) == Some((line@, n as nat)),
            None => parse_line(input@) is None,
        },
{
    let len = input.len();
    let end = find_line_break(input);
    if end >= len {
        return None;
    }
    let taken = if input[end] == '\n' {
        end + 1
    } else if end + 1 >= len {
        return None;
    } else if input[end + 1] == '\n' {
        end + 2
    } else {
        end + 1
    };
    let content = slice_subrange(input, 0, end);
    assert(input@.subrange(0, end as int) == input@.take(end as int));
    Some((classify_line(content), taken))
}

} // verus!
