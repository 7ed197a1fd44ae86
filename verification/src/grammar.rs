//! The format, line by line: what a line says, how a document is cut into
//! lines, and the functions that tell it of a given text.

use crate::helper::{
    consume_whitespace, is_key_char, is_large_alphabetic, key_char, key_chars, large_alphabetic,
    lemma_run_len_bounds, lemma_run_len_is, run_len, start_end_with, to_string_while, trim_start,
    whitespace, whitespaces, wrapped,
};
use vstd::prelude::*;
use vstd::string::*;

verus! {

broadcast use vstd::string::group_string_axioms;

/// What one line of a document says, once the whitespace at its ends is gone.
#[derive(Debug, PartialEq, Eq)]
pub enum Line {
    /// Nothing.
    Blank,
    /// A comment: the line begins with `#`.
    Comment,
    /// The line `}`: the innermost section ends.
    Close,
    /// `KEY: {`: a section named by the key begins.
    Open(String),
    /// `KEY:` or `KEY: "value"`: the key, and the value where there is one.
    Entry(String, Option<String>),
    /// The line does not begin with a capital letter.
    BadKey,
    /// The key is followed by this character in place of `:`, or by
    /// nothing (`'\0'`).
    BadSeparator(char),
    /// The separator is followed by this text, which is no value.
    BadValue(String),
}

/// What a `Line` holds, as mathematical values.
pub enum LineView {
    Blank,
    Comment,
    Close,
    Open(Seq<char>),
    Entry(Seq<char>, Option<Seq<char>>),
    BadKey,
    BadSeparator(char),
    BadValue(Seq<char>),
}

impl View for Line {
    type V = LineView;

    open spec fn view(&self) -> LineView {
        match *self {
            Line::Blank => LineView::Blank,
            Line::Comment => LineView::Comment,
            Line::Close => LineView::Close,
            Line::Open(key) => LineView::Open(key@),
            Line::Entry(key, value) => LineView::Entry(
                key@,
                match value {
                    Some(v) => Some(v@),
                    None => None,
                },
            ),
            Line::BadKey => LineView::BadKey,
            Line::BadSeparator(found) => LineView::BadSeparator(found),
            Line::BadValue(value) => LineView::BadValue(value@),
        }
    }
}

impl LineView {
    /// The line says nothing: it is blank or a comment.
    pub open spec fn is_silent(self) -> bool {
        self is Blank || self is Comment
    }
}

/// The key at the front of a line: its capital letters and underscores up
/// to the first other character.
pub open spec fn key_of(line: Seq<char>) -> Seq<char> {
    line.take(run_len(line, key_chars()) as int)
}

/// What follows the key and the whitespace behind it. Its first character,
/// if it has one, stands where the separator is expected.
pub open spec fn after_key(line: Seq<char>) -> Seq<char> {
    trim_start(line.skip(run_len(line, key_chars()) as int))
}

/// What follows the separator and the whitespace behind it.
pub open spec fn value_region(line: Seq<char>) -> Seq<char> {
    trim_start(after_key(line).skip(1))
}

/// What a key line says, by the text that follows its separator: nothing,
/// `{` alone, a text between two `"`, or anything else.
pub open spec fn classify_value(key: Seq<char>, value: Seq<char>) -> LineView {
    if value.len() == 0 {
        LineView::Entry(key, None)
    } else if value.len() == 1 && value[0] == '{' {
        LineView::Open(key)
    } else if wrapped(value, '"', '"') {
        LineView::Entry(key, Some(value.subrange(1, value.len() - 1)))
    } else {
        LineView::BadValue(value)
    }
}

/// What a line without whitespace at its ends says.
pub open spec fn classify(line: Seq<char>) -> LineView {
    if line.len() == 0 {
        LineView::Blank
    } else if line[0] == '#' {
        LineView::Comment
    } else if line.len() == 1 && line[0] == '}' {
        LineView::Close
    } else if !large_alphabetic(line[0]) {
        LineView::BadKey
    } else if after_key(line).len() == 0 {
        LineView::BadSeparator('\0')
    } else if after_key(line)[0] != ':' {
        LineView::BadSeparator(after_key(line)[0])
    } else {
        classify_value(key_of(line), value_region(line))
    }
}

/// A key is never empty: it begins with a capital letter, and each of its
/// further characters is a capital letter or `_`.
pub proof fn lemma_key_shape(line: Seq<char>, key: Seq<char>)
    requires
        classify(line) == LineView::Open(key) || exists|value: Option<Seq<char>>|
            classify(line) == LineView::Entry(key, value),
    ensures
        key.len() > 0,
        large_alphabetic(key[0]),
        forall|i: int| 0 <= i < key.len() ==> key_char(#[trigger] key[i]),
{
    lemma_run_len_bounds(line, key_chars());
    assert(key == key_of(line));
    assert(key_chars()(line[0]));
    assert forall|i: int| 0 <= i < key.len() implies key_char(#[trigger] key[i]) by {
        assert(key_chars()(line[i]));
    }
}

/// The grammar of a key line: a key, whitespace or none, `:`, whitespace or
/// none, and the text of the value. Such a line says what the text of its
/// value says of its key.
pub proof fn lemma_key_line(
    key: Seq<char>,
    gap: Seq<char>,
    space: Seq<char>,
    value: Seq<char>,
)
    requires
        key.len() > 0,
        large_alphabetic(key[0]),
        forall|i: int| 0 <= i < key.len() ==> key_char(#[trigger] key[i]),
        forall|i: int| 0 <= i < gap.len() ==> whitespace(#[trigger] gap[i]),
        forall|i: int| 0 <= i < space.len() ==> whitespace(#[trigger] space[i]),
        value.len() > 0 ==> !whitespace(value[0]),
    ensures
        classify(key + gap + seq![':'] + space + value) == classify_value(key, value),
{
    let line = key + gap + seq![':'] + space + value;
    assert(line[0] == key[0]);
    assert forall|i: int| 0 <= i < key.len() implies key_chars()(#[trigger] line[i]) by {
        assert(line[i] == key[i]);
    }
    if gap.len() > 0 {
        assert(line[key.len() as int] == gap[0]);
    } else {
        assert(line[key.len() as int] == ':');
    }
    lemma_run_len_is(line, key_chars(), key.len() as int);
    assert(key_of(line) =~= key);
    let tail = line.skip(key.len() as int);
    assert(tail =~= gap + seq![':'] + space + value);
    assert forall|i: int| 0 <= i < gap.len() implies whitespaces()(#[trigger] tail[i]) by {
        assert(tail[i] == gap[i]);
    }
    assert(tail[gap.len() as int] == ':');
    lemma_run_len_is(tail, whitespaces(), gap.len() as int);
    assert(after_key(line) =~= seq![':'] + space + value);
    let behind = after_key(line).skip(1);
    assert(behind =~= space + value);
    assert forall|i: int| 0 <= i < space.len() implies whitespaces()(#[trigger] behind[i]) by {
        assert(behind[i] == space[i]);
    }
    if value.len() > 0 {
        assert(behind[space.len() as int] == value[0]);
    }
    lemma_run_len_is(behind, whitespaces(), space.len() as int);
    assert(value_region(line) =~= value);
}

/// Tells what a key line says from its key and the text behind its separator.
pub fn parse_value(key: String, value: &str) -> (l: Line)
    ensures
        l@ == classify_value(key@, value@),
{
    if value.is_empty() {
        return Line::Entry(key, None);
    }
    let n: usize = value.unicode_len();
    if n == 1 && value.get_char(0) == '{' {
        Line::Open(key)
    } else if start_end_with(value, '"', '"') {
        Line::Entry(key, Some(value.substring_char(1, n - 1).to_owned()))
    } else {
        Line::BadValue(value.to_owned())
    }
}

/// Tells what `line` says. The line is read as it stands: the whitespace at
/// its ends is for the caller to take away, and only the whitespace around
/// the separator is skipped here.
pub fn parse_line(line: &str) -> (l: Line)
    ensures
        l@ == classify(line@),
{
    if line.is_empty() {
        return Line::Blank;
    }
    let first: char = line.get_char(0);
    if first == '#' {
        return Line::Comment;
    }
    if first == '}' && line.unicode_len() == 1 {
        return Line::Close;
    }
    if !is_large_alphabetic(&first) {
        return Line::BadKey;
    }
    let mut chars = line.chars();
    let accept = |c: &char| -> (b: bool)
        ensures
            b == key_char(*c),
        {
            is_key_char(c)
        };
    let key = to_string_while(&mut chars, accept);
    proof {
        assert forall|i: int| 0 <= i < key@.len() implies key_chars()(#[trigger] line@[i]) by {
            assert(line@[i] == key@[i]);
        }
        lemma_run_len_is(line@, key_chars(), key@.len() as int);
    }
    consume_whitespace(&mut chars);
    match chars.next() {
        None => Line::BadSeparator('\0'),
        Some(c) => {
            if c != ':' {
                Line::BadSeparator(c)
            } else {
                consume_whitespace(&mut chars);
                parse_value(key, chars.as_str())
            }
        },
    }
}

/// The characters that do not end a line.
pub open spec fn in_line() -> spec_fn(char) -> bool {
    |c: char| c != '\n'
}

/// The lines of a text. A line ends at a line feed or at the end of the
/// text, and the line feed is no part of it. Where the text ends with a line
/// feed, no empty line follows it.
pub open spec fn lines_of(text: Seq<char>) -> Seq<Seq<char>>
    decreases text.len(),
{
    let n = run_len(text, in_line());
    if text.len() == 0 {
        Seq::empty()
    } else if n < text.len() {
        seq![text.take(n as int)] + lines_of(text.skip(n as int + 1))
    } else {
        seq![text]
    }
}

/// A line, a line feed and more text: the line, then the lines of the rest.
pub proof fn lemma_lines_of_cons(line: Seq<char>, rest: Seq<char>)
    requires
        forall|i: int| 0 <= i < line.len() ==> line[i] != '\n',
    ensures
        lines_of(line + seq!['\n'] + rest) == seq![line] + lines_of(rest),
{
    let text = line + seq!['\n'] + rest;
    assert forall|i: int| 0 <= i < line.len() implies in_line()(#[trigger] text[i]) by {
        assert(text[i] == line[i]);
    }
    assert(text[line.len() as int] == '\n');
    lemma_run_len_is(text, in_line(), line.len() as int);
    assert(text.take(line.len() as int) =~= line);
    assert(text.skip(line.len() as int + 1) =~= rest);
}

/// A text without a line feed is one line, or none where it is empty.
pub proof fn lemma_lines_of_last(line: Seq<char>)
    requires
        forall|i: int| 0 <= i < line.len() ==> line[i] != '\n',
    ensures
        lines_of(line) == if line.len() == 0 {
            Seq::<Seq<char>>::empty()
        } else {
            seq![line]
        },
{
    assert forall|i: int| 0 <= i < line.len() implies in_line()(#[trigger] line[i]) by {}
    lemma_run_len_is(line, in_line(), line.len() as int);
}

/// A text has no more lines than characters.
pub proof fn lemma_lines_of_len(text: Seq<char>)
    ensures
        lines_of(text).len() <= text.len(),
    decreases text.len(),
{
    let n = run_len(text, in_line());
    lemma_run_len_bounds(text, in_line());
    if text.len() > 0 && n < text.len() {
        lemma_lines_of_len(text.skip(n as int + 1));
    }
}

/// Cuts `input` into its lines.
pub fn split_lines(input: &str) -> (lines: Vec<String>)
    ensures
        lines.deep_view() == lines_of(input@),
{
    let mut lines: Vec<String> = Vec::new();
    let mut line = String::new();
    proof {
        assert(lines.deep_view() =~= Seq::empty());
        assert(line@ + input@.skip(0) =~= input@);
    }
    for c in it: input.chars()
        invariant
            it.seq() == input@,
            forall|i: int| 0 <= i < line@.len() ==> line@[i] != '\n',
            lines.deep_view() + lines_of(line@ + input@.skip(it.index())) == lines_of(input@),
    {
        let ghost rest = input@.skip(it.index() + 1);
        let ghost done = lines.deep_view();
        proof {
            assert(input@.skip(it.index()) =~= seq![c] + rest);
        }
        if c == '\n' {
            proof {
                lemma_lines_of_cons(line@, rest);
                assert(line@ + input@.skip(it.index()) =~= line@ + seq!['\n'] + rest);
            }
            let ghost full = line@;
            lines.push(line);
            line = String::new();
            proof {
                assert(lines.deep_view() =~= done.push(full));
                assert(line@ + rest =~= rest);
                assert(done.push(full) + lines_of(rest) =~= done + (seq![full] + lines_of(rest)));
            }
        } else {
            let ghost before = line@;
            line.push(c);
            proof {
                assert(before + input@.skip(it.index()) =~= line@ + rest);
            }
        }
    }
    proof {
        assert(line@ + input@.skip(input@.len() as int) =~= line@);
        lemma_lines_of_last(line@);
    }
    if !line.as_str().is_empty() {
        let ghost done = lines.deep_view();
        let ghost full = line@;
        lines.push(line);
        proof {
            assert(lines.deep_view() =~= done.push(full));
            assert(done.push(full) =~= done + seq![full]);
        }
    } else {
        proof {
            assert(lines.deep_view() + Seq::<Seq<char>>::empty() =~= lines.deep_view());
        }
    }
    lines
}

} // verus!
