//! Why a document is refused, and how the refusal reads.

use vstd::prelude::*;
use vstd::string::*;

verus! {

broadcast use vstd::string::group_string_axioms;

/// Why a document was refused. Every variant but `ReadFail` carries the
/// number of the line, counted from 1, at which the parser stopped.
#[derive(Debug, PartialEq, Eq)]
pub enum ECnfLoaderError {
    /// The text could not be read: the cause, in words. The parser reads
    /// text that is in memory and never fails so; the variant is for callers
    /// that fetch the text from a file or a stream.
    ReadFail(String),
    /// A line does not begin with a key: line number, line.
    FailParseKey(u16, String),
    /// The text ends inside a section: line number, path of the open section.
    FailParse(u16, String),
    /// A `}` closes nothing: line number, line.
    IllegalRightMidParen(u16, String),
    /// The key is not followed by `:`: line number, line, the character
    /// found in its place (`'\0'` where the line ends behind the key).
    UnknownSeparator(u16, String, char),
    /// The value is neither empty, nor `{`, nor quoted: line number, line, value.
    UnknownValue(u16, String, String),
}

/// What an `ECnfLoaderError` holds, as mathematical values.
pub enum ErrorView {
    ReadFail(Seq<char>),
    FailParseKey(nat, Seq<char>),
    FailParse(nat, Seq<char>),
    IllegalRightMidParen(nat, Seq<char>),
    UnknownSeparator(nat, Seq<char>, char),
    UnknownValue(nat, Seq<char>, Seq<char>),
}

impl View for ECnfLoaderError {
    type V = ErrorView;

    open spec fn view(&self) -> ErrorView {
        match *self {
            ECnfLoaderError::ReadFail(cause) => ErrorView::ReadFail(cause@),
            ECnfLoaderError::FailParseKey(n, line) => ErrorView::FailParseKey(n as nat, line@),
            ECnfLoaderError::FailParse(n, prefix) => ErrorView::FailParse(n as nat, prefix@),
            ECnfLoaderError::IllegalRightMidParen(n, line) => ErrorView::IllegalRightMidParen(
                n as nat,
                line@,
            ),
            ECnfLoaderError::UnknownSeparator(n, line, found) => ErrorView::UnknownSeparator(
                n as nat,
                line@,
                found,
            ),
            ECnfLoaderError::UnknownValue(n, line, value) => ErrorView::UnknownValue(
                n as nat,
                line@,
                value@,
            ),
        }
    }
}

/// The decimal digit that stands for `d`, for `d` below ten.
pub open spec fn digit(d: nat) -> char {
    (48 + d) as char
}

/// `n` written in decimal digits, without leading zeros.
pub open spec fn decimal(n: nat) -> Seq<char>
    decreases n,
{
    if n < 10 {
        seq![digit(n)]
    } else {
        decimal(n / 10).push(digit(n % 10))
    }
}

impl ErrorView {
    /// The line at which the parser stopped; 0 where the text was not read.
    pub open spec fn line_num(self) -> nat {
        match self {
            ErrorView::ReadFail(_) => 0,
            ErrorView::FailParseKey(n, _) => n,
            ErrorView::FailParse(n, _) => n,
            ErrorView::IllegalRightMidParen(n, _) => n,
            ErrorView::UnknownSeparator(n, _, _) => n,
            ErrorView::UnknownValue(n, _, _) => n,
        }
    }

    /// The failure in one sentence.
    pub open spec fn message(self) -> Seq<char> {
        match self {
            ErrorView::ReadFail(cause) => "Read Fail: "@ + cause,
            ErrorView::FailParseKey(n, line) => "Fail parse key at line: \""@ + line + "\" in "@
                + decimal(n),
            ErrorView::FailParse(n, prefix) => "Illegal End Line for prefix: \""@ + prefix
                + "\" in "@ + decimal(n),
            ErrorView::IllegalRightMidParen(n, line) => "Unknown end mid paren on line: \""@ + line
                + "\" in "@ + decimal(n),
            ErrorView::UnknownSeparator(n, line, found) => "Unknown key-value separator: \""@
                + seq![found] + "\" on line: \""@ + line + "\" in "@ + decimal(n),
            ErrorView::UnknownValue(n, line, value) => "Unknown value: \""@ + value
                + "\" of line: \""@ + line + "\" in "@ + decimal(n),
        }
    }
}

/// Appends `n` in decimal digits to `s`.
pub fn push_decimal(s: &mut String, n: u16)
    ensures
        final(s)@ == old(s)@ + decimal(n as nat),
    decreases n,
{
    if n >= 10 {
        push_decimal(s, n / 10);
    }
    let d: u8 = (n % 10) as u8;
    s.push((48 + d) as char);
}

impl ECnfLoaderError {
    /// The line at which the parser stopped; 0 for `ReadFail`.
    pub fn line_num(&self) -> (n: u16)
        ensures
            n == self@.line_num(),
    {
        match self {
            ECnfLoaderError::ReadFail(_) => 0,
            ECnfLoaderError::FailParseKey(n, _) => *n,
            ECnfLoaderError::FailParse(n, _) => *n,
            ECnfLoaderError::IllegalRightMidParen(n, _) => *n,
            ECnfLoaderError::UnknownSeparator(n, _, _) => *n,
            ECnfLoaderError::UnknownValue(n, _, _) => *n,
        }
    }

    /// The failure in one sentence, for people to read.
    pub fn message(&self) -> (s: String)
        ensures
            s@ == self@.message(),
    {
        match self {
            ECnfLoaderError::ReadFail(cause) => {
                let mut s = "Read Fail: ".to_owned();
                s.append(cause.as_str());
                s
            },
            ECnfLoaderError::FailParseKey(n, line) => {
                let mut s = "Fail parse key at line: \"".to_owned();
                s.append(line.as_str());
                s.append("\" in ");
                push_decimal(&mut s, *n);
                s
            },
            ECnfLoaderError::FailParse(n, prefix) => {
                let mut s = "Illegal End Line for prefix: \"".to_owned();
                s.append(prefix.as_str());
                s.append("\" in ");
                push_decimal(&mut s, *n);
                s
            },
            ECnfLoaderError::IllegalRightMidParen(n, line) => {
                let mut s = "Unknown end mid paren on line: \"".to_owned();
                s.append(line.as_str());
                s.append("\" in ");
                push_decimal(&mut s, *n);
                s
            },
            ECnfLoaderError::UnknownSeparator(n, line, found) => {
                let mut s = "Unknown key-value separator: \"".to_owned();
                s.push(*found);
                s.append("\" on line: \"");
                s.append(line.as_str());
                s.append("\" in ");
                push_decimal(&mut s, *n);
                s
            },
            ECnfLoaderError::UnknownValue(n, line, value) => {
                let mut s = "Unknown value: \"".to_owned();
                s.append(value.as_str());
                s.append("\" of line: \"");
                s.append(line.as_str());
                s.append("\" in ");
                push_decimal(&mut s, *n);
                s
            },
        }
    }
}

} // verus!
