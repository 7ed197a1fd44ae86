//! The parse as mathematics: the state between two lines, what a line does
//! to it, and what holds of every parse.

use crate::error::{ECnfLoaderError, ErrorView};
use crate::grammar::{classify, lines_of, LineView};
use crate::helper::trimmed;
use vstd::prelude::*;

verus! {

/// The names of the open sections, outermost first, as one path: a `.`
/// stands between each two.
pub open spec fn joined(stack: Seq<Seq<char>>) -> Seq<char>
    decreases stack.len(),
{
    if stack.len() == 0 {
        Seq::empty()
    } else if stack.len() == 1 {
        stack[0]
    } else {
        joined(stack.drop_last()) + seq!['.'] + stack.last()
    }
}

/// No key stands twice in `entries`.
pub open spec fn distinct_keys(entries: Seq<(Seq<char>, Option<Seq<char>>)>) -> bool {
    forall|i: int, j: int| 0 <= i < j < entries.len() ==> (#[trigger] entries[i]).0 != (
    #[trigger] entries[j]).0
}

/// `entries` lists `m`: each key of `m` stands in it once, beside its value,
/// and nothing else stands in it.
pub open spec fn lists(
    entries: Seq<(Seq<char>, Option<Seq<char>>)>,
    m: Map<Seq<char>, Option<Seq<char>>>,
) -> bool {
    &&& distinct_keys(entries)
    &&& forall|i: int|
        0 <= i < entries.len() ==> m.contains_key((#[trigger] entries[i]).0) && m[entries[i].0]
            == entries[i].1
    &&& forall|k: Seq<char>|
        m.contains_key(k) ==> exists|i: int| 0 <= i < entries.len() && (#[trigger] entries[i]).0 == k
}

/// One list lists one mapping only.
pub proof fn lemma_listing_is_unique(
    entries: Seq<(Seq<char>, Option<Seq<char>>)>,
    a: Map<Seq<char>, Option<Seq<char>>>,
    b: Map<Seq<char>, Option<Seq<char>>>,
)
    requires
        lists(entries, a),
        lists(entries, b),
    ensures
        a == b,
{
    assert forall|k: Seq<char>| a.contains_key(k) == b.contains_key(k) by {
        if a.contains_key(k) {
            let i = choose|i: int| 0 <= i < entries.len() && (#[trigger] entries[i]).0 == k;
            assert(b.contains_key(entries[i].0));
        }
        if b.contains_key(k) {
            let i = choose|i: int| 0 <= i < entries.len() && (#[trigger] entries[i]).0 == k;
            assert(a.contains_key(entries[i].0));
        }
    }
    assert forall|k: Seq<char>| a.contains_key(k) implies a[k] == b[k] by {
        let i = choose|i: int| 0 <= i < entries.len() && (#[trigger] entries[i]).0 == k;
        assert(a[entries[i].0] == entries[i].1);
        assert(b[entries[i].0] == entries[i].1);
    }
    assert(a =~= b);
}

/// The mapping that a record of writes leaves: each pair is written in
/// turn, and a later write to a path replaces an earlier one.
pub open spec fn mapping(writes: Seq<(Seq<char>, Option<Seq<char>>)>) -> Map<
    Seq<char>,
    Option<Seq<char>>,
>
    decreases writes.len(),
{
    if writes.len() == 0 {
        Map::empty()
    } else {
        mapping(writes.drop_last()).insert(writes.last().0, writes.last().1)
    }
}

/// The state of a parse, as mathematical values.
pub struct ParserState {
    /// How many lines have been read.
    pub line_num: nat,
    /// The names of the sections that are open, outermost first.
    pub prefix_stack: Seq<Seq<char>>,
    /// What has been read: from the path of a key to its value, where it has one.
    pub ecnf: Map<Seq<char>, Option<Seq<char>>>,
}

/// A state of the parse and, where the parse has failed, the failure.
pub struct Outcome {
    pub state: ParserState,
    pub error: Option<ErrorView>,
}

impl ParserState {
    /// The state before the first line: nothing read, no section open.
    pub open spec fn initial() -> ParserState {
        ParserState { line_num: 0, prefix_stack: Seq::empty(), ecnf: Map::empty() }
    }

    /// The path under which `key` is filed: the key itself at top level, else
    /// the path of the open sections, a `.` and the key.
    pub open spec fn full_key(self, key: Seq<char>) -> Seq<char> {
        if self.prefix_stack.len() == 0 {
            key
        } else {
            joined(self.prefix_stack) + seq!['.'] + key
        }
    }

    /// The state after one more line, and the failure where the line is
    /// refused. The line is counted in either case; a refused line changes
    /// nothing else.
    pub open spec fn feed(self, line: Seq<char>) -> Outcome {
        let text = trimmed(line);
        let n = self.line_num + 1;
        let counted = ParserState { line_num: n, ..self };
        match classify(text) {
            LineView::Blank => Outcome { state: counted, error: None },
            LineView::Comment => Outcome { state: counted, error: None },
            LineView::Close => if self.prefix_stack.len() == 0 {
                Outcome { state: counted, error: Some(ErrorView::IllegalRightMidParen(n, text)) }
            } else {
                Outcome {
                    state: ParserState { prefix_stack: self.prefix_stack.drop_last(), ..counted },
                    error: None,
                }
            },
            LineView::Open(key) => Outcome {
                state: ParserState { prefix_stack: self.prefix_stack.push(key), ..counted },
                error: None,
            },
            LineView::Entry(key, value) => Outcome {
                state: ParserState {
                    ecnf: self.ecnf.insert(self.full_key(key), value),
                    ..counted
                },
                error: None,
            },
            LineView::BadKey => Outcome {
                state: counted,
                error: Some(ErrorView::FailParseKey(n, text)),
            },
            LineView::BadSeparator(found) => Outcome {
                state: counted,
                error: Some(ErrorView::UnknownSeparator(n, text, found)),
            },
            LineView::BadValue(value) => Outcome {
                state: counted,
                error: Some(ErrorView::UnknownValue(n, text, value)),
            },
        }
    }

    /// The state after `lines`, read in order up to the first that is
    /// refused, and the failure where one is.
    pub open spec fn feed_all(self, lines: Seq<Seq<char>>) -> Outcome
        decreases lines.len(),
    {
        if lines.len() == 0 {
            Outcome { state: self, error: None }
        } else {
            let first = self.feed(lines[0]);
            if first.error is Some {
                first
            } else {
                first.state.feed_all(lines.drop_first())
            }
        }
    }

    /// What the end of the text means in this state: a failure where a
    /// section is still open.
    pub open spec fn at_end(self) -> Option<ErrorView> {
        if self.prefix_stack.len() == 0 {
            None
        } else {
            Some(ErrorView::FailParse(self.line_num, joined(self.prefix_stack)))
        }
    }

    /// The state after a whole text of `lines`, and the failure where the
    /// text is refused: at a line, or at its end.
    pub open spec fn parse_lines(self, lines: Seq<Seq<char>>) -> Outcome {
        let read = self.feed_all(lines);
        if read.error is Some {
            read
        } else {
            Outcome { state: read.state, error: read.state.at_end() }
        }
    }

    /// The state after a whole document, and the failure where the
    /// document is refused.
    pub open spec fn parse(self, text: Seq<char>) -> Outcome {
        self.parse_lines(lines_of(text))
    }
}

/// The failure that a result holds, if any.
pub open spec fn error_of(r: Result<(), ECnfLoaderError>) -> Option<ErrorView> {
    match r {
        Ok(_) => None,
        Err(e) => Some(e@),
    }
}

/// Parsing is deterministic: from equal states, equal texts lead to the
/// same state and to the same verdict.
pub proof fn lemma_parse_is_deterministic(
    a: ParserState,
    b: ParserState,
    text_a: Seq<char>,
    text_b: Seq<char>,
)
    requires
        a == b,
        text_a == text_b,
    ensures
        a.parse(text_a) == b.parse(text_b),
{
}

/// Every line is counted, a failure names the line that was counted last,
/// and a line that is refused changes nothing but the count.
pub proof fn lemma_feed_counts(st: ParserState, line: Seq<char>)
    ensures
        st.feed(line).state.line_num == st.line_num + 1,
        st.feed(line).error matches Some(e) ==> e.line_num() == st.line_num + 1
            && st.feed(line).state == (ParserState { line_num: st.line_num + 1, ..st }),
{
}

/// A text is accepted only where each of its sections is closed: after it,
/// none is open.
pub proof fn lemma_accepted_text_is_closed(st: ParserState, lines: Seq<Seq<char>>)
    requires
        st.parse_lines(lines).error is None,
    ensures
        st.parse_lines(lines).state.prefix_stack.len() == 0,
{
}

/// Comments and blank lines are counted and change nothing else. Where any
/// number of them stand before a line that is refused, the failure is the
/// one that the line gets in this state, numbered by the place of the line
/// in the text: one more than the lines before it.
pub proof fn lemma_silent_lines_are_counted(
    st: ParserState,
    silent: Seq<Seq<char>>,
    bad: Seq<char>,
    rest: Seq<Seq<char>>,
)
    requires
        forall|i: int|
            0 <= i < silent.len() ==> classify(trimmed(#[trigger] silent[i])).is_silent(),
        st.feed(bad).error is Some,
    ensures
        st.parse_lines(silent + seq![bad] + rest).error == (ParserState {
            line_num: st.line_num + silent.len(),
            ..st
        }).feed(bad).error,
        st.parse_lines(silent + seq![bad] + rest).error is Some,
        st.parse_lines(silent + seq![bad] + rest).error->0.line_num() == st.line_num + silent.len()
            + 1,
    decreases silent.len(),
{
    let lines = silent + seq![bad] + rest;
    lemma_feed_counts(ParserState { line_num: st.line_num + silent.len(), ..st }, bad);
    if silent.len() == 0 {
        assert(lines[0] == bad);
        assert((ParserState { line_num: st.line_num + silent.len(), ..st }) == st);
    } else {
        let next = st.feed(silent[0]).state;
        assert(lines[0] == silent[0]);
        assert(classify(trimmed(silent[0])).is_silent());
        assert(next == ParserState { line_num: st.line_num + 1, ..st });
        assert(lines.drop_first() =~= silent.drop_first() + seq![bad] + rest);
        assert forall|i: int| 0 <= i < silent.drop_first().len() implies classify(
            trimmed(#[trigger] silent.drop_first()[i]),
        ).is_silent() by {
            assert(silent.drop_first()[i] == silent[i + 1]);
        }
        lemma_silent_lines_are_counted(next, silent.drop_first(), bad, rest);
        assert((ParserState { line_num: next.line_num + silent.drop_first().len(), ..next })
            == ParserState { line_num: st.line_num + silent.len(), ..st });
    }
}

/// Only a line that gives a value to a key changes the mapping: comments,
/// blank lines, the opening and the closing of a section and refused lines
/// leave every path and value as they were.
pub proof fn lemma_other_lines_write_nothing(st: ParserState, line: Seq<char>)
    requires
        !(classify(trimmed(line)) is Entry),
    ensures
        st.feed(line).state.ecnf == st.ecnf,
{
}

/// A line that gives a value to a key files the value under the key's path
/// in the section that is open, in place of whatever was filed there, and
/// leaves every other path as it was.
pub proof fn lemma_write_replaces(
    st: ParserState,
    line: Seq<char>,
    key: Seq<char>,
    value: Option<Seq<char>>,
)
    requires
        classify(trimmed(line)) == LineView::Entry(key, value),
    ensures
        st.feed(line).error is None,
        st.feed(line).state.ecnf.contains_key(st.full_key(key)),
        st.feed(line).state.ecnf[st.full_key(key)] == value,
        forall|path: Seq<char>|
            path != st.full_key(key) ==> st.feed(line).state.ecnf.contains_key(path)
                == st.ecnf.contains_key(path) && st.feed(line).state.ecnf[path] == st.ecnf[path],
{
}

/// The last write wins: of two lines that give a value to the same key in
/// the same section, the second leaves its value under the key's path, and
/// the mapping is the one that the second line alone would have left.
pub proof fn lemma_last_write_wins(
    st: ParserState,
    first: Seq<char>,
    second: Seq<char>,
    key: Seq<char>,
    a: Option<Seq<char>>,
    b: Option<Seq<char>>,
)
    requires
        classify(trimmed(first)) == LineView::Entry(key, a),
        classify(trimmed(second)) == LineView::Entry(key, b),
    ensures
        st.feed_all(seq![first, second]).error is None,
        st.feed_all(seq![first, second]).state.ecnf[st.full_key(key)] == b,
        st.feed_all(seq![first, second]).state.ecnf == st.feed(second).state.ecnf,
{
    let lines = seq![first, second];
    let one = st.feed(first).state;
    assert(lines[0] == first);
    assert(lines.drop_first() =~= seq![second]);
    assert(seq![second][0] == second);
    assert(seq![second].drop_first() =~= Seq::<Seq<char>>::empty());
    let two = one.feed(second);
    assert(one.feed_all(seq![second]) == two.state.feed_all(Seq::empty())) by {
        reveal_with_fuel(ParserState::feed_all, 2);
    }
    assert(one.full_key(key) == st.full_key(key));
    assert(two.state.ecnf =~= st.ecnf.insert(st.full_key(key), b));
}

} // verus!
