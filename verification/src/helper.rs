//! Characters and runs of characters: what counts as a capital letter, a
//! key character and whitespace, and the scanners that walk over a text by
//! these classes.

use std::str::Chars;
use vstd::prelude::*;
use vstd::std_specs::iter::IteratorSpec;
use vstd::string::*;

verus! {

broadcast use vstd::string::group_string_axioms;

/// Believed, not proved: `String::push` of std appends the one character
/// `c` to the end of `s` and leaves what `s` held before it as it was.
pub assume_specification[ String::push ](s: &mut String, c: char)
    ensures
        final(s)@ == old(s)@.push(c),
;

/// Believed, not proved: `Chars::as_str` of std returns the part of the
/// text that the iterator has not walked over yet. Its characters are those
/// that `next` is still going to yield, in their order.
pub assume_specification<'a>[ Chars::<'a>::as_str ](chars: &Chars<'a>) -> (rest: &'a str)
    ensures
        rest@ == chars.remaining(),
;

/// The capital letters `A` to `Z` of ASCII.
pub open spec fn large_alphabetic(c: char) -> bool {
    'A' <= c <= 'Z'
}

/// The characters that may stand in a key: capital ASCII letters and `_`.
pub open spec fn key_char(c: char) -> bool {
    large_alphabetic(c) || c == '_'
}

/// The characters that Unicode marks as `White_Space`: the ones that
/// `char::is_whitespace` of std accepts.
pub open spec fn whitespace(c: char) -> bool {
    ||| '\u{9}' <= c <= '\u{d}'
    ||| c == ' '
    ||| c == '\u{85}'
    ||| c == '\u{a0}'
    ||| c == '\u{1680}'
    ||| '\u{2000}' <= c <= '\u{200a}'
    ||| c == '\u{2028}'
    ||| c == '\u{2029}'
    ||| c == '\u{202f}'
    ||| c == '\u{205f}'
    ||| c == '\u{3000}'
}

/// `key_char` as a predicate value.
pub open spec fn key_chars() -> spec_fn(char) -> bool {
    |c: char| key_char(c)
}

/// `whitespace` as a predicate value.
pub open spec fn whitespaces() -> spec_fn(char) -> bool {
    |c: char| whitespace(c)
}

/// How many characters at the front of `s` satisfy `p` without a break.
pub open spec fn run_len(s: Seq<char>, p: spec_fn(char) -> bool) -> nat
    decreases s.len(),
{
    if s.len() > 0 && p(s[0]) {
        1 + run_len(s.drop_first(), p)
    } else {
        0
    }
}

/// How many characters at the back of `s` satisfy `p` without a break.
pub open spec fn back_run_len(s: Seq<char>, p: spec_fn(char) -> bool) -> nat
    decreases s.len(),
{
    if s.len() > 0 && p(s.last()) {
        1 + back_run_len(s.drop_last(), p)
    } else {
        0
    }
}

/// `s` without the whitespace at its front.
pub open spec fn trim_start(s: Seq<char>) -> Seq<char> {
    s.skip(run_len(s, whitespaces()) as int)
}

/// `s` without the whitespace at its back.
pub open spec fn trim_end(s: Seq<char>) -> Seq<char> {
    s.take(s.len() - back_run_len(s, whitespaces()))
}

/// `s` without the whitespace at either end.
pub open spec fn trimmed(s: Seq<char>) -> Seq<char> {
    trim_end(trim_start(s))
}

/// `s` has at least two characters, the first is `open` and the last is `close`.
pub open spec fn wrapped(s: Seq<char>, open: char, close: char) -> bool {
    s.len() >= 2 && s[0] == open && s.last() == close
}

/// A run at the front is pinned by its length: the `n` first characters
/// satisfy `p`, and the one behind them, if there is one, does not.
pub proof fn lemma_run_len_is(s: Seq<char>, p: spec_fn(char) -> bool, n: int)
    requires
        0 <= n <= s.len(),
        forall|i: int| 0 <= i < n ==> p(#[trigger] s[i]),
        n < s.len() ==> !p(s[n]),
    ensures
        run_len(s, p) == n,
    decreases n,
{
    if n > 0 {
        let t = s.drop_first();
        assert forall|i: int| 0 <= i < n - 1 implies p(#[trigger] t[i]) by {
            assert(t[i] == s[i + 1]);
        }
        lemma_run_len_is(t, p, n - 1);
    }
}

/// The run at the front lies inside `s`, each of its characters satisfies
/// `p`, and the character behind it, if there is one, does not.
pub proof fn lemma_run_len_bounds(s: Seq<char>, p: spec_fn(char) -> bool)
    ensures
        run_len(s, p) <= s.len(),
        forall|i: int| 0 <= i < run_len(s, p) ==> p(#[trigger] s[i]),
        run_len(s, p) < s.len() ==> !p(s[run_len(s, p) as int]),
    decreases s.len(),
{
    if s.len() > 0 && p(s[0]) {
        let t = s.drop_first();
        lemma_run_len_bounds(t, p);
        assert forall|i: int| 0 <= i < run_len(s, p) implies p(#[trigger] s[i]) by {
            if i > 0 {
                assert(s[i] == t[i - 1]);
            }
        }
    }
}

/// A run at the back is pinned by its length: the `n` last characters
/// satisfy `p`, and the one before them, if there is one, does not.
pub proof fn lemma_back_run_len_is(s: Seq<char>, p: spec_fn(char) -> bool, n: int)
    requires
        0 <= n <= s.len(),
        forall|i: int| s.len() - n <= i < s.len() ==> p(#[trigger] s[i]),
        n < s.len() ==> !p(s[s.len() - n - 1]),
    ensures
        back_run_len(s, p) == n,
    decreases n,
{
    if n > 0 {
        let t = s.drop_last();
        assert forall|i: int| t.len() - (n - 1) <= i < t.len() implies p(#[trigger] t[i]) by {
            assert(t[i] == s[i]);
        }
        lemma_back_run_len_is(t, p, n - 1);
    }
}

/// The run at the back lies inside `s`, each of its characters satisfies
/// `p`, and the character before it, if there is one, does not.
pub proof fn lemma_back_run_len_bounds(s: Seq<char>, p: spec_fn(char) -> bool)
    ensures
        back_run_len(s, p) <= s.len(),
        forall|i: int| s.len() - back_run_len(s, p) <= i < s.len() ==> p(#[trigger] s[i]),
        back_run_len(s, p) < s.len() ==> !p(s[s.len() - back_run_len(s, p) - 1]),
    decreases s.len(),
{
    if s.len() > 0 && p(s.last()) {
        let t = s.drop_last();
        lemma_back_run_len_bounds(t, p);
        assert forall|i: int| s.len() - back_run_len(s, p) <= i < s.len() implies p(
            #[trigger] s[i],
        ) by {
            if i < s.len() - 1 {
                assert(s[i] == t[i]);
            }
        }
    }
}

/// Trimming takes whitespace away and nothing else, and leaves none at
/// either end: what stays is one stretch of `s`, all before it and all behind
/// it is whitespace, and its first and last characters are not.
pub proof fn lemma_trimmed_ends(s: Seq<char>)
    ensures
        run_len(s, whitespaces()) + trimmed(s).len() <= s.len(),
        trimmed(s) == s.subrange(
            run_len(s, whitespaces()) as int,
            (run_len(s, whitespaces()) + trimmed(s).len()) as int,
        ),
        forall|i: int|
            0 <= i < run_len(s, whitespaces()) || run_len(s, whitespaces()) + trimmed(s).len() <= i
                < s.len() ==> whitespace(#[trigger] s[i]),
        trimmed(s).len() > 0 ==> !whitespace(trimmed(s)[0]) && !whitespace(trimmed(s).last()),
{
    let p = whitespaces();
    let a = run_len(s, p);
    lemma_run_len_bounds(s, p);
    let t = s.skip(a as int);
    lemma_back_run_len_bounds(t, p);
    let n = trimmed(s).len();
    assert(trimmed(s) =~= s.subrange(a as int, (a + n) as int));
    assert forall|i: int| 0 <= i < a || a + n <= i < s.len() implies whitespace(
        #[trigger] s[i],
    ) by {
        if i < a {
            assert(p(s[i]));
        } else {
            assert(p(t[i - a]));
        }
    }
    if n > 0 {
        assert(trimmed(s)[0] == s[a as int]);
        assert(trimmed(s).last() == t[t.len() - back_run_len(t, p) - 1]);
    }
}

/// Whitespace around a text that neither begins nor ends with whitespace is
/// what trimming takes away.
pub proof fn lemma_trimmed_is(before: Seq<char>, text: Seq<char>, after: Seq<char>)
    requires
        forall|i: int| 0 <= i < before.len() ==> whitespace(#[trigger] before[i]),
        forall|i: int| 0 <= i < after.len() ==> whitespace(#[trigger] after[i]),
        text.len() > 0 ==> !whitespace(text[0]) && !whitespace(text.last()),
    ensures
        trimmed(before + text + after) == text,
{
    let p = whitespaces();
    let s = before + text + after;
    if text.len() == 0 {
        assert forall|i: int| 0 <= i < s.len() implies p(#[trigger] s[i]) by {
            if i < before.len() {
                assert(s[i] == before[i]);
            } else {
                assert(s[i] == after[i - before.len()]);
            }
        }
        lemma_run_len_is(s, p, s.len() as int);
        lemma_back_run_len_is(s.skip(s.len() as int), p, 0);
        assert(trimmed(s) =~= text);
    } else {
        assert forall|i: int| 0 <= i < before.len() implies p(#[trigger] s[i]) by {
            assert(s[i] == before[i]);
        }
        assert(s[before.len() as int] == text[0]);
        lemma_run_len_is(s, p, before.len() as int);
        let t = s.skip(before.len() as int);
        assert(t =~= text + after);
        assert forall|i: int| t.len() - after.len() <= i < t.len() implies p(#[trigger] t[i]) by {
            assert(t[i] == after[i - text.len()]);
        }
        assert(t[t.len() - after.len() - 1] == text.last());
        lemma_back_run_len_is(t, p, after.len() as int);
        assert(trimmed(s) =~= text);
    }
}

/// Tells whether `c` is a capital ASCII letter.
pub fn is_large_alphabetic(c: &char) -> (b: bool)
    ensures
        b == large_alphabetic(*c),
{
    'A' <= *c && *c <= 'Z'
}

/// Tells whether `c` may stand in a key.
pub fn is_key_char(c: &char) -> (b: bool)
    ensures
        b == key_char(*c),
{
    is_large_alphabetic(c) || *c == '_'
}

/// Tells whether `c` is whitespace.
pub fn is_whitespace(c: &char) -> (b: bool)
    ensures
        b == whitespace(*c),
{
    let c: char = *c;
    ('\u{9}' <= c && c <= '\u{d}') || c == ' ' || c == '\u{85}' || c == '\u{a0}' || c == '\u{1680}'
        || ('\u{2000}' <= c && c <= '\u{200a}') || c == '\u{2028}' || c == '\u{2029}' || c
        == '\u{202f}' || c == '\u{205f}' || c == '\u{3000}'
}

/// Takes characters from `chars` for as long as `predicate` accepts them and
/// returns them as a string. The first character that `predicate` refuses
/// stays in `chars`; at the end of `chars` nothing is taken.
pub fn to_string_while<F: Fn(&char) -> bool>(chars: &mut Chars, predicate: F) -> (s: String)
    requires
        forall|i: int|
            0 <= i < (*old(chars)).remaining().len() ==> call_requires(
                predicate,
                (&#[trigger] (*old(chars)).remaining()[i],),
            ),
    ensures
        s@.len() <= (*old(chars)).remaining().len(),
        s@ == (*old(chars)).remaining().take(s@.len() as int),
        (*final(chars)).remaining() == (*old(chars)).remaining().skip(s@.len() as int),
        forall|i: int| 0 <= i < s@.len() ==> call_ensures(predicate, (&#[trigger] s@[i],), true),
        s@.len() < (*old(chars)).remaining().len() ==> call_ensures(
            predicate,
            (&(*old(chars)).remaining()[s@.len() as int],),
            false,
        ),
{
    let mut s = String::new();
    let mut rest: &str = chars.as_str();
    loop
        invariant
            forall|i: int|
                0 <= i < (*old(chars)).remaining().len() ==> call_requires(
                    predicate,
                    (&#[trigger] (*old(chars)).remaining()[i],),
                ),
            rest@ == (*chars).remaining(),
            s@.len() <= (*old(chars)).remaining().len(),
            s@ =~= (*old(chars)).remaining().take(s@.len() as int),
            (*chars).remaining() =~= (*old(chars)).remaining().skip(s@.len() as int),
            forall|i: int|
                0 <= i < s@.len() ==> call_ensures(predicate, (&#[trigger] s@[i],), true),
        ensures
            s@.len() < (*old(chars)).remaining().len() ==> call_ensures(
                predicate,
                (&(*old(chars)).remaining()[s@.len() as int],),
                false,
            ),
        decreases rest@.len(),
    {
        let mut probe = rest.chars();
        match probe.next() {
            Some(c) => {
                if predicate(&c) {
                    s.push(c);
                    let _ = chars.next();
                    rest = chars.as_str();
                } else {
                    break ;
                }
            },
            None => {
                break ;
            },
        }
    }
    s
}

/// Takes the whitespace at the front of `chars` away.
pub fn consume_whitespace(chars: &mut Chars)
    ensures
        (*final(chars)).remaining() == trim_start((*old(chars)).remaining()),
{
    let accept = |c: &char| -> (b: bool)
        ensures
            b == whitespace(*c),
        {
            is_whitespace(c)
        };
    let taken = to_string_while(chars, accept);
    proof {
        let all = (*old(chars)).remaining();
        assert forall|i: int| 0 <= i < taken@.len() implies whitespaces()(#[trigger] all[i]) by {
            assert(all[i] == taken@[i]);
        }
        lemma_run_len_is(all, whitespaces(), taken@.len() as int);
    }
}

/// Tells whether `target` has at least two characters, begins with `start`
/// and ends with `end`. A single character is never wrapped, whatever it is.
pub fn start_end_with(target: &str, start: char, end: char) -> (b: bool)
    ensures
        b == wrapped(target@, start, end),
{
    let n: usize = target.unicode_len();
    n >= 2 && target.get_char(0) == start && target.get_char(n - 1) == end
}

/// Returns `line` without the whitespace at its two ends.
pub fn trim(line: &str) -> (t: &str)
    ensures
        t@ == trimmed(line@),
{
    let n: usize = line.unicode_len();
    let mut start: usize = 0;
    let mut end: usize = 0;
    let mut i: usize = 0;
    for c in it: line.chars()
        invariant
            it.seq() == line@,
            n == line@.len(),
            i == it.index(),
            start <= end <= i,
            forall|j: int| 0 <= j < start ==> whitespace(#[trigger] line@[j]),
            forall|j: int| end <= j < i ==> whitespace(#[trigger] line@[j]),
            start < end ==> !whitespace(line@[start as int]) && !whitespace(line@[end - 1]),
            start == end ==> start == i,
    {
        if !is_whitespace(&c) {
            end = i + 1;
        } else if start == end {
            start = i + 1;
            end = i + 1;
        }
        i = i + 1;
    }
    proof {
        let p = whitespaces();
        assert forall|j: int| 0 <= j < start implies p(#[trigger] line@[j]) by {}
        lemma_run_len_is(line@, p, start as int);
        let rest = line@.skip(start as int);
        assert forall|j: int| rest.len() - (n - end) <= j < rest.len() implies p(
            #[trigger] rest[j],
        ) by {
            assert(rest[j] == line@[j + start]);
        }
        if start < end {
            assert(rest[rest.len() - (n - end) - 1] == line@[end - 1]);
        }
        lemma_back_run_len_is(rest, p, n - end);
        assert(trimmed(line@) =~= line@.subrange(start as int, end as int));
    }
    line.substring_char(start, end)
}

} // verus!
