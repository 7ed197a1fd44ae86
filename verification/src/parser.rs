//! The parser: the state of a parse in memory and the functions that read
//! lines and documents into it.

use crate::error::ECnfLoaderError;
use crate::grammar::{lines_of, parse_line, split_lines, Line};
use crate::helper::trim;
use crate::model::{distinct_keys, error_of, joined, lemma_listing_is_unique, lists, mapping, ParserState};
use std::collections::HashMap;
use vstd::prelude::*;
use vstd::string::*;

verus! {

broadcast use vstd::string::group_string_axioms;

/// Stands between the names of nested sections in a path.
pub const PREFIX_SEPARATOR: &'static str = ".";

/// Stands between the path of a section and a key in it.
pub const PREFIX_KEY_SEPARATOR: &'static str = ".";

/// Both separators are the one character `.`.
pub proof fn lemma_separators()
    ensures
        PREFIX_SEPARATOR@ == seq!['.'],
        PREFIX_KEY_SEPARATOR@ == seq!['.'],
{
    reveal_strlit(".");
    assert(PREFIX_SEPARATOR@ =~= seq!['.']);
    assert(PREFIX_KEY_SEPARATOR@ =~= seq!['.']);
}

/// Parser for Environment-CoNF: reads a document line by line and files
/// each value under the path of its key.
pub struct ECnfParser {
    /// How many lines have been read.
    line_num: u16,
    /// Every path that was given a value, with the value, in the order of
    /// the lines. A path may stand here several times: the last time counts.
    ecnf: Vec<(String, Option<String>)>,
    /// The names of the open sections, outermost first.
    prefix_stack: Vec<String>,
}

impl View for ECnfParser {
    type V = ParserState;

    closed spec fn view(&self) -> ParserState {
        ParserState {
            line_num: self.line_num as nat,
            prefix_stack: self.prefix_stack.deep_view(),
            ecnf: mapping(self.ecnf.deep_view()),
        }
    }
}

impl ECnfParser {
    /// A parser that has read nothing.
    pub fn new() -> (parser: Self)
        ensures
            parser@ == ParserState::initial(),
    {
        let parser = ECnfParser { line_num: 0, ecnf: Vec::new(), prefix_stack: Vec::new() };
        proof {
            assert(parser.prefix_stack.deep_view() =~= Seq::empty());
            assert(parser.ecnf.deep_view() =~= Seq::empty());
        }
        parser
    }

    /// How many lines have been read.
    pub fn line_num(&self) -> (n: u16)
        ensures
            n == self@.line_num,
    {
        self.line_num
    }

    /// The path of the open sections: their names, outermost first, with a
    /// separator between each two. Empty at top level.
    pub fn join_prefix(&self) -> (path: String)
        ensures
            path@ == joined(self@.prefix_stack),
    {
        let mut path = String::new();
        let mut i: usize = 0;
        while i < self.prefix_stack.len()
            invariant
                i <= self.prefix_stack.len(),
                path@ == joined(self.prefix_stack.deep_view().take(i as int)),
            decreases self.prefix_stack.len() - i,
        {
            if i > 0 {
                path.append(PREFIX_SEPARATOR);
            }
            path.append(self.prefix_stack[i].as_str());
            proof {
                lemma_separators();
                let stack = self.prefix_stack.deep_view();
                assert(stack.take(i + 1).drop_last() =~= stack.take(i as int));
                assert(stack.take(i + 1).last() == self.prefix_stack[i as int]@);
                assert(path@ =~= joined(stack.take(i + 1)));
            }
            i = i + 1;
        }
        proof {
            let stack = self.prefix_stack.deep_view();
            assert(stack.take(i as int) =~= stack);
        }
        path
    }

    /// The path under which `key` is filed in the innermost open section.
    pub fn build_key(&self, key: &str) -> (path: String)
        ensures
            path@ == self@.full_key(key@),
    {
        if self.prefix_stack.len() == 0 {
            key.to_owned()
        } else {
            let mut path = self.join_prefix();
            path.append(PREFIX_KEY_SEPARATOR);
            path.append(key);
            proof {
                lemma_separators();
            }
            path
        }
    }

    /// Files `value` under `path`, in place of what was filed there before.
    fn insert(&mut self, path: String, value: Option<String>)
        ensures
            final(self)@ == (ParserState {
                ecnf: old(self)@.ecnf.insert(path@, value.deep_view()),
                ..old(self)@
            }),
    {
        let ghost before = self.ecnf.deep_view();
        let ghost entry = (path@, value.deep_view());
        self.ecnf.push((path, value));
        proof {
            let after = self.ecnf.deep_view();
            assert(after =~= before.push(entry));
            assert(after.drop_last() =~= before);
        }
    }

    /// Reads one line: counts it, and files its value, opens or closes a
    /// section, or refuses it. Lines are counted in 16 bits, so the line must
    /// not be the 65536th.
    pub fn load_line(&mut self, line: &str) -> (r: Result<(), ECnfLoaderError>)
        requires
            old(self)@.line_num < u16::MAX,
        ensures
            final(self)@ == old(self)@.feed(line@).state,
            error_of(r) == old(self)@.feed(line@).error,
    {
        self.line_num = self.line_num + 1;
        let n: u16 = self.line_num;
        let text: &str = trim(line);
        match parse_line(text) {
            Line::Blank => Ok(()),
            Line::Comment => Ok(()),
            Line::Close => {
                if self.prefix_stack.len() == 0 {
                    Err(ECnfLoaderError::IllegalRightMidParen(n, text.to_owned()))
                } else {
                    let ghost before = self.prefix_stack.deep_view();
                    let _ = self.prefix_stack.pop();
                    proof {
                        assert(self.prefix_stack.deep_view() =~= before.drop_last());
                    }
                    Ok(())
                }
            },
            Line::Open(key) => {
                let ghost before = self.prefix_stack.deep_view();
                let ghost name = key@;
                self.prefix_stack.push(key);
                proof {
                    assert(self.prefix_stack.deep_view() =~= before.push(name));
                }
                Ok(())
            },
            Line::Entry(key, value) => {
                let path = self.build_key(key.as_str());
                self.insert(path, value);
                Ok(())
            },
            Line::BadKey => Err(ECnfLoaderError::FailParseKey(n, text.to_owned())),
            Line::BadSeparator(found) => Err(
                ECnfLoaderError::UnknownSeparator(n, text.to_owned(), found),
            ),
            Line::BadValue(value) => Err(ECnfLoaderError::UnknownValue(n, text.to_owned(), value)),
        }
    }

    /// Tells whether the text may end here: it may not while a section is open.
    pub fn finish(&self) -> (r: Result<(), ECnfLoaderError>)
        ensures
            error_of(r) == self@.at_end(),
    {
        if self.prefix_stack.len() == 0 {
            Ok(())
        } else {
            Err(ECnfLoaderError::FailParse(self.line_num, self.join_prefix()))
        }
    }

    /// Reads `lines` in order and then the end of the text; stops at the
    /// first failure.
    fn _load(&mut self, lines: &Vec<String>) -> (r: Result<(), ECnfLoaderError>)
        requires
            old(self)@.line_num + lines.len() <= u16::MAX,
        ensures
            final(self)@ == old(self)@.parse_lines(lines.deep_view()).state,
            error_of(r) == old(self)@.parse_lines(lines.deep_view()).error,
    {
        let ghost all = lines.deep_view();
        let mut i: usize = 0;
        proof {
            assert(all.skip(0) =~= all);
        }
        while i < lines.len()
            invariant
                i <= lines.len(),
                all == lines.deep_view(),
                self@.line_num == old(self)@.line_num + i,
                old(self)@.line_num + lines.len() <= u16::MAX,
                old(self)@.feed_all(all) == self@.feed_all(all.skip(i as int)),
            decreases lines.len() - i,
        {
            proof {
                assert(all.skip(i as int)[0] == lines[i as int]@);
                assert(all.skip(i as int).drop_first() =~= all.skip(i + 1));
            }
            match self.load_line(lines[i].as_str()) {
                Ok(()) => {},
                Err(e) => {
                    return Err(e);
                },
            }
            i = i + 1;
        }
        self.finish()
    }

    /// Reads a whole document: its lines in order, then its end. Stops at
    /// the first failure; what had been read up to it stays read. Lines are
    /// counted in 16 bits, so the lines read before and those of `input` must
    /// not be more than 65535 together.
    pub fn load(&mut self, input: &str) -> (r: Result<(), ECnfLoaderError>)
        requires
            old(self)@.line_num + lines_of(input@).len() <= u16::MAX,
        ensures
            final(self)@ == old(self)@.parse(input@).state,
            error_of(r) == old(self)@.parse(input@).error,
    {
        let lines = split_lines(input);
        self._load(&lines)
    }

    /// What has been read so far, as a list: each path once, beside the
    /// value last filed under it.
    pub fn entries(&self) -> (entries: Vec<(String, Option<String>)>)
        ensures
            lists(entries.deep_view(), self@.ecnf),
    {
        let mut entries: Vec<(String, Option<String>)> = Vec::new();
        let ghost writes = self.ecnf.deep_view();
        let mut i: usize = 0;
        proof {
            assert(entries.deep_view() =~= Seq::empty());
        }
        while i < self.ecnf.len()
            invariant
                i <= self.ecnf.len(),
                writes == self.ecnf.deep_view(),
                lists(entries.deep_view(), mapping(writes.take(i as int))),
            decreases self.ecnf.len() - i,
        {
            let value = match &self.ecnf[i].1 {
                Some(v) => Some(v.clone()),
                None => None,
            };
            proof {
                assert(writes.take(i + 1).drop_last() =~= writes.take(i as int));
                assert(writes.take(i + 1).last() == writes[i as int]);
            }
            put(&mut entries, self.ecnf[i].0.clone(), value, Ghost(mapping(writes.take(i as int))));
            i = i + 1;
        }
        proof {
            assert(writes.take(i as int) =~= writes);
        }
        entries
    }

    /// What has been read so far: from each path to the value last filed
    /// under it.
    pub fn build_ecnf(&self) -> (ecnf: HashMap<String, Option<String>>)
        ensures
            ecnf.deep_view() == self@.ecnf,
    {
        let entries = self.entries();
        let ghost listed = entries.deep_view();
        let ecnf = collect(entries);
        proof {
            lemma_listing_is_unique(listed, ecnf.deep_view(), self@.ecnf);
        }
        ecnf
    }
}

/// Believed, not proved: `HashMap::from_iter` of std, given pairs of which
/// no two have the same key, returns the map that holds each of the pairs
/// and nothing else.
#[verifier::external_body]
fn collect(entries: Vec<(String, Option<String>)>) -> (m: HashMap<String, Option<String>>)
    requires
        distinct_keys(entries.deep_view()),
    ensures
        lists(entries.deep_view(), m.deep_view()),
{
    HashMap::from_iter(entries)
}

/// Sets the value beside `path` in a list without repeated paths: in place
/// where the path stands in it, at the end where it does not.
fn put(
    entries: &mut Vec<(String, Option<String>)>,
    path: String,
    value: Option<String>,
    Ghost(m): Ghost<Map<Seq<char>, Option<Seq<char>>>>,
)
    requires
        lists(old(entries).deep_view(), m),
    ensures
        lists(final(entries).deep_view(), m.insert(path@, value.deep_view())),
{
    let ghost before = entries.deep_view();
    let mut i: usize = 0;
    while i < entries.len()
        invariant
            i <= entries.len(),
            entries.deep_view() == before,
            forall|j: int| 0 <= j < i ==> (#[trigger] before[j]).0 != path@,
        ensures
            i < entries.len() ==> before[i as int].0 == path@,
        decreases entries.len() - i,
    {
        if entries[i].0 == path {
            assert(before[i as int].0 == entries[i as int].0@);
            break ;
        }
        i = i + 1;
    }
    let ghost entry = (path@, value.deep_view());
    if i < entries.len() {
        entries.set(i, (path, value));
        proof {
            assert(entries.deep_view() =~= before.update(i as int, entry));
        }
    } else {
        entries.push((path, value));
        proof {
            assert(entries.deep_view() =~= before.push(entry));
        }
    }
    proof {
        let after = entries.deep_view();
        let new_map = m.insert(entry.0, entry.1);
        assert forall|a: int, b: int| 0 <= a < b < after.len() implies (#[trigger] after[a]).0 != (
        #[trigger] after[b]).0 by {
            if a < before.len() && a != i {
                assert(after[a] == before[a]);
            }
            if b < before.len() && b != i {
                assert(after[b] == before[b]);
            }
            if a == i && i < before.len() {
                assert(before[a].0 == entry.0);
            }
            if b == i && i < before.len() {
                assert(before[b].0 == entry.0);
            }
        }
        assert forall|j: int| 0 <= j < after.len() implies new_map.contains_key(
            (#[trigger] after[j]).0,
        ) && new_map[after[j].0] == after[j].1 by {
            if j != i {
                assert(after[j] == before[j]);
                assert(m.contains_key(before[j].0));
            }
        }
        assert forall|k: Seq<char>| new_map.contains_key(k) implies exists|j: int|
            0 <= j < after.len() && (#[trigger] after[j]).0 == k by {
            if k == entry.0 {
                assert(after[i as int].0 == k);
            } else {
                assert(m.contains_key(k));
                let j = choose|j: int| 0 <= j < before.len() && (#[trigger] before[j]).0 == k;
                assert(after[j] == before[j]);
            }
        }
    }
}

} // verus!
