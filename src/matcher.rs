//! The typing buffer and the matcher that recognizes triggers at its end:
//! literal triggers through the suffix trie, regular-expression triggers
//! one by one in declared order.

use vstd::prelude::*;

use crate::config::{same_snippet, Snippet};
use crate::text::{append_chars, chars_of, is_separator, is_separator_char, string_of};
use crate::trie::{longest_suffix, reversed, tail_key, Trie};

verus! {

/// How many characters the typing buffer holds at most.
pub const MAX_BUFFER_SIZE: usize = 256;

/// The regex source of a regular-expression trigger: the trigger as one
/// group, anchored at the end of the text.
pub open spec fn tail_source(p: Seq<char>) -> Seq<char> {
    "(?:"@ + p + ")$"@
}

#[verifier::external_type_specification]
#[verifier::external_body]
pub struct ExRegex(regex::Regex);

/// What `regex::Regex::new` reports for a source: whether it compiles.
pub uninterp spec fn regex_compiles(source: Seq<char>) -> bool;

/// The source a compiled regex was built from, as `Regex::as_str` gives it back.
pub uninterp spec fn regex_source(r: regex::Regex) -> Seq<char>;

/// What `Regex::captures` finds in `t` with the regex compiled from `source`:
/// the text of the whole match and, for each group, the text it captured, if any.
pub uninterp spec fn regex_captures(source: Seq<char>, t: Seq<char>) -> Option<(Seq<char>, Seq<Option<Seq<char>>>)>;

pub open spec fn strings_view(v: Seq<String>) -> Seq<Seq<char>> {
    Seq::new(v.len(), |i: int| v[i]@)
}

pub open spec fn opt_strings_view(v: Seq<Option<String>>) -> Seq<Option<Seq<char>>> {
    Seq::new(
        v.len(),
        |i: int|
            match v[i] {
                Some(s) => Some(s@),
                None => None,
            },
    )
}

/// Relies on `regex::Regex::new`: the compiled regex, which keeps its source,
/// or nothing where the source does not compile.
#[verifier::external_body]
fn compile_regex(source: &str) -> (r: Option<regex::Regex>)
    ensures
        r is Some <==> regex_compiles(source@),
        r matches Some(re) ==> regex_source(re) == source@,
{
    regex::Regex::new(source).ok()
}

/// Relies on `regex::Regex::captures`: the whole match and the text of each
/// group, or nothing where the regex does not match.
#[verifier::external_body]
fn run_regex(re: &regex::Regex, text: &str) -> (r: Option<(String, Vec<Option<String>>)>)
    ensures
        match r {
            Some((w, g)) => regex_captures(regex_source(*re), text@) == Some((w@, opt_strings_view(g@))),
            None => regex_captures(regex_source(*re), text@) is None,
        },
{
    re.captures(text).map(
        |caps| (caps[0].to_string(), caps.iter().skip(1).map(|m| m.map(|m| m.as_str().to_string())).collect()),
    )
}

fn tail_source_string(p: &String) -> (r: String)
    ensures
        r@ == tail_source(p@),
{
    let mut v = chars_of("(?:");
    let pc = chars_of(p.as_str());
    append_chars(&mut v, &pc);
    let close = chars_of(")$");
    append_chars(&mut v, &close);
    string_of(&v)
}

/// A recognized trigger.
#[derive(Debug, Clone)]
pub struct MatchResult {
    /// The snippet whose trigger matched.
    pub snippet: Snippet,
    /// The text that matched, as typed.
    pub typed_trigger: String,
    /// How many characters the trigger spans at the end of the buffer.
    pub chars_to_delete: usize,
    /// The text of each capture group of a regular-expression trigger, in
    /// group order; a group that took no part in the match has empty text.
    pub captures: Option<Vec<String>>,
}

/// A match, in terms of values.
pub struct MatchSpec {
    pub snippet: Snippet,
    pub typed: Seq<char>,
    pub delete: nat,
    pub captures: Option<Seq<Seq<char>>>,
}

impl MatchResult {
    pub open spec fn agrees(&self, m: MatchSpec) -> bool {
        &&& same_snippet(self.snippet, m.snippet)
        &&& self.typed_trigger@ == m.typed
        &&& self.chars_to_delete == m.delete
        &&& match self.captures {
            Some(c) => m.captures == Some(strings_view(c@)),
            None => m.captures is None,
        }
    }
}

/// The matcher's state, in terms of values.
pub struct MatcherView {
    /// The recently typed characters.
    pub buffer: Seq<char>,
    /// The literal snippets, keyed by reversed trigger.
    pub literals: Map<Seq<char>, Snippet>,
    /// The regular-expression snippets, in declared order.
    pub regexes: Seq<Snippet>,
    /// Whether the last typed character ends a word.
    pub at_word_boundary: bool,
}

/// Whether a match that starts at `start` in `b` starts a word.
pub open spec fn boundary_before(b: Seq<char>, start: int) -> bool {
    start <= 0 || is_separator(b[start - 1])
}

/// The text of each group of a match, in group order; a group that took no
/// part has empty text.
pub open spec fn group_texts(g: Seq<Option<Seq<char>>>) -> Seq<Seq<char>> {
    Seq::new(
        g.len(),
        |i: int|
            match g[i] {
                Some(s) => s,
                None => Seq::empty(),
            },
    )
}

pub open spec fn ends_with(b: Seq<char>, w: Seq<char>) -> bool {
    w.len() <= b.len() && b.subrange(b.len() - w.len(), b.len() as int) == w
}

/// The match that a regular-expression snippet yields on `b`, given what the
/// pattern matched there: the match must end the buffer, and start a word where
/// the snippet asks for it.
pub open spec fn regex_hit_from(s: Snippet, b: Seq<char>, w: Seq<char>, g: Seq<Option<Seq<char>>>) -> Option<MatchSpec> {
    if ends_with(b, w) && (!s.word_boundary || boundary_before(b, b.len() - w.len())) {
        Some(
            MatchSpec {
                snippet: s,
                typed: w,
                delete: w.len(),
                captures: if g.len() == 0 {
                    None
                } else {
                    Some(group_texts(g))
                },
            },
        )
    } else {
        None
    }
}

/// The match that a regular-expression snippet yields on `b`.
pub open spec fn regex_hit(s: Snippet, b: Seq<char>) -> Option<MatchSpec> {
    let src = tail_source(s.trigger@);
    if !regex_compiles(src) {
        None
    } else {
        match regex_captures(src, b) {
            None => None,
            Some((w, g)) => regex_hit_from(s, b, w, g),
        }
    }
}

/// The first regular-expression snippet, from index `i` on, that matches `b`.
pub open spec fn regex_phase(rs: Seq<Snippet>, b: Seq<char>, i: int) -> Option<MatchSpec>
    decreases rs.len() - i,
{
    if i < 0 || i >= rs.len() {
        None
    } else {
        match regex_hit(rs[i], b) {
            Some(m) => Some(m),
            None => regex_phase(rs, b, i + 1),
        }
    }
}

/// The literal match: the longest stored trigger that the buffer ends with,
/// where it starts a word or its snippet does not ask for that.
pub open spec fn literal_phase(lits: Map<Seq<char>, Snippet>, b: Seq<char>) -> Option<MatchSpec> {
    match longest_suffix(lits, b) {
        Some(d) => {
            let s = lits[tail_key(b, d)];
            if !s.word_boundary || boundary_before(b, b.len() - d) {
                Some(MatchSpec { snippet: s, typed: s.trigger@, delete: d as nat, captures: None })
            } else {
                None
            }
        },
        None => None,
    }
}

/// What `check_match` finds: the literal match if there is one, else the first
/// regular-expression match.
pub open spec fn check_spec(v: MatcherView) -> Option<MatchSpec> {
    match literal_phase(v.literals, v.buffer) {
        Some(m) => Some(m),
        None => regex_phase(v.regexes, v.buffer, 0),
    }
}

/// The buffer after typing `ch`: a buffer over capacity keeps its last half.
pub open spec fn pushed(b: Seq<char>, ch: char) -> Seq<char> {
    let p = b.push(ch);
    if p.len() > MAX_BUFFER_SIZE {
        p.subrange(p.len() - MAX_BUFFER_SIZE / 2, p.len() as int)
    } else {
        p
    }
}

/// The literal snippets of a snippet list, keyed by reversed trigger; a later
/// snippet replaces an earlier one with the same trigger.
pub open spec fn literal_table(snips: Seq<Snippet>) -> Map<Seq<char>, Snippet>
    decreases snips.len(),
{
    if snips.len() == 0 {
        Map::empty()
    } else {
        let prev = literal_table(snips.drop_last());
        let s = snips.last();
        if s.enabled && !s.regex {
            prev.insert(reversed(s.trigger@), s)
        } else {
            prev
        }
    }
}

/// The enabled regular-expression snippets of a snippet list, in order.
pub open spec fn regex_list(snips: Seq<Snippet>) -> Seq<Snippet>
    decreases snips.len(),
{
    if snips.len() == 0 {
        Seq::empty()
    } else {
        let prev = regex_list(snips.drop_last());
        let s = snips.last();
        if s.enabled && s.regex {
            prev.push(s)
        } else {
            prev
        }
    }
}

/// The buffer of recently typed characters, and the snippets it is matched against.
pub struct Matcher {
    buffer: Vec<char>,
    max_buffer_size: usize,
    trie: Trie,
    regex_snippets: Vec<Snippet>,
    /// The compiled regex of each regex snippet, once compiled.
    regex_cache: Vec<Option<regex::Regex>>,
    at_word_boundary: bool,
}

impl View for Matcher {
    type V = MatcherView;

    closed spec fn view(&self) -> MatcherView {
        MatcherView {
            buffer: self.buffer@,
            literals: self.trie@,
            regexes: self.regex_snippets@,
            at_word_boundary: self.at_word_boundary,
        }
    }
}

/// The text of each group of a match, in group order.
fn group_strings(g: &Vec<Option<String>>) -> (r: Vec<String>)
    ensures
        strings_view(r@) == group_texts(opt_strings_view(g@)),
{
    let mut out: Vec<String> = Vec::new();
    let mut i: usize = 0;
    while i < g.len()
        invariant
            i <= g.len(),
            out@.len() == i,
            strings_view(out@) == group_texts(opt_strings_view(g@)).subrange(0, i as int),
        decreases g.len() - i,
    {
        let ghost before = out@;
        let ghost gt = group_texts(opt_strings_view(g@));
        match &g[i] {
            Some(s) => {
                out.push(s.clone());
                assert(opt_strings_view(g@)[i as int] == Some(s@));
                assert(out@[i as int]@ == gt[i as int]);
            },
            None => {
                out.push(String::new());
                assert(opt_strings_view(g@)[i as int] is None);
                assert(out@[i as int]@ == gt[i as int]);
            },
        }
        assert forall|k: int| 0 <= k < i implies out@[k] == before[k] by {}
        assert forall|k: int| 0 <= k < i implies #[trigger] strings_view(out@)[k] == strings_view(before)[k] by {}
        assert(strings_view(out@) =~= group_texts(opt_strings_view(g@)).subrange(0, i + 1));
        i += 1;
    }
    assert(group_texts(opt_strings_view(g@)).subrange(0, g.len() as int) =~= group_texts(
        opt_strings_view(g@),
    ));
    out
}

fn ends_with_chars(b: &Vec<char>, w: &Vec<char>) -> (r: bool)
    ensures
        r == ends_with(b@, w@),
{
    if w.len() > b.len() {
        return false;
    }
    let off = b.len() - w.len();
    let mut i: usize = 0;
    while i < w.len()
        invariant
            off == b.len() - w.len(),
            i <= w.len(),
            forall|k: int| 0 <= k < i ==> b@[off + k] == w@[k],
        decreases w.len() - i,
    {
        if b[off + i] != w[i] {
            assert(b@.subrange(off as int, b.len() as int)[i as int] != w@[i as int]);
            return false;
        }
        i += 1;
    }
    assert(b@.subrange(off as int, b.len() as int) =~= w@);
    true
}

/// The match that a regular-expression snippet yields on the buffer `b`, given
/// the whole match `whole` and the groups `groups` that its pattern found there.
pub fn regex_match_result(
    snippet: &Snippet,
    b: &Vec<char>,
    whole: &String,
    groups: &Vec<Option<String>>,
) -> (r: Option<MatchResult>)
    ensures
        match r {
            Some(m) => regex_hit_from(*snippet, b@, whole@, opt_strings_view(groups@)) matches Some(
                s,
            ) && m.agrees(s),
            None => regex_hit_from(*snippet, b@, whole@, opt_strings_view(groups@)) is None,
        },
{
    let w = crate::text::chars_of(whole.as_str());
    if !ends_with_chars(b, &w) {
        return None;
    }
    let start = b.len() - w.len();
    if snippet.word_boundary && start > 0 && !is_separator_char(b[start - 1]) {
        return None;
    }
    let caps = group_strings(groups);
    let captures = if groups.len() == 0 {
        None
    } else {
        Some(caps)
    };
    Some(
        MatchResult {
            snippet: snippet.duplicate(),
            typed_trigger: whole.clone(),
            chars_to_delete: w.len(),
            captures,
        },
    )
}

impl Matcher {
    pub closed spec fn wf(&self) -> bool {
        &&& self.trie.wf()
        &&& self.max_buffer_size == MAX_BUFFER_SIZE
        &&& self.buffer@.len() <= MAX_BUFFER_SIZE
        &&& self.regex_cache@.len() == self.regex_snippets@.len()
        &&& forall|i: int|
            0 <= i < self.regex_cache@.len() ==> (#[trigger] self.regex_cache@[i] matches Some(re)
                ==> regex_source(re) == tail_source(self.regex_snippets@[i].trigger@)
                && regex_compiles(tail_source(self.regex_snippets@[i].trigger@)))
    }

    /// A matcher with an empty buffer and no snippets.
    pub fn new() -> (r: Matcher)
        ensures
            r.wf(),
            r@.buffer.len() == 0,
            r@.literals == Map::<Seq<char>, Snippet>::empty(),
            r@.regexes.len() == 0,
            r@.at_word_boundary,
    {
        Matcher {
            buffer: Vec::new(),
            max_buffer_size: MAX_BUFFER_SIZE,
            trie: Trie::new(),
            regex_snippets: Vec::new(),
            regex_cache: Vec::new(),
            at_word_boundary: true,
        }
    }

    /// Appends a typed character; a buffer over capacity keeps its last half.
    pub fn push_char(&mut self, ch: char)
        requires
            old(self).wf(),
        ensures
            final(self).wf(),
            final(self)@ == (MatcherView {
                buffer: pushed(old(self)@.buffer, ch),
                at_word_boundary: is_separator(ch),
                ..old(self)@
            }),
    {
        self.buffer.push(ch);
        self.at_word_boundary = is_separator_char(ch);
        if self.buffer.len() > self.max_buffer_size {
            let drain_to = self.buffer.len() - self.max_buffer_size / 2;
            let tail = self.buffer.split_off(drain_to);
            self.buffer = tail;
        }
    }

    /// Removes the last typed character, if any.
    pub fn handle_backspace(&mut self)
        requires
            old(self).wf(),
        ensures
            final(self).wf(),
            final(self)@ == (MatcherView {
                buffer: if old(self)@.buffer.len() == 0 {
                    old(self)@.buffer
                } else {
                    old(self)@.buffer.drop_last()
                },
                ..old(self)@
            }),
    {
        let _ = self.buffer.pop();
        proof {
            if old(self)@.buffer.len() > 0 {
                assert(self.buffer@ =~= old(self)@.buffer.drop_last());
            }
        }
    }

    /// Empties the buffer; what comes next starts a word.
    pub fn clear(&mut self)
        requires
            old(self).wf(),
        ensures
            final(self).wf(),
            final(self)@ == (MatcherView {
                buffer: Seq::empty(),
                at_word_boundary: true,
                ..old(self)@
            }),
    {
        self.buffer.clear();
        self.at_word_boundary = true;
    }

    /// Removes the last `n` characters of the buffer, or all of them where it holds fewer.
    pub fn remove_last(&mut self, n: usize)
        requires
            old(self).wf(),
        ensures
            final(self).wf(),
            final(self)@ == (MatcherView {
                buffer: old(self)@.buffer.subrange(
                    0,
                    if n <= old(self)@.buffer.len() {
                        old(self)@.buffer.len() - n
                    } else {
                        0
                    },
                ),
                ..old(self)@
            }),
    {
        let new_len = if n <= self.buffer.len() {
            self.buffer.len() - n
        } else {
            0
        };
        self.buffer.truncate(new_len);
        assert(self.buffer@ =~= old(self)@.buffer.subrange(0, new_len as int));
    }

    /// Replaces the snippet set: the enabled literal snippets go into a fresh
    /// trie, the enabled regular-expression snippets into the regex list.
    pub fn reload(&mut self, snippets: Vec<Snippet>)
        requires
            old(self).wf(),
        ensures
            final(self).wf(),
            final(self)@ == (MatcherView {
                literals: literal_table(snippets@),
                regexes: regex_list(snippets@),
                ..old(self)@
            }),
    {
        let ghost all = snippets@;
        self.trie = Trie::new();
        self.regex_snippets.clear();
        self.regex_cache.clear();
        let n = snippets.len();
        let mut i: usize = 0;
        let mut rest = snippets;
        while i < n
            invariant
                self.wf(),
                self.buffer@ == old(self)@.buffer,
                self.at_word_boundary == old(self)@.at_word_boundary,
                n == all.len(),
                i <= n,
                rest@ == all.subrange(i as int, n as int),
                self.trie@ == literal_table(all.subrange(0, i as int)),
                self.regex_snippets@ == regex_list(all.subrange(0, i as int)),
            decreases n - i,
        {
            let s = rest.remove(0);
            assert(rest@ =~= all.subrange(i + 1, n as int));
            assert(all.subrange(0, i + 1).drop_last() =~= all.subrange(0, i as int));
            if s.enabled {
                if s.regex {
                    let ghost cache_before = self.regex_cache@;
                    let ghost snips_before = self.regex_snippets@;
                    self.regex_snippets.push(s);
                    self.regex_cache.push(None);
                    assert forall|k: int|
                        0 <= k < self.regex_cache@.len() implies (#[trigger] self.regex_cache@[k] matches Some(re)
                            ==> regex_source(re) == tail_source(self.regex_snippets@[k].trigger@)
                            && regex_compiles(tail_source(self.regex_snippets@[k].trigger@))) by {
                        if k < self.regex_cache@.len() - 1 {
                            assert(self.regex_cache@[k] == cache_before[k]);
                            assert(self.regex_snippets@[k] == snips_before[k]);
                        }
                    }
                } else {
                    self.trie.insert(s);
                }
            }
            i += 1;
        }
        assert(all.subrange(0, all.len() as int) =~= all);
    }

    /// Compiles the regex of the `i`-th regex snippet where it is not compiled yet.
    fn ensure_compiled(&mut self, i: usize) -> (compiled: bool)
        requires
            old(self).wf(),
            i < old(self).regex_snippets.len(),
        ensures
            final(self).wf(),
            final(self)@ == old(self)@,
            compiled == (final(self).regex_cache@[i as int] is Some),
            compiled == regex_compiles(tail_source(final(self).regex_snippets@[i as int].trigger@)),
    {
        let ghost src = tail_source(self.regex_snippets@[i as int].trigger@);
        match &self.regex_cache[i] {
            Some(re) => {
                assert(self.regex_cache@[i as int] is Some);
                return true;
            },
            None => {},
        }
        let source = tail_source_string(&self.regex_snippets[i].trigger);
        let compiled = compile_regex(source.as_str());
        let ok = compiled.is_some();
        let ghost before = self.regex_cache@;
        self.regex_cache.set(i, compiled);
        assert forall|k: int|
            0 <= k < self.regex_cache@.len() implies (#[trigger] self.regex_cache@[k] matches Some(re)
                ==> regex_source(re) == tail_source(self.regex_snippets@[k].trigger@)
                && regex_compiles(tail_source(self.regex_snippets@[k].trigger@))) by {
            if k != i {
                assert(self.regex_cache@[k] == before[k]);
            }
        }
        ok
    }

    fn check_regex(&mut self, i: usize, text: &String) -> (r: Option<MatchResult>)
        requires
            old(self).wf(),
            i < old(self).regex_snippets.len(),
            text@ == old(self).buffer@,
        ensures
            final(self).wf(),
            final(self)@ == old(self)@,
            match r {
                Some(m) => regex_hit(old(self).regex_snippets@[i as int], old(self).buffer@) matches Some(s)
                    && m.agrees(s),
                None => regex_hit(old(self).regex_snippets@[i as int], old(self).buffer@) is None,
            },
    {
        if !self.ensure_compiled(i) {
            return None;
        }
        let snippet = &self.regex_snippets[i];
        match &self.regex_cache[i] {
            Some(re) => match run_regex(re, text.as_str()) {
                Some((whole, groups)) => regex_match_result(snippet, &self.buffer, &whole, &groups),
                None => None,
            },
            None => None,
        }
    }

    /// The match at the end of the buffer, if any: the longest literal trigger
    /// first, then the regular-expression snippets in declared order.
    pub fn check_match(&mut self) -> (r: Option<MatchResult>)
        requires
            old(self).wf(),
        ensures
            final(self).wf(),
            final(self)@ == old(self)@,
            match r {
                Some(m) => check_spec(old(self)@) matches Some(s) && m.agrees(s),
                None => check_spec(old(self)@) is None,
            },
    {
        match self.trie.find_match_chars(&self.buffer) {
            Some((snippet, len)) => {
                let n = self.buffer.len();
                let valid = if snippet.word_boundary && n > len {
                    is_separator_char(self.buffer[n - len - 1])
                } else {
                    true
                };
                if valid {
                    return Some(
                        MatchResult {
                            snippet: snippet.duplicate(),
                            typed_trigger: snippet.trigger.clone(),
                            chars_to_delete: len,
                            captures: None,
                        },
                    );
                }
            },
            None => {},
        }
        let text = string_of(&self.buffer);
        let mut i: usize = 0;
        while i < self.regex_snippets.len()
            invariant
                self.wf(),
                self@ == old(self)@,
                text@ == self.buffer@,
                literal_phase(self@.literals, self@.buffer) is None,
                i <= self.regex_snippets.len(),
                regex_phase(self@.regexes, self@.buffer, 0) == regex_phase(
                    self@.regexes,
                    self@.buffer,
                    i as int,
                ),
            decreases self.regex_snippets.len() - i,
        {
            let r = self.check_regex(i, &text);
            if r.is_some() {
                return r;
            }
            i += 1;
        }
        None
    }

    /// The current buffer.
    pub fn buffer(&self) -> (r: String)
        ensures
            r@ == self@.buffer,
    {
        string_of(&self.buffer)
    }
}

/// The buffer never holds more than `MAX_BUFFER_SIZE` characters: every
/// operation keeps the matcher well formed, and a well-formed matcher's buffer
/// is within the bound.
pub proof fn law_buffer_bounded(m: &Matcher)
    requires
        m.wf(),
    ensures
        m@.buffer.len() <= MAX_BUFFER_SIZE,
{
}

/// Typing a character keeps the buffer within the bound.
pub proof fn law_pushed_bounded(b: Seq<char>, ch: char)
    requires
        b.len() <= MAX_BUFFER_SIZE,
    ensures
        pushed(b, ch).len() <= MAX_BUFFER_SIZE,
{
}

impl Default for Matcher {
    fn default() -> (r: Matcher)
        ensures
            r.wf(),
            r@.buffer.len() == 0,
            r@.literals == Map::<Seq<char>, Snippet>::empty(),
            r@.regexes.len() == 0,
            r@.at_word_boundary,
    {
        Matcher::new()
    }
}

} // verus!
