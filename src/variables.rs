//! Variable expansion: `{{…}}` tokens filled from the user's variables, or
//! turned into requests for built-in and host sources; the cursor marker.

use vstd::prelude::*;

use crate::matcher::strings_view;
use crate::text::{
    append_chars, chars_of, same_chars, slice_chars, split_chars, split_on, starts_with,
    starts_with_chars, string_of, trim_chars, trimmed,
};

verus! {

/// A node of the user's variables: a scalar, a mapping or a list.
#[derive(Debug)]
pub enum VarNode {
    Null,
    Bool(bool),
    /// A number, in the text that the configuration gives it.
    Number(String),
    Str(String),
    Mapping(Vec<(String, VarNode)>),
    List(Vec<VarNode>),
}

/// The index of the first entry from `i` on whose key is `k`.
pub open spec fn entry_index(es: Seq<(String, VarNode)>, k: Seq<char>, i: int) -> Option<int>
    decreases es.len() - i,
{
    if i < 0 || i >= es.len() {
        None
    } else if es[i].0@ == k {
        Some(i)
    } else {
        entry_index(es, k, i + 1)
    }
}

proof fn lemma_entry_index(es: Seq<(String, VarNode)>, k: Seq<char>, i: int)
    requires
        0 <= i,
    ensures
        entry_index(es, k, i) matches Some(j) ==> i <= j < es.len() && es[j].0@ == k,
    decreases es.len() - i,
{
    if i < es.len() && es[i].0@ != k {
        lemma_entry_index(es, k, i + 1);
    }
}

/// The node that a path of keys leads to, through mappings only.
pub open spec fn lookup(node: VarNode, path: Seq<Seq<char>>) -> Option<VarNode>
    decreases path.len(),
{
    if path.len() == 0 {
        Some(node)
    } else {
        match node {
            VarNode::Mapping(es) => match entry_index(es@, path[0], 0) {
                Some(i) => lookup(es@[i].1, path.drop_first()),
                None => None,
            },
            _ => None,
        }
    }
}

/// The text of a scalar node; mappings and lists have none.
pub open spec fn scalar_text(node: VarNode) -> Option<Seq<char>> {
    match node {
        VarNode::Null => Some(Seq::empty()),
        VarNode::Bool(b) => Some(
            if b {
                "true"@
            } else {
                "false"@
            },
        ),
        VarNode::Number(n) => Some(n@),
        VarNode::Str(s) => Some(s@),
        _ => None,
    }
}

/// The value of a custom variable named by a dot-separated path.
pub open spec fn custom_value(name: Seq<char>, vars: VarNode) -> Option<Seq<char>> {
    match lookup(vars, split_on(name, '.')) {
        Some(n) => scalar_text(n),
        None => None,
    }
}

fn find_entry(es: &Vec<(String, VarNode)>, k: &Vec<char>) -> (r: Option<usize>)
    ensures
        match r {
            Some(i) => entry_index(es@, k@, 0) == Some(i as int),
            None => entry_index(es@, k@, 0) is None,
        },
{
    let mut i: usize = 0;
    while i < es.len()
        invariant
            i <= es.len(),
            entry_index(es@, k@, 0) == entry_index(es@, k@, i as int),
        decreases es.len() - i,
    {
        let key = chars_of(es[i].0.as_str());
        if same_chars(&key, k) {
            return Some(i);
        }
        i += 1;
    }
    None
}

fn scalar_string(node: &VarNode) -> (r: Option<String>)
    ensures
        match r {
            Some(s) => scalar_text(*node) == Some(s@),
            None => scalar_text(*node) is None,
        },
{
    match node {
        VarNode::Null => Some(String::new()),
        VarNode::Bool(b) => {
            if *b {
                Some("true".to_owned())
            } else {
                Some("false".to_owned())
            }
        },
        VarNode::Number(n) => Some(n.clone()),
        VarNode::Str(s) => Some(s.clone()),
        _ => None,
    }
}

/// The value of the custom variable `name`, a dot-separated path into `vars`.
pub fn expand_custom_variable(name: &Vec<char>, vars: &VarNode) -> (r: Option<String>)
    ensures
        match r {
            Some(s) => custom_value(name@, *vars) == Some(s@),
            None => custom_value(name@, *vars) is None,
        },
{
    let parts = split_chars(name, '.');
    let ghost path = split_on(name@, '.');
    let mut current: &VarNode = vars;
    let mut i: usize = 0;
    assert(path.subrange(0, path.len() as int) =~= path);
    while i < parts.len()
        invariant
            i <= parts.len() == path.len(),
            path == split_on(name@, '.'),
            forall|k: int| 0 <= k < parts@.len() ==> #[trigger] parts@[k]@ == path[k],
            lookup(*vars, path) == lookup(*current, path.subrange(i as int, path.len() as int)),
        decreases parts.len() - i,
    {
        let ghost rest = path.subrange(i as int, path.len() as int);
        assert(rest[0] == parts@[i as int]@);
        assert(rest.drop_first() =~= path.subrange(i + 1, path.len() as int));
        match current {
            VarNode::Mapping(es) => match find_entry(es, &parts[i]) {
                Some(j) => {
                    proof {
                        lemma_entry_index(es@, parts@[i as int]@, 0);
                    }
                    current = &es[j].1;
                },
                None => {
                    assert(lookup(*current, rest) is None);
                    return None;
                },
            },
            _ => {
                assert(lookup(*current, rest) is None);
                return None;
            },
        }
        i += 1;
    }
    assert(path.subrange(i as int, path.len() as int).len() == 0);
    scalar_string(current)
}


/// What a token asks for that the variables cannot give.
#[derive(Debug, Clone, PartialEq, Eq)]
pub enum HostRequest {
    /// The local time, in the given `strftime` format.
    Clock(String),
    /// The text on the system clipboard.
    Clipboard,
    /// A random number with the given count of digits (as written).
    Random(String),
    /// A variable of the process environment.
    Env(String),
    /// The output of a shell command.
    Shell(String),
    /// A fresh version-4 UUID.
    Uuid,
}

/// A request, in terms of values.
pub enum RequestSpec {
    Clock(Seq<char>),
    Clipboard,
    Random(Seq<char>),
    Env(Seq<char>),
    Shell(Seq<char>),
    Uuid,
}

impl View for HostRequest {
    type V = RequestSpec;

    open spec fn view(&self) -> RequestSpec {
        match self {
            HostRequest::Clock(f) => RequestSpec::Clock(f@),
            HostRequest::Clipboard => RequestSpec::Clipboard,
            HostRequest::Random(n) => RequestSpec::Random(n@),
            HostRequest::Env(n) => RequestSpec::Env(n@),
            HostRequest::Shell(c) => RequestSpec::Shell(c@),
            HostRequest::Uuid => RequestSpec::Uuid,
        }
    }
}

/// What a token stands for: text, or a request.
pub enum TokenValue {
    Text(Seq<char>),
    Ask(RequestSpec),
}

/// The cursor marker.
pub open spec fn marker() -> Seq<char> {
    seq!['$', '|', '$']
}

/// The rest of `s` after the prefix `p`, trimmed.
pub open spec fn rest_after(s: Seq<char>, p: Seq<char>) -> Seq<char> {
    trimmed(s.subrange(p.len() as int, s.len() as int))
}

/// What the token `{{inner}}` stands for: a custom variable first, then the
/// built-in names; an unknown token stays as written.
pub open spec fn token_value(inner: Seq<char>, vars: VarNode) -> TokenValue {
    let v = trimmed(inner);
    if custom_value(v, vars) is Some {
        TokenValue::Text(custom_value(v, vars)->0)
    } else if v == "date"@ {
        TokenValue::Ask(RequestSpec::Clock("%Y-%m-%d"@))
    } else if starts_with(v, "date:"@) {
        TokenValue::Ask(RequestSpec::Clock(rest_after(v, "date:"@)))
    } else if v == "time"@ {
        TokenValue::Ask(RequestSpec::Clock("%H:%M:%S"@))
    } else if starts_with(v, "time:"@) {
        TokenValue::Ask(RequestSpec::Clock(rest_after(v, "time:"@)))
    } else if v == "datetime"@ {
        TokenValue::Ask(RequestSpec::Clock("%Y-%m-%d %H:%M:%S"@))
    } else if starts_with(v, "datetime:"@) {
        TokenValue::Ask(RequestSpec::Clock(rest_after(v, "datetime:"@)))
    } else if v == "clipboard"@ {
        TokenValue::Ask(RequestSpec::Clipboard)
    } else if starts_with(v, "random:"@) {
        TokenValue::Ask(RequestSpec::Random(rest_after(v, "random:"@)))
    } else if starts_with(v, "env:"@) {
        TokenValue::Ask(RequestSpec::Env(rest_after(v, "env:"@)))
    } else if starts_with(v, "shell:"@) {
        TokenValue::Ask(RequestSpec::Shell(rest_after(v, "shell:"@)))
    } else if v == "uuid"@ {
        TokenValue::Ask(RequestSpec::Uuid)
    } else if v == "cursor"@ || v == "|"@ {
        TokenValue::Text(marker())
    } else {
        TokenValue::Text("{{"@ + inner + "}}"@)
    }
}

/// A token's value, as the expander computes it.
pub enum Token {
    Text(Vec<char>),
    Ask(HostRequest),
}

impl View for Token {
    type V = TokenValue;

    open spec fn view(&self) -> TokenValue {
        match self {
            Token::Text(t) => TokenValue::Text(t@),
            Token::Ask(q) => TokenValue::Ask(q@),
        }
    }
}

fn is_word(v: &Vec<char>, w: &str) -> (r: bool)
    ensures
        r == (v@ == w@),
{
    let wc = chars_of(w);
    same_chars(v, &wc)
}

fn has_prefix(v: &Vec<char>, p: &str) -> (r: Option<Vec<char>>)
    ensures
        match r {
            Some(rest) => starts_with(v@, p@) && rest@ == rest_after(v@, p@),
            None => !starts_with(v@, p@),
        },
{
    let pc = chars_of(p);
    if starts_with_chars(v, &pc) {
        let rest = slice_chars(v, pc.len(), v.len());
        Some(trim_chars(&rest))
    } else {
        None
    }
}

/// What the token `{{inner}}` stands for.
pub fn resolve_token(inner: &Vec<char>, vars: &VarNode) -> (r: Token)
    ensures
        r@ == token_value(inner@, *vars),
{
    let v = trim_chars(inner);
    match expand_custom_variable(&v, vars) {
        Some(s) => {
            return Token::Text(chars_of(s.as_str()));
        },
        None => {},
    }
    if is_word(&v, "date") {
        return Token::Ask(HostRequest::Clock("%Y-%m-%d".to_owned()));
    }
    if let Some(f) = has_prefix(&v, "date:") {
        return Token::Ask(HostRequest::Clock(string_of(&f)));
    }
    if is_word(&v, "time") {
        return Token::Ask(HostRequest::Clock("%H:%M:%S".to_owned()));
    }
    if let Some(f) = has_prefix(&v, "time:") {
        return Token::Ask(HostRequest::Clock(string_of(&f)));
    }
    if is_word(&v, "datetime") {
        return Token::Ask(HostRequest::Clock("%Y-%m-%d %H:%M:%S".to_owned()));
    }
    if let Some(f) = has_prefix(&v, "datetime:") {
        return Token::Ask(HostRequest::Clock(string_of(&f)));
    }
    if is_word(&v, "clipboard") {
        return Token::Ask(HostRequest::Clipboard);
    }
    if let Some(n) = has_prefix(&v, "random:") {
        return Token::Ask(HostRequest::Random(string_of(&n)));
    }
    if let Some(n) = has_prefix(&v, "env:") {
        return Token::Ask(HostRequest::Env(string_of(&n)));
    }
    if let Some(c) = has_prefix(&v, "shell:") {
        return Token::Ask(HostRequest::Shell(string_of(&c)));
    }
    if is_word(&v, "uuid") {
        return Token::Ask(HostRequest::Uuid);
    }
    if is_word(&v, "cursor") || is_word(&v, "|") {
        let m = vec!['$', '|', '$'];
        assert(m@ =~= marker());
        return Token::Text(m);
    }
    let mut out = chars_of("{{");
    append_chars(&mut out, inner);
    let close = chars_of("}}");
    append_chars(&mut out, &close);
    Token::Text(out)
}

/// The first `}` at or after `k`, or the length.
pub open spec fn close_from(t: Seq<char>, k: int) -> int
    decreases t.len() - k,
{
    if k < 0 || k >= t.len() {
        t.len() as int
    } else if t[k] == '}' {
        k
    } else {
        close_from(t, k + 1)
    }
}

/// Where the token that starts at `i` ends: `{{`, one or more characters
/// other than `}`, then `}}`.
pub open spec fn token_end(t: Seq<char>, i: int) -> Option<int> {
    if 0 <= i && i + 1 < t.len() && t[i] == '{' && t[i + 1] == '{' {
        let j = close_from(t, i + 2);
        if j > i + 2 && j < t.len() && t.len() - j > 1 && t[j + 1] == '}' {
            Some(j + 2)
        } else {
            None
        }
    } else {
        None
    }
}

/// The outcome of an expansion: the text, or the first request left unanswered.
pub enum Expansion {
    Done(Seq<char>),
    Pending(RequestSpec),
}

pub open spec fn prepend(a: Seq<char>, o: Expansion) -> Expansion {
    match o {
        Expansion::Done(s) => Expansion::Done(a + s),
        Expansion::Pending(q) => Expansion::Pending(q),
    }
}

/// The expansion of `t` from index `i` on, where `ans` answers the requests in order.
pub open spec fn expand_from(t: Seq<char>, i: int, vars: VarNode, ans: Seq<Seq<char>>) -> Expansion
    decreases t.len() - i,
{
    if i < 0 || i >= t.len() {
        Expansion::Done(Seq::empty())
    } else {
        match token_end(t, i) {
            Some(e) => {
                if e <= i || e > t.len() {
                    Expansion::Done(Seq::empty())
                } else {
                    match token_value(t.subrange(i + 2, e - 2), vars) {
                        TokenValue::Text(v) => prepend(v, expand_from(t, e, vars, ans)),
                        TokenValue::Ask(q) => if ans.len() == 0 {
                            Expansion::Pending(q)
                        } else {
                            prepend(ans[0], expand_from(t, e, vars, ans.drop_first()))
                        },
                    }
                }
            },
            None => prepend(seq![t[i]], expand_from(t, i + 1, vars, ans)),
        }
    }
}

/// The expansion of all of `t`.
pub open spec fn expand_spec(t: Seq<char>, vars: VarNode, ans: Seq<Seq<char>>) -> Expansion {
    expand_from(t, 0, vars, ans)
}

proof fn lemma_prepend_prepend(a: Seq<char>, b: Seq<char>, o: Expansion)
    ensures
        prepend(a, prepend(b, o)) == prepend(a + b, o),
{
    match o {
        Expansion::Done(s) => {
            assert(a + (b + s) =~= (a + b) + s);
        },
        Expansion::Pending(_) => {},
    }
}

fn find_token_end(t: &Vec<char>, i: usize) -> (r: Option<usize>)
    requires
        i < t.len(),
    ensures
        match r {
            Some(e) => token_end(t@, i as int) == Some(e as int) && i + 4 <= e <= t.len(),
            None => token_end(t@, i as int) is None,
        },
{
    if i + 1 < t.len() && t[i] == '{' && t[i + 1] == '{' {
        let mut j: usize = i + 2;
        while j < t.len() && t[j] != '}'
            invariant
                i + 2 <= j <= t.len(),
                close_from(t@, i + 2) == close_from(t@, j as int),
            decreases t.len() - j,
        {
            j += 1;
        }
        if j > i + 2 && j < t.len() && t.len() - j > 1 && t[j + 1] == '}' {
            Some(j + 2)
        } else {
            None
        }
    } else {
        None
    }
}

/// Fills the `{{…}}` tokens of `text`: custom variables from `custom_vars`,
/// the cursor marker, unknown tokens as written, and every other token from
/// `answers`, taken in order. Where the answers run out, the result is the
/// request of the first token left without one.
pub fn expand_variables(text: &str, custom_vars: &VarNode, answers: &Vec<String>) -> (r: Result<
    String,
    HostRequest,
>)
    ensures
        match r {
            Ok(s) => expand_spec(text@, *custom_vars, strings_view(answers@)) == Expansion::Done(
                s@,
            ),
            Err(q) => expand_spec(text@, *custom_vars, strings_view(answers@)) == Expansion::Pending(
                q@,
            ),
        },
{
    let t = chars_of(text);
    let ghost ans = strings_view(answers@);
    let ghost full = expand_spec(t@, *custom_vars, ans);
    let mut out: Vec<char> = Vec::new();
    let mut i: usize = 0;
    let mut k: usize = 0;
    assert(ans.subrange(0, ans.len() as int) =~= ans);
    assert(out@ + Seq::<char>::empty() =~= out@);
    proof {
        match full {
            Expansion::Done(s) => {
                assert(Seq::<char>::empty() + s =~= s);
            },
            _ => {},
        }
    }
    while i < t.len()
        invariant
            i <= t.len(),
            k <= answers.len(),
            ans == strings_view(answers@),
            full == expand_spec(t@, *custom_vars, ans),
            t@ == text@,
            prepend(out@, expand_from(t@, i as int, *custom_vars, ans.subrange(k as int, ans.len() as int)))
                == full,
        decreases t.len() - i,
    {
        let ghost rest = ans.subrange(k as int, ans.len() as int);
        match find_token_end(&t, i) {
            Some(e) => {
                let inner = slice_chars(&t, i + 2, e - 2);
                match resolve_token(&inner, custom_vars) {
                    Token::Text(v) => {
                        proof {
                            lemma_prepend_prepend(out@, v@, expand_from(t@, e as int, *custom_vars, rest));
                        }
                        append_chars(&mut out, &v);
                    },
                    Token::Ask(q) => {
                        if k >= answers.len() {
                            assert(rest.len() == 0);
                            assert(expand_from(t@, i as int, *custom_vars, rest) == Expansion::Pending(q@));
                            return Err(q);
                        }
                        let a = chars_of(answers[k].as_str());
                        assert(rest[0] == ans[k as int]);
                        assert(rest.drop_first() =~= ans.subrange(k + 1, ans.len() as int));
                        proof {
                            lemma_prepend_prepend(
                                out@,
                                a@,
                                expand_from(t@, e as int, *custom_vars, rest.drop_first()),
                            );
                        }
                        append_chars(&mut out, &a);
                        k += 1;
                    },
                }
                i = e;
            },
            None => {
                proof {
                    lemma_prepend_prepend(
                        out@,
                        seq![t@[i as int]],
                        expand_from(t@, i + 1, *custom_vars, rest),
                    );
                }
                let ghost before = out@;
                out.push(t[i]);
                assert(out@ =~= before + seq![t@[i as int]]);
                i += 1;
            },
        }
    }
    proof {
        assert(out@ + Seq::<char>::empty() =~= out@);
    }
    Ok(string_of(&out))
}


/// The first index from `i` on where the cursor marker starts.
pub open spec fn marker_from(t: Seq<char>, i: int) -> Option<int>
    decreases t.len() - i,
{
    if i < 0 || i + 3 > t.len() {
        None
    } else if t.subrange(i, i + 3) == marker() {
        Some(i)
    } else {
        marker_from(t, i + 1)
    }
}

/// `t` without its first cursor marker, and where that marker stood.
pub open spec fn cursor_split(t: Seq<char>) -> (Seq<char>, Option<int>) {
    match marker_from(t, 0) {
        Some(p) => (t.subrange(0, p) + t.subrange(p + 3, t.len() as int), Some(p)),
        None => (t, None),
    }
}

pub proof fn lemma_marker_from(t: Seq<char>, i: int)
    requires
        0 <= i,
    ensures
        marker_from(t, i) matches Some(p) ==> i <= p && p + 3 <= t.len() && t.subrange(p, p + 3)
            == marker(),
    decreases t.len() - i,
{
    if i + 3 <= t.len() && t.subrange(i, i + 3) != marker() {
        lemma_marker_from(t, i + 1);
    }
}

/// Removes the first cursor marker `$|$` from `text`, and gives the index
/// (in characters) where it stood.
pub fn find_cursor_position(text: &str) -> (r: (String, Option<usize>))
    ensures
        r.0@ == cursor_split(text@).0,
        match cursor_split(text@).1 {
            Some(p) => r.1 == Some(p as usize),
            None => r.1 is None,
        },
{
    let t = chars_of(text);
    let mut i: usize = 0;
    while i < t.len() && t.len() - i >= 3
        invariant
            t@ == text@,
            marker_from(t@, 0) == marker_from(t@, i as int),
        decreases t.len() - i,
    {
        if t[i] == '$' && t[i + 1] == '|' && t[i + 2] == '$' {
            assert(t@.subrange(i as int, i + 3) =~= marker());
            let mut out = slice_chars(&t, 0, i);
            let tail = slice_chars(&t, i + 3, t.len());
            append_chars(&mut out, &tail);
            return (string_of(&out), Some(i));
        }
        assert(t@.subrange(i as int, i + 3) != marker()) by {
            if t@.subrange(i as int, i + 3) == marker() {
                assert(t@.subrange(i as int, i + 3)[0] == '$');
                assert(t@.subrange(i as int, i + 3)[1] == '|');
                assert(t@.subrange(i as int, i + 3)[2] == '$');
            }
        }
        i += 1;
    }
    (string_of(&t), None)
}

} // verus!
