//! Turning a match into the text to type: capture groups, variables, case
//! propagation and the cursor marker.

use vstd::prelude::*;

use crate::config::Snippet;
use crate::matcher::{strings_view, MatchResult};
use crate::text::{append_chars, chars_of, digit_value, digits_value, is_digit, slice_chars, string_of};
use crate::casing::{propagate_case, propagate_case_spec};
use crate::variables::{
    cursor_split, expand_spec, expand_variables, find_cursor_position, lemma_marker_from,
    Expansion, HostRequest, VarNode,
};

verus! {

/// What to type for a match.
#[derive(Debug, Clone)]
pub struct ExpansionResult {
    /// The text to type.
    pub text: String,
    /// How many characters to delete first.
    pub delete_count: usize,
    /// How many characters to move the cursor back from the end, if anywhere.
    pub cursor_offset: Option<usize>,
}

/// An expansion, in terms of values.
pub struct ExpansionSpec {
    pub text: Seq<char>,
    pub delete_count: nat,
    pub cursor_offset: Option<nat>,
}

impl ExpansionResult {
    pub open spec fn agrees(&self, e: ExpansionSpec) -> bool {
        &&& self.text@ == e.text
        &&& self.delete_count == e.delete_count
        &&& match self.cursor_offset {
            Some(k) => e.cursor_offset == Some(k as nat),
            None => e.cursor_offset is None,
        }
    }
}

/// The end of the run of decimal digits that starts at `j`.
pub open spec fn digits_end(t: Seq<char>, j: int) -> int
    decreases t.len() - j,
{
    if j < 0 || j >= t.len() || !is_digit(t[j]) {
        j
    } else {
        digits_end(t, j + 1)
    }
}

proof fn lemma_digits_end(t: Seq<char>, j: int)
    requires
        0 <= j <= t.len(),
    ensures
        j <= digits_end(t, j) <= t.len(),
        forall|k: int| j <= k < digits_end(t, j) ==> is_digit(#[trigger] t[k]),
    decreases t.len() - j,
{
    if j < t.len() && is_digit(t[j]) {
        lemma_digits_end(t, j + 1);
    }
}

/// `t` from index `i` on, with each `$k` (`k` the number that the digits after
/// `$` denote) replaced by the `k`-th capture, where there is one; other
/// references stay as written.
pub open spec fn captures_from(t: Seq<char>, caps: Seq<Seq<char>>, i: int) -> Seq<char>
    decreases t.len() - i,
{
    if i < 0 || i >= t.len() {
        Seq::empty()
    } else if t[i] == '$' && i + 1 < t.len() && is_digit(t[i + 1]) {
        let j = digits_end(t, i + 1);
        if j <= i || j > t.len() {
            Seq::empty()
        } else {
            let k = digits_value(t.subrange(i + 1, j));
            (if 1 <= k <= caps.len() {
                caps[k - 1]
            } else {
                t.subrange(i, j)
            }) + captures_from(t, caps, j)
        }
    } else {
        seq![t[i]] + captures_from(t, caps, i + 1)
    }
}

/// Replaces the capture references `$1`, `$2`, … of `text` with the captures.
pub fn replace_captures(text: &str, captures: &Vec<String>) -> (r: String)
    ensures
        r@ == captures_from(text@, strings_view(captures@), 0),
{
    let t = chars_of(text);
    let ghost caps = strings_view(captures@);
    let n = captures.len();
    let mut out: Vec<char> = Vec::new();
    let mut i: usize = 0;
    while i < t.len()
        invariant
            i <= t.len(),
            t@ == text@,
            caps == strings_view(captures@),
            n == captures.len(),
            out@ + captures_from(t@, caps, i as int) == captures_from(t@, caps, 0),
        decreases t.len() - i,
    {
        let ghost before = out@;
        if t[i] == '$' && i + 1 < t.len() && '0' <= t[i + 1] && t[i + 1] <= '9' {
            let mut j: usize = i + 1;
            let mut v: usize = 0;
            let mut big = false;
            proof {
                lemma_digits_end(t@, i + 1);
            }
            assert(t@.subrange(i + 1, i + 1) =~= Seq::<char>::empty());
            while j < t.len() && '0' <= t[j] && t[j] <= '9'
                invariant
                    i + 1 <= j <= t.len(),
                    n == captures.len(),
                    digits_end(t@, i + 1) == digits_end(t@, j as int),
                    big <==> digits_value(t@.subrange(i + 1, j as int)) > n,
                    !big ==> v as nat == digits_value(t@.subrange(i + 1, j as int)),
                decreases t.len() - j,
            {
                let ghost pre = t@.subrange(i + 1, j as int);
                let ghost post = t@.subrange(i + 1, j + 1);
                assert(post.drop_last() =~= pre);
                let d = (t[j] as u32 - '0' as u32) as usize;
                assert(digit_value(post.last()) == d);
                proof {
                    let pv = digits_value(pre);
                    if pv > n {
                        assert(pv * 10 + d > n) by (nonlinear_arith)
                            requires
                                pv > n,
                                d >= 0,
                        ;
                    }
                }
                if !big {
                    if d > n || v > (n - d) / 10 {
                        proof {
                            if d <= n {
                                let q = (n - d) / 10;
                                assert(v * 10 + d > n) by (nonlinear_arith)
                                    requires
                                        v > q,
                                        q == (n - d) / 10,
                                        d <= n,
                                ;
                            }
                        }
                        big = true;
                    } else {
                        let ghost q = (n - d) / 10;
                        assert(v * 10 + d <= n) by (nonlinear_arith)
                            requires
                                v <= q,
                                q == (n - d) / 10,
                                d <= n,
                        ;
                        v = v * 10 + d;
                    }
                }
                j += 1;
            }
            assert(digits_end(t@, i + 1) == j);
            let ghost k = digits_value(t@.subrange(i + 1, j as int));
            let ghost piece = if 1 <= k <= caps.len() {
                caps[k - 1]
            } else {
                t@.subrange(i as int, j as int)
            };
            if !big && v >= 1 && v <= n {
                let c = chars_of(captures[v - 1].as_str());
                append_chars(&mut out, &c);
            } else {
                let c = slice_chars(&t, i, j);
                append_chars(&mut out, &c);
            }
            assert(out@ == before + piece);
            assert(before + captures_from(t@, caps, i as int) == before + (piece + captures_from(
                t@,
                caps,
                j as int,
            )));
            assert(before + (piece + captures_from(t@, caps, j as int)) =~= out@ + captures_from(
                t@,
                caps,
                j as int,
            ));
            i = j;
        } else {
            out.push(t[i]);
            assert(before + (seq![t@[i as int]] + captures_from(t@, caps, i + 1)) =~= out@
                + captures_from(t@, caps, i + 1));
            i += 1;
        }
    }
    assert(out@ + Seq::<char>::empty() =~= out@);
    string_of(&out)
}

/// The template of a match: the snippet's replacement, with its captures filled in.
pub open spec fn template_of(m: MatchResult) -> Seq<char> {
    match m.captures {
        Some(c) => captures_from(m.snippet.replace@, strings_view(c@), 0),
        None => m.snippet.replace@,
    }
}

/// The expansion of a match, given its expanded template: case propagation,
/// then the cursor marker.
pub open spec fn finish_spec(s: Snippet, typed: Seq<char>, delete: nat, expanded: Seq<char>) -> ExpansionSpec {
    let cased = if s.propagate_case {
        propagate_case_spec(typed, expanded)
    } else {
        expanded
    };
    let (text, pos) = cursor_split(cased);
    ExpansionSpec {
        text,
        delete_count: delete,
        cursor_offset: if s.cursor_position && pos is Some {
            Some((text.len() - pos->0) as nat)
        } else {
            None
        },
    }
}

/// The expansion of a match: its template with the captures filled in, the
/// variables expanded (the requests of built-in and host tokens answered by
/// `answers`, in order), the case of the typed trigger carried over where the
/// snippet asks for it, and the cursor marker removed. Where the answers run
/// out, the result is the first request left without one.
pub fn expand_match(match_result: &MatchResult, variables: &VarNode, answers: &Vec<String>) -> (r:
    Result<ExpansionResult, HostRequest>)
    ensures
        match expand_spec(template_of(*match_result), *variables, strings_view(answers@)) {
            Expansion::Done(x) => r matches Ok(e) && e.agrees(
                finish_spec(
                    match_result.snippet,
                    match_result.typed_trigger@,
                    match_result.chars_to_delete as nat,
                    x,
                ),
            ),
            Expansion::Pending(q) => r matches Err(h) && h@ == q,
        },
{
    let snippet = &match_result.snippet;
    let text = match &match_result.captures {
        Some(c) => replace_captures(snippet.replace.as_str(), c),
        None => snippet.replace.clone(),
    };
    let expanded = match expand_variables(text.as_str(), variables, answers) {
        Ok(s) => s,
        Err(q) => {
            return Err(q);
        },
    };
    let cased = if snippet.propagate_case {
        propagate_case(match_result.typed_trigger.as_str(), expanded.as_str())
    } else {
        expanded
    };
    let (final_text, cursor_pos) = find_cursor_position(cased.as_str());
    let final_len = chars_of(final_text.as_str()).len();
    proof {
        lemma_marker_from(cased@, 0);
    }
    let cursor_offset = if snippet.cursor_position {
        match cursor_pos {
            Some(p) => Some(final_len - p),
            None => None,
        }
    } else {
        None
    };
    Ok(
        ExpansionResult {
            text: final_text,
            delete_count: match_result.chars_to_delete,
            cursor_offset,
        },
    )
}

/// The expansion of a snippet on its own, as though its trigger had been typed.
pub fn expand_snippet(snippet: &Snippet, variables: &VarNode, answers: &Vec<String>) -> (r: Result<
    ExpansionResult,
    HostRequest,
>)
    ensures
        match expand_spec(snippet.replace@, *variables, strings_view(answers@)) {
            Expansion::Done(x) => r matches Ok(e) && e.agrees(
                finish_spec(*snippet, snippet.trigger@, snippet.trigger@.len(), x),
            ),
            Expansion::Pending(q) => r matches Err(h) && h@ == q,
        },
{
    let trigger = chars_of(snippet.trigger.as_str());
    let m = MatchResult {
        snippet: snippet.duplicate(),
        typed_trigger: snippet.trigger.clone(),
        chars_to_delete: trigger.len(),
        captures: None,
    };
    expand_match(&m, variables, answers)
}

} // verus!
