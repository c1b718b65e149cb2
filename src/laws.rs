//! Properties that relate the library's operations to one another.

use vstd::prelude::*;

use crate::config::Snippet;
use crate::engine::event_spec;
use crate::expander::{captures_from, digits_end, finish_spec, template_of};
use crate::matcher::{strings_view, MatchResult};
use crate::output::digit_char;
use crate::matcher::{
    check_spec, ends_with, literal_phase, literal_table, pushed, regex_hit, regex_list, regex_phase,
    MatcherView, MAX_BUFFER_SIZE,
};
use crate::monitor::KeyboardEvent;
use crate::text::{digit_value, digits_value, is_digit, is_separator};
use crate::trie::{lemma_longest_from, lemma_longest_is_max, lemma_longest_none, longest_suffix, reversed, tail_key};
use crate::casing::{case_mode_spec, flags_of, propagate_case_spec, upper_char, upper_text, CaseMode};
use crate::variables::{
    cursor_split, expand_from, expand_spec, lemma_marker_from, marker, marker_from, token_end,
    Expansion, VarNode,
};

verus! {

/// The buffer after typing the characters of `s`, one by one, into `b`.
pub open spec fn fed(b: Seq<char>, s: Seq<char>) -> Seq<char>
    decreases s.len(),
{
    if s.len() == 0 {
        b
    } else {
        pushed(fed(b, s.drop_last()), s.last())
    }
}

/// A matcher state holding exactly the snippets `snips`, with buffer `b`.
pub open spec fn loaded(snips: Seq<Snippet>, b: Seq<char>) -> MatcherView {
    MatcherView {
        buffer: b,
        literals: literal_table(snips),
        regexes: regex_list(snips),
        at_word_boundary: true,
    }
}

/// Typing into an empty buffer leaves a suffix of what was typed: all of it,
/// or at least its last half-capacity of characters.
pub proof fn lemma_fed_suffix(s: Seq<char>)
    ensures
        fed(Seq::empty(), s).len() <= MAX_BUFFER_SIZE,
        fed(Seq::empty(), s).len() >= s.len() || fed(Seq::empty(), s).len() >= MAX_BUFFER_SIZE / 2,
        ends_with(s, fed(Seq::empty(), s)),
    decreases s.len(),
{
    if s.len() > 0 {
        let s0 = s.drop_last();
        lemma_fed_suffix(s0);
        let b0 = fed(Seq::empty(), s0);
        let p = b0.push(s.last());
        assert(p =~= s.subrange(s.len() - p.len(), s.len() as int));
        if p.len() > MAX_BUFFER_SIZE {
            let q = p.subrange(p.len() - MAX_BUFFER_SIZE / 2, p.len() as int);
            assert(q =~= s.subrange(s.len() - q.len(), s.len() as int));
        }
    } else {
        assert(s.subrange(0, 0) =~= Seq::<char>::empty());
    }
}

proof fn lemma_suffix_key(b: Seq<char>, t: Seq<char>)
    requires
        ends_with(b, t),
    ensures
        tail_key(b, t.len() as int) == reversed(t),
{
    assert(tail_key(b, t.len() as int) =~= reversed(t)) by {
        assert forall|i: int| 0 <= i < t.len() implies tail_key(b, t.len() as int)[i] == reversed(
            t,
        )[i] by {
            assert(b.subrange(b.len() - t.len(), b.len() as int)[t.len() - 1 - i] == t[t.len() - 1
                - i]);
        }
    }
}

proof fn lemma_ends_with_trans(s: Seq<char>, b: Seq<char>, t: Seq<char>)
    requires
        ends_with(s, b),
        ends_with(s, t),
        t.len() <= b.len(),
    ensures
        ends_with(b, t),
{
    assert(b.subrange(b.len() - t.len(), b.len() as int) =~= t) by {
        assert forall|i: int| 0 <= i < t.len() implies b.subrange(
            b.len() - t.len(),
            b.len() as int,
        )[i] == t[i] by {
            assert(s.subrange(s.len() - b.len(), s.len() as int)[b.len() - t.len() + i] == b[b.len()
                - t.len() + i]);
            assert(s.subrange(s.len() - t.len(), s.len() as int)[i] == t[i]);
        }
    }
}

/// With a single literal snippet whose trigger the buffer ends with, the
/// literal phase finds that trigger.
proof fn lemma_single_literal(s: Snippet, b: Seq<char>)
    requires
        s.enabled,
        !s.regex,
        s.trigger@.len() >= 1,
        ends_with(b, s.trigger@),
    ensures
        longest_suffix(literal_table(seq![s]), b) == Some(s.trigger@.len() as int),
        literal_table(seq![s])[tail_key(b, s.trigger@.len() as int)] == s,
        regex_list(seq![s]) == Seq::<Snippet>::empty(),
{
    let t = s.trigger@;
    let m = literal_table(seq![s]);
    assert(seq![s].drop_last() =~= Seq::<Snippet>::empty());
    assert(seq![s].last() == s);
    assert(literal_table(Seq::<Snippet>::empty()) == Map::<Seq<char>, Snippet>::empty());
    assert(regex_list(Seq::<Snippet>::empty()) == Seq::<Snippet>::empty());
    assert(m == Map::<Seq<char>, Snippet>::empty().insert(reversed(t), s));
    lemma_suffix_key(b, t);
    assert forall|e: int| t.len() < e <= b.len() implies !m.contains_key(#[trigger] tail_key(b, e)) by {
        assert(tail_key(b, e).len() == e);
    }
    lemma_longest_from(m, b, b.len() as int, t.len() as int);
}

proof fn lemma_reversed_injective(a: Seq<char>, b: Seq<char>)
    requires
        reversed(a) == reversed(b),
    ensures
        a == b,
{
    assert(a.len() == reversed(a).len());
    assert forall|i: int| 0 <= i < a.len() implies a[i] == b[i] by {
        assert(reversed(a)[a.len() - 1 - i] == a[i]);
        assert(reversed(b)[b.len() - 1 - i] == b[i]);
    }
    assert(a =~= b);
}

/// Every key of a literal table comes from an enabled literal snippet.
proof fn lemma_table_keys(snips: Seq<Snippet>, k: Seq<char>)
    ensures
        literal_table(snips).contains_key(k) ==> exists|j: int|
            0 <= j < snips.len() && (#[trigger] snips[j]).enabled && !snips[j].regex && reversed(
                snips[j].trigger@,
            ) == k,
    decreases snips.len(),
{
    if snips.len() > 0 {
        let prev = snips.drop_last();
        lemma_table_keys(prev, k);
        if literal_table(snips).contains_key(k) && literal_table(prev).contains_key(k) {
            let j = choose|j: int|
                0 <= j < prev.len() && (#[trigger] prev[j]).enabled && !prev[j].regex && reversed(
                    prev[j].trigger@,
                ) == k;
            assert(snips[j] == prev[j]);
        }
        if literal_table(snips).contains_key(k) && !literal_table(prev).contains_key(k) {
            assert(snips[snips.len() - 1] == snips.last());
        }
    }
}

/// The only enabled literal snippet with a given trigger is what the table holds under it.
proof fn lemma_table_value(snips: Seq<Snippet>, i: int, s: Snippet)
    requires
        0 <= i < snips.len(),
        snips[i] == s,
        s.enabled,
        !s.regex,
        forall|j: int|
            0 <= j < snips.len() && j != i && (#[trigger] snips[j]).enabled && !snips[j].regex
                ==> snips[j].trigger@ != s.trigger@,
    ensures
        literal_table(snips).contains_key(reversed(s.trigger@)),
        literal_table(snips)[reversed(s.trigger@)] == s,
    decreases snips.len(),
{
    let prev = snips.drop_last();
    let l = snips.last();
    if i < snips.len() - 1 {
        assert forall|j: int|
            0 <= j < prev.len() && j != i && (#[trigger] prev[j]).enabled && !prev[j].regex
                implies prev[j].trigger@ != s.trigger@ by {
            assert(prev[j] == snips[j]);
        }
        assert(prev[i] == s);
        lemma_table_value(prev, i, s);
        if l.enabled && !l.regex {
            assert(snips[snips.len() - 1] == l);
            if reversed(l.trigger@) == reversed(s.trigger@) {
                lemma_reversed_injective(l.trigger@, s.trigger@);
            }
        }
    }
}

proof fn lemma_reversed_tail(b: Seq<char>, x: Seq<char>, e: int)
    requires
        0 <= e <= b.len(),
        reversed(x) == tail_key(b, e),
    ensures
        x.len() == e,
        ends_with(b, x),
{
    assert(reversed(x).len() == x.len());
    assert(b.subrange(b.len() - e, b.len() as int) =~= x) by {
        assert forall|i: int| 0 <= i < e implies b.subrange(b.len() - e, b.len() as int)[i] == x[i] by {
            assert(reversed(x)[x.len() - 1 - i] == x[i]);
            assert(tail_key(b, e)[e - 1 - i] == b[b.len() - 1 - (e - 1 - i)]);
        }
    }
}

proof fn lemma_ends_with_chain(s: Seq<char>, b: Seq<char>, x: Seq<char>)
    requires
        ends_with(s, b),
        ends_with(b, x),
    ensures
        ends_with(s, x),
{
    assert(s.subrange(s.len() - x.len(), s.len() as int) =~= x) by {
        assert forall|i: int| 0 <= i < x.len() implies s.subrange(s.len() - x.len(), s.len() as int)[i]
            == x[i] by {
            assert(b.subrange(b.len() - x.len(), b.len() as int)[i] == x[i]);
            assert(s.subrange(s.len() - b.len(), s.len() as int)[b.len() - x.len() + i] == b[b.len()
                - x.len() + i]);
        }
    }
}

/// A literal trigger without a word-boundary requirement matches after any
/// typed text that ends with it, whatever else the snippet set holds, as long
/// as no other enabled literal snippet has the same trigger or a longer trigger
/// that the text also ends with: the match reports the snippet, the trigger as
/// typed, and the trigger's length.
pub proof fn law_literal_trigger_matches_in_set(snips: Seq<Snippet>, i: int, input: Seq<char>)
    requires
        0 <= i < snips.len(),
        snips[i].enabled,
        !snips[i].regex,
        !snips[i].word_boundary,
        1 <= snips[i].trigger@.len() <= MAX_BUFFER_SIZE / 2,
        ends_with(input, snips[i].trigger@),
        forall|j: int|
            0 <= j < snips.len() && j != i && (#[trigger] snips[j]).enabled && !snips[j].regex ==> snips[j].trigger@
                != snips[i].trigger@ && !(snips[j].trigger@.len() > snips[i].trigger@.len() && ends_with(
                input,
                snips[j].trigger@,
            )),
    ensures
        check_spec(loaded(snips, fed(Seq::empty(), input))) matches Some(m) && m.snippet == snips[i]
            && m.typed == snips[i].trigger@ && m.delete == snips[i].trigger@.len(),
{
    let s = snips[i];
    let t = s.trigger@;
    let b = fed(Seq::empty(), input);
    let m = literal_table(snips);
    lemma_fed_suffix(input);
    lemma_ends_with_trans(input, b, t);
    lemma_table_value(snips, i, s);
    lemma_suffix_key(b, t);
    assert forall|e: int| t.len() < e <= b.len() implies !m.contains_key(#[trigger] tail_key(b, e)) by {
        lemma_table_keys(snips, tail_key(b, e));
        if m.contains_key(tail_key(b, e)) {
            let j = choose|j: int|
                0 <= j < snips.len() && (#[trigger] snips[j]).enabled && !snips[j].regex && reversed(
                    snips[j].trigger@,
                ) == tail_key(b, e);
            lemma_reversed_tail(b, snips[j].trigger@, e);
            lemma_ends_with_chain(input, b, snips[j].trigger@);
            if j == i {
                assert(snips[j].trigger@.len() == t.len());
            }
        }
    }
    lemma_longest_from(m, b, b.len() as int, t.len() as int);
}

/// A trigger that asks for a word boundary matches exactly where nothing,
/// whitespace or ASCII punctuation precedes it in the buffer.
pub proof fn law_word_boundary(s: Snippet, b: Seq<char>)
    requires
        s.enabled,
        !s.regex,
        s.word_boundary,
        s.trigger@.len() >= 1,
        ends_with(b, s.trigger@),
    ensures
        check_spec(loaded(seq![s], b)) is Some <==> (b.len() == s.trigger@.len() || is_separator(
            b[b.len() - s.trigger@.len() - 1],
        )),
{
    lemma_single_literal(s, b);
}

/// Of two literal triggers that the buffer ends with, where one is a proper
/// suffix of the other, the longer one is reported.
pub proof fn law_longest_trigger_wins(s1: Snippet, s2: Snippet, b: Seq<char>)
    requires
        s1.enabled && !s1.regex,
        s2.enabled && !s2.regex,
        1 <= s1.trigger@.len() < s2.trigger@.len(),
        ends_with(s2.trigger@, s1.trigger@),
        ends_with(b, s2.trigger@),
        !s2.word_boundary || b.len() == s2.trigger@.len() || is_separator(
            b[b.len() - s2.trigger@.len() - 1],
        ),
    ensures
        check_spec(loaded(seq![s1, s2], b)) matches Some(m) && m.snippet == s2 && m.delete
            == s2.trigger@.len(),
{
    let t1 = s1.trigger@;
    let t2 = s2.trigger@;
    let m = literal_table(seq![s1, s2]);
    assert(seq![s1, s2].drop_last() =~= seq![s1]);
    assert(seq![s1].drop_last() =~= Seq::<Snippet>::empty());
    assert(seq![s1, s2].last() == s2);
    assert(seq![s1].last() == s1);
    assert(literal_table(Seq::<Snippet>::empty()) == Map::<Seq<char>, Snippet>::empty());
    assert(literal_table(seq![s1]) == Map::<Seq<char>, Snippet>::empty().insert(reversed(t1), s1));
    assert(m == Map::<Seq<char>, Snippet>::empty().insert(reversed(t1), s1).insert(reversed(t2), s2));
    lemma_suffix_key(b, t2);
    assert forall|e: int| t2.len() < e <= b.len() implies !m.contains_key(#[trigger] tail_key(b, e)) by {
        assert(tail_key(b, e).len() == e);
    }
    lemma_longest_from(m, b, b.len() as int, t2.len() as int);
}

/// Text without a `{{…}}` token comes out of variable expansion unchanged.
pub proof fn law_plain_text_unchanged(t: Seq<char>, vars: VarNode, answers: Seq<Seq<char>>)
    requires
        forall|i: int| 0 <= i < t.len() ==> #[trigger] token_end(t, i) is None,
    ensures
        expand_spec(t, vars, answers) == Expansion::Done(t),
{
    lemma_plain_from(t, 0, vars, answers);
    assert(t.subrange(0, t.len() as int) =~= t);
}

proof fn lemma_plain_from(t: Seq<char>, i: int, vars: VarNode, answers: Seq<Seq<char>>)
    requires
        0 <= i <= t.len(),
        forall|k: int| 0 <= k < t.len() ==> #[trigger] token_end(t, k) is None,
    ensures
        expand_from(t, i, vars, answers) == Expansion::Done(t.subrange(i, t.len() as int)),
    decreases t.len() - i,
{
    if i < t.len() {
        lemma_plain_from(t, i + 1, vars, answers);
        assert(token_end(t, i) is None);
        assert(seq![t[i]] + t.subrange(i + 1, t.len() as int) =~= t.subrange(i, t.len() as int));
    } else {
        assert(t.subrange(i, t.len() as int) =~= Seq::<char>::empty());
    }
}

/// Propagating the case of a trigger twice gives what propagating it once
/// gives, wherever the Unicode uppercase mapping is stable on what the first
/// pass produced.
pub proof fn law_propagate_case_idempotent(t: Seq<char>, r: Seq<char>)
    requires
        case_mode_spec(flags_of(t)) == CaseMode::AllCaps ==> upper_text(upper_text(r)) == upper_text(r),
        case_mode_spec(flags_of(t)) == CaseMode::Capitalized ==> ({
            let x = propagate_case_spec(t, r);
            x.len() > 0 ==> upper_char(x[0]) == seq![x[0]]
        }),
    ensures
        propagate_case_spec(t, propagate_case_spec(t, r)) == propagate_case_spec(t, r),
{
    let x = propagate_case_spec(t, r);
    if r.len() > 0 && x.len() > 0 && case_mode_spec(flags_of(t)) == CaseMode::Capitalized {
        assert(seq![x[0]] + x.drop_first() =~= x);
    }
}

/// Removing the cursor marker removes exactly one `$|$`: the text keeps
/// what stood before and after it, is three characters shorter, and the
/// marker's index plus the distance from it to the end is the new length.
pub proof fn law_cursor_marker_removed(t: Seq<char>)
    requires
        cursor_split(t).1 is Some,
    ensures
        ({
            let (text, pos) = cursor_split(t);
            let p = pos->0;
            &&& 0 <= p <= text.len()
            &&& t.subrange(p, p + 3) == marker()
            &&& text == t.subrange(0, p) + t.subrange(p + 3, t.len() as int)
            &&& text.len() + 3 == t.len()
            &&& p + (text.len() - p) == t.len() - 3
        }),
{
    lemma_marker_from(t, 0);
}

/// After a match is taken, the matched text is gone from the buffer, and the
/// buffer matches again only where a stored trigger is a suffix of what
/// remains or a regular-expression snippet matches it.
pub proof fn law_no_rematch(v: MatcherView, enabled: bool, ev: KeyboardEvent)
    requires
        event_spec(v, enabled, ev).1 is Some,
    ensures
        ({
            let (v2, m) = event_spec(v, enabled, ev);
            let ch = match ev {
                KeyboardEvent::Character(c) => c,
                KeyboardEvent::WordBoundary(c) => c,
                _ => ' ',
            };
            let p = pushed(v.buffer, ch);
            &&& m->0.delete <= p.len()
            &&& v2.buffer == p.subrange(0, p.len() - m->0.delete)
            &&& ((forall|d: int|
                1 <= d <= v2.buffer.len() ==> !v2.literals.contains_key(
                    #[trigger] tail_key(v2.buffer, d),
                )) && (forall|i: int|
                0 <= i < v2.regexes.len() ==> #[trigger] regex_hit(v2.regexes[i], v2.buffer) is None)
                ==> check_spec(v2) is None)
        }),
{
    let (v2, m) = event_spec(v, enabled, ev);
    let ch = match ev {
        KeyboardEvent::Character(c) => c,
        KeyboardEvent::WordBoundary(c) => c,
        _ => ' ',
    };
    let pv = MatcherView { buffer: pushed(v.buffer, ch), at_word_boundary: is_separator(ch), ..v };
    let p = pv.buffer;
    lemma_longest_is_max(pv.literals, p, p.len() as int);
    match literal_phase(pv.literals, p) {
        Some(_) => {},
        None => {
            lemma_regex_phase_sound(pv.regexes, p, 0);
        },
    }
    if (forall|d: int|
        1 <= d <= v2.buffer.len() ==> !v2.literals.contains_key(#[trigger] tail_key(v2.buffer, d)))
        && (forall|i: int|
        0 <= i < v2.regexes.len() ==> #[trigger] regex_hit(v2.regexes[i], v2.buffer) is None) {
        lemma_longest_none(v2.literals, v2.buffer, v2.buffer.len() as int);
        lemma_regex_phase_none(v2.regexes, v2.buffer, 0);
    }
}

proof fn lemma_regex_phase_sound(rs: Seq<Snippet>, b: Seq<char>, i: int)
    requires
        0 <= i,
    ensures
        regex_phase(rs, b, i) matches Some(m) ==> m.delete <= b.len(),
    decreases rs.len() - i,
{
    if i < rs.len() {
        lemma_regex_phase_sound(rs, b, i + 1);
    }
}

proof fn lemma_regex_phase_none(rs: Seq<Snippet>, b: Seq<char>, i: int)
    requires
        0 <= i,
        forall|k: int| 0 <= k < rs.len() ==> #[trigger] regex_hit(rs[k], b) is None,
    ensures
        regex_phase(rs, b, i) is None,
    decreases rs.len() - i,
{
    if i < rs.len() {
        lemma_regex_phase_none(rs, b, i + 1);
    }
}


proof fn lemma_digits_end_shift(p: Seq<char>, q: Seq<char>, j: int)
    requires
        0 <= j <= q.len(),
    ensures
        digits_end(p + q, p.len() + j) == p.len() + digits_end(q, j),
    decreases q.len() - j,
{
    let t = p + q;
    assert(t.len() == p.len() + q.len());
    if j < q.len() {
        assert(t[p.len() + j] == q[j]);
        if is_digit(q[j]) {
            lemma_digits_end_shift(p, q, j + 1);
        }
    }
}

proof fn lemma_digits_end_bounds(t: Seq<char>, j: int)
    requires
        0 <= j <= t.len(),
    ensures
        j <= digits_end(t, j) <= t.len(),
    decreases t.len() - j,
{
    if j < t.len() && is_digit(t[j]) {
        lemma_digits_end_bounds(t, j + 1);
    }
}

/// Capture substitution reads only what follows the current index.
proof fn lemma_captures_shift(p: Seq<char>, q: Seq<char>, caps: Seq<Seq<char>>, j: int)
    requires
        0 <= j <= q.len(),
    ensures
        captures_from(p + q, caps, p.len() + j) == captures_from(q, caps, j),
    decreases q.len() - j,
{
    let t = p + q;
    let i = p.len() + j;
    assert(t.len() == p.len() + q.len());
    if j < q.len() {
        assert(t[i] == q[j]);
        if q[j] == '$' && j + 1 < q.len() && is_digit(q[j + 1]) {
            assert(t[i + 1] == q[j + 1]);
            lemma_digits_end_shift(p, q, j + 1);
            lemma_digits_end_bounds(q, j + 1);
            let e = digits_end(q, j + 1);
            assert(t.subrange(i + 1, p.len() + e) =~= q.subrange(j + 1, e));
            assert(t.subrange(i, p.len() + e) =~= q.subrange(j, e));
            lemma_captures_shift(p, q, caps, e);
        } else {
            if j + 1 < q.len() {
                assert(t[i + 1] == q[j + 1]);
            }
            lemma_captures_shift(p, q, caps, j + 1);
        }
    }
}

proof fn lemma_captures_plain_prefix(u: Seq<char>, r: Seq<char>, caps: Seq<Seq<char>>, i: int)
    requires
        0 <= i <= u.len(),
        forall|k: int| 0 <= k < u.len() ==> u[k] != '$',
    ensures
        captures_from(u + r, caps, i) == u.subrange(i, u.len() as int) + captures_from(
            u + r,
            caps,
            u.len() as int,
        ),
    decreases u.len() - i,
{
    if i < u.len() {
        lemma_captures_plain_prefix(u, r, caps, i + 1);
        assert((u + r)[i] == u[i]);
        assert(seq![u[i]] + u.subrange(i + 1, u.len() as int) =~= u.subrange(i, u.len() as int));
        assert(seq![u[i]] + (u.subrange(i + 1, u.len() as int) + captures_from(u + r, caps, u.len() as int))
            =~= u.subrange(i, u.len() as int) + captures_from(u + r, caps, u.len() as int));
    } else {
        assert(u.subrange(i, u.len() as int) =~= Seq::<char>::empty());
        assert(Seq::<char>::empty() + captures_from(u + r, caps, u.len() as int) =~= captures_from(
            u + r,
            caps,
            u.len() as int,
        ));
    }
}

/// A capture reference `$k`, for a group `k` that the match has, is replaced
/// by the `k`-th capture: the text before it (holding no `$`) stays, and the
/// text after it (not starting with a digit) is substituted in turn.
pub proof fn law_capture_reference(u: Seq<char>, k: nat, w: Seq<char>, caps: Seq<Seq<char>>)
    requires
        1 <= k <= 9,
        k <= caps.len(),
        forall|i: int| 0 <= i < u.len() ==> u[i] != '$',
        w.len() == 0 || !is_digit(w[0]),
    ensures
        captures_from(u + seq!['$', digit_char(k)] + w, caps, 0) == u + caps[k - 1] + captures_from(
            w,
            caps,
            0,
        ),
{
    let d = digit_char(k);
    let mid = seq!['$', d];
    let r = mid + w;
    let t = u + r;
    assert(u + mid + w =~= t);
    assert(is_digit(d) && digit_value(d) == k);
    lemma_captures_plain_prefix(u, r, caps, 0);
    assert(u.subrange(0, u.len() as int) =~= u);
    let i = u.len() as int;
    assert(t[i] == '$');
    assert(t[i + 1] == d);
    lemma_digits_end_shift(u + mid, w, 0);
    assert(digits_end(w, 0) == 0);
    assert(t == (u + mid) + w);
    assert(digits_end(t, i + 1) == i + 2) by {
        if w.len() > 0 {
            assert(t[i + 2] == w[0]);
        }
    }
    assert(t.subrange(i + 1, i + 2) =~= seq![d]);
    assert(seq![d].drop_last() =~= Seq::<char>::empty());
    assert(seq![d].last() == d);
    assert(digits_value(Seq::<char>::empty()) == 0);
    assert(digits_value(seq![d]) == digits_value(seq![d].drop_last()) * 10 + digit_value(d));
    assert(digits_value(seq![d]) == k);
    lemma_captures_shift(u + mid, w, caps, 0);
    assert(captures_from(t, caps, i) == caps[k - 1] + captures_from(w, caps, 0));
    assert(u + (caps[k - 1] + captures_from(w, caps, 0)) =~= u + caps[k - 1] + captures_from(w, caps, 0));
}


/// Capture substitution carries through to the expansion: for a regex match
/// whose template (the replacement with its capture references filled in)
/// holds no `{{…}}` token and no cursor marker, and whose snippet does not
/// propagate case, the text to type is exactly that template, whatever answers
/// are given.
pub proof fn law_captures_reach_expansion(m: MatchResult, vars: VarNode, answers: Seq<Seq<char>>)
    requires
        m.captures is Some,
        !m.snippet.propagate_case,
        forall|i: int| 0 <= i < template_of(m).len() ==> #[trigger] token_end(template_of(m), i) is None,
        marker_from(template_of(m), 0) is None,
    ensures
        expand_spec(template_of(m), vars, answers) == Expansion::Done(template_of(m)),
        finish_spec(m.snippet, m.typed_trigger@, m.chars_to_delete as nat, template_of(m)).text
            == captures_from(m.snippet.replace@, strings_view(m.captures->0@), 0),
{
    law_plain_text_unchanged(template_of(m), vars, answers);
}

} // verus!
