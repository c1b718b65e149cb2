//! Carrying the case of a typed trigger over to its replacement.

use vstd::prelude::*;

use crate::text::{append_chars, chars_of, slice_chars, string_of};

verus! {

/// What `char::is_alphabetic` says of a character.
pub uninterp spec fn alphabetic(c: char) -> bool;

/// What `char::is_uppercase` says of a character.
pub uninterp spec fn uppercase(c: char) -> bool;

/// What `char::is_lowercase` says of a character.
pub uninterp spec fn lowercase(c: char) -> bool;

/// What `str::to_uppercase` makes of a string.
pub uninterp spec fn upper_text(s: Seq<char>) -> Seq<char>;

/// What `char::to_uppercase` makes of a character.
pub uninterp spec fn upper_char(c: char) -> Seq<char>;

/// What `char::to_lowercase` makes of a character.
pub uninterp spec fn lower_char(c: char) -> Seq<char>;

/// Relies on `char::is_alphabetic` (the Unicode `Alphabetic` property).
#[verifier::external_body]
pub(crate) fn is_alphabetic_char(c: char) -> (r: bool)
    ensures
        r == alphabetic(c),
{
    c.is_alphabetic()
}

/// Relies on `char::is_uppercase` (the Unicode `Uppercase` property).
#[verifier::external_body]
fn is_uppercase_char(c: char) -> (r: bool)
    ensures
        r == uppercase(c),
{
    c.is_uppercase()
}

/// Relies on `char::is_lowercase` (the Unicode `Lowercase` property).
#[verifier::external_body]
fn is_lowercase_char(c: char) -> (r: bool)
    ensures
        r == lowercase(c),
{
    c.is_lowercase()
}

/// Relies on `str::to_uppercase`: the Unicode uppercase mapping of the string.
#[verifier::external_body]
fn to_upper_text(s: &str) -> (r: String)
    ensures
        r@ == upper_text(s@),
{
    s.to_uppercase()
}

/// Relies on `char::to_uppercase`: the Unicode uppercase mapping of one
/// character, collected into a string.
#[verifier::external_body]
pub(crate) fn to_upper_char(c: char) -> (r: String)
    ensures
        r@ == upper_char(c),
{
    c.to_uppercase().collect()
}

/// Relies on `char::to_lowercase`: the Unicode lowercase mapping of one
/// character, collected into a string.
#[verifier::external_body]
pub(crate) fn to_lower_char(c: char) -> (r: String)
    ensures
        r@ == lower_char(c),
{
    c.to_lowercase().collect()
}

/// The case facts of one character of a trigger.
#[derive(Debug, Clone, Copy, PartialEq, Eq, Structural)]
pub struct CharCase {
    /// The character is a letter.
    pub alphabetic: bool,
    /// The character is uppercase.
    pub uppercase: bool,
    /// The character is lowercase.
    pub lowercase: bool,
}

/// How a trigger's case carries over to its replacement.
#[derive(Debug, Clone, Copy, PartialEq, Eq, Structural)]
pub enum CaseMode {
    /// Uppercase the whole replacement.
    AllCaps,
    /// Uppercase the replacement's first character.
    Capitalized,
    /// Leave the replacement as it is.
    AsIs,
}

/// The case facts of each character of `t`.
pub open spec fn flags_of(t: Seq<char>) -> Seq<CharCase> {
    Seq::new(
        t.len(),
        |i: int| CharCase { alphabetic: alphabetic(t[i]), uppercase: uppercase(t[i]), lowercase: lowercase(t[i]) },
    )
}

/// `k` is the index of the first letter.
pub open spec fn is_first_letter(f: Seq<CharCase>, k: int) -> bool {
    0 <= k < f.len() && f[k].alphabetic && forall|j: int| 0 <= j < k ==> !(#[trigger] f[j]).alphabetic
}

/// Every letter from index `from` on is uppercase (`upper`) or lowercase (`!upper`).
pub open spec fn letters_from(f: Seq<CharCase>, from: int, upper: bool) -> bool {
    forall|j: int|
        from <= j < f.len() && (#[trigger] f[j]).alphabetic ==> if upper {
            f[j].uppercase
        } else {
            f[j].lowercase
        }
}

/// All capitals: the trigger has a letter and all its letters are uppercase;
/// capitalized: its first letter is uppercase and the letters after it lowercase.
pub open spec fn case_mode_spec(f: Seq<CharCase>) -> CaseMode {
    if (exists|k: int| is_first_letter(f, k)) && letters_from(f, 0, true) {
        CaseMode::AllCaps
    } else if exists|k: int| is_first_letter(f, k) && f[k].uppercase && letters_from(f, k + 1, false) {
        CaseMode::Capitalized
    } else {
        CaseMode::AsIs
    }
}

/// How the case of a trigger with the given character facts carries over.
pub fn case_mode(flags: &Vec<CharCase>) -> (r: CaseMode)
    ensures
        r == case_mode_spec(flags@),
{
    let n = flags.len();
    let mut k: usize = 0;
    while k < n && !flags[k].alphabetic
        invariant
            k <= n == flags@.len(),
            forall|j: int| 0 <= j < k ==> !(#[trigger] flags@[j]).alphabetic,
        decreases n - k,
    {
        k += 1;
    }
    if k == n {
        assert forall|m: int| !is_first_letter(flags@, m) by {
            if is_first_letter(flags@, m) {
                assert(!flags@[m].alphabetic);
            }
        }
        return CaseMode::AsIs;
    }
    assert(is_first_letter(flags@, k as int));
    let mut all_up = true;
    let mut i: usize = 0;
    while i < n
        invariant
            i <= n == flags@.len(),
            all_up == letters_from(flags@.subrange(0, i as int), 0, true),
        decreases n - i,
    {
        let ghost before = flags@.subrange(0, i as int);
        let ghost after = flags@.subrange(0, i + 1);
        assert forall|j: int| 0 <= j < i implies #[trigger] after[j] == before[j] by {}
        if flags[i].alphabetic && !flags[i].uppercase {
            all_up = false;
            assert(after[i as int] == flags@[i as int]);
        }
        proof {
            if !letters_from(before, 0, true) {
                let j = choose|j: int| 0 <= j < before.len() && (#[trigger] before[j]).alphabetic && !before[j].uppercase;
                assert(after[j] == before[j]);
            }
            assert(after[i as int] == flags@[i as int]);
        }
        i += 1;
    }
    assert(flags@.subrange(0, n as int) =~= flags@);
    if all_up {
        return CaseMode::AllCaps;
    }
    let mut rest_lower = true;
    let mut j: usize = k + 1;
    while j < n
        invariant
            k < j <= n == flags@.len(),
            rest_lower == forall|q: int| k < q < j && (#[trigger] flags@[q]).alphabetic ==> flags@[q].lowercase,
        decreases n - j,
    {
        if flags[j].alphabetic && !flags[j].lowercase {
            rest_lower = false;
        }
        j += 1;
    }
    proof {
        assert forall|m: int| is_first_letter(flags@, m) implies m == k by {
            if m < k {
                assert(!flags@[m].alphabetic);
            }
            if m > k {
                assert(!flags@[k as int].alphabetic);
            }
        }
    }
    if flags[k].uppercase && rest_lower {
        CaseMode::Capitalized
    } else {
        CaseMode::AsIs
    }
}

/// The replacement `r` with the case of the typed trigger `t` carried over.
pub open spec fn propagate_case_spec(t: Seq<char>, r: Seq<char>) -> Seq<char> {
    if r.len() == 0 {
        r
    } else {
        match case_mode_spec(flags_of(t)) {
            CaseMode::AllCaps => upper_text(r),
            CaseMode::Capitalized => upper_char(r[0]) + r.drop_first(),
            CaseMode::AsIs => r,
        }
    }
}

/// The case facts of each character of `t`, from the standard library.
fn case_flags(t: &Vec<char>) -> (r: Vec<CharCase>)
    ensures
        r@ == flags_of(t@),
{
    let mut out: Vec<CharCase> = Vec::new();
    let mut i: usize = 0;
    while i < t.len()
        invariant
            i <= t.len(),
            out@ == flags_of(t@).subrange(0, i as int),
        decreases t.len() - i,
    {
        let c = t[i];
        out.push(
            CharCase {
                alphabetic: is_alphabetic_char(c),
                uppercase: is_uppercase_char(c),
                lowercase: is_lowercase_char(c),
            },
        );
        assert(out@ =~= flags_of(t@).subrange(0, i + 1));
        i += 1;
    }
    assert(flags_of(t@).subrange(0, t.len() as int) =~= flags_of(t@));
    out
}

/// Carries the case of the typed trigger over to the replacement: all
/// capitals make the replacement uppercase, a capital first letter followed
/// by lowercase letters capitalizes the replacement's first character,
/// anything else leaves it as it is.
pub fn propagate_case(trigger: &str, replacement: &str) -> (r: String)
    ensures
        r@ == propagate_case_spec(trigger@, replacement@),
{
    let t = chars_of(trigger);
    let rc = chars_of(replacement);
    if rc.len() == 0 {
        return string_of(&rc);
    }
    let flags = case_flags(&t);
    match case_mode(&flags) {
        CaseMode::AllCaps => to_upper_text(replacement),
        CaseMode::Capitalized => {
            let mut out = chars_of(to_upper_char(rc[0]).as_str());
            let tail = slice_chars(&rc, 1, rc.len());
            append_chars(&mut out, &tail);
            assert(tail@ =~= replacement@.drop_first());
            string_of(&out)
        },
        CaseMode::AsIs => string_of(&rc),
    }
}

} // verus!
