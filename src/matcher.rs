use vstd::prelude::*;
use fuzzy_matcher::FuzzyMatcher;

verus! {

/// The characters of `s` with Unicode lower-case mapping applied.
pub uninterp spec fn lower_of(s: Seq<char>) -> Seq<char>;

/// The score that the skim matcher gives `pattern` inside `choice`.
pub uninterp spec fn skim_score_of(choice: Seq<char>, pattern: Seq<char>) -> Option<i64>;

/// ASCII lower-case of one character; other characters are kept.
pub open spec fn ascii_lower(c: char) -> char {
    if 'A' <= c && c <= 'Z' {
        ((c as u32) + 32) as char
    } else {
        c
    }
}

/// Whether `s` holds an ASCII capital letter.
pub open spec fn has_ascii_upper(s: Seq<char>) -> bool {
    exists|i: int| 0 <= i < s.len() && 'A' <= #[trigger] s[i] && s[i] <= 'Z'
}

/// Character equality as the matcher uses it: exact when case-sensitive,
/// ASCII-case-insensitive otherwise.
pub open spec fn chars_agree(a: char, b: char, case_sensitive: bool) -> bool {
    if case_sensitive {
        a == b
    } else {
        ascii_lower(a) == ascii_lower(b)
    }
}

/// `pattern` occurs in `choice` in order, with gaps allowed.
pub open spec fn is_subseq(choice: Seq<char>, pattern: Seq<char>, cs: bool) -> bool
    decreases choice.len(),
{
    if pattern.len() == 0 {
        true
    } else if choice.len() == 0 {
        false
    } else if chars_agree(choice[0], pattern[0], cs) {
        is_subseq(choice.drop_first(), pattern.drop_first(), cs)
    } else {
        is_subseq(choice.drop_first(), pattern, cs)
    }
}

/// Whether the default skim matcher accepts `pattern` in `choice`: a
/// subsequence match, case-sensitive exactly when the pattern holds an ASCII
/// capital letter.
pub open spec fn skim_accepts(choice: Seq<char>, pattern: Seq<char>) -> bool {
    is_subseq(choice, pattern, has_ascii_upper(pattern))
}

/// Relies on str::to_lowercase: the result depends on the characters alone,
/// an empty string stays empty, and every capital letter is mapped, so no
/// ASCII capital remains.
#[verifier::external_body]
pub(crate) fn lowercase(s: &Vec<char>) -> (r: Vec<char>)
    ensures
        r@ == lower_of(s@),
        s@.len() == 0 ==> r@.len() == 0,
        !has_ascii_upper(r@),
{
    let t: String = s.iter().collect();
    t.to_lowercase().chars().collect()
}

/// Relies on fuzzy_matcher's `SkimMatcherV2::default().fuzzy_match`: it
/// returns a score exactly when its first-match scan finds every pattern
/// character in order (ASCII case ignored under its default smart case unless
/// the pattern holds a capital), and `Some(0)` for an empty pattern.
#[verifier::external_body]
pub(crate) fn skim_score(choice: &Vec<char>, pattern: &Vec<char>) -> (r: Option<i64>)
    ensures
        r == skim_score_of(choice@, pattern@),
        r is Some <==> skim_accepts(choice@, pattern@),
        pattern@.len() == 0 ==> r == Some(0i64),
{
    let c: String = choice.iter().collect();
    let p: String = pattern.iter().collect();
    fuzzy_matcher::skim::SkimMatcherV2::default().fuzzy_match(&c, &p)
}

/// Relies on str::chars: it yields the characters of the string in order.
#[verifier::external_body]
pub(crate) fn chars_of(s: &str) -> (r: Vec<char>)
    ensures
        r@ == s@,
{
    s.chars().collect()
}

/// Relies on collecting chars into a String: the string holds them in order.
#[verifier::external_body]
pub(crate) fn string_of(v: &Vec<char>) -> (r: String)
    ensures
        r@ == v@,
{
    v.iter().collect()
}

/// The characters of `s` without leading and trailing white space.
pub uninterp spec fn trimmed_of(s: Seq<char>) -> Seq<char>;

/// Relies on str::trim: the result depends on the characters alone.
#[verifier::external_body]
pub(crate) fn trim(s: &str) -> (r: Vec<char>)
    ensures
        r@ == trimmed_of(s@),
{
    s.trim().chars().collect()
}

/// Without ASCII capitals on either side, the ASCII-case-insensitive match is
/// the exact one.
pub proof fn lemma_subseq_exact(choice: Seq<char>, pattern: Seq<char>)
    requires
        !has_ascii_upper(choice),
        !has_ascii_upper(pattern),
    ensures
        is_subseq(choice, pattern, false) == is_subseq(choice, pattern, true),
    decreases choice.len(),
{
    if pattern.len() > 0 && choice.len() > 0 {
        assert(!('A' <= choice[0] && choice[0] <= 'Z'));
        assert(!('A' <= pattern[0] && pattern[0] <= 'Z'));
        let c1 = choice.drop_first();
        let p1 = pattern.drop_first();
        assert(!has_ascii_upper(c1)) by {
            if has_ascii_upper(c1) {
                let i = choose|i: int| 0 <= i < c1.len() && 'A' <= #[trigger] c1[i] && c1[i] <= 'Z';
                assert(choice[i + 1] == c1[i]);
            }
        }
        assert(!has_ascii_upper(p1)) by {
            if has_ascii_upper(p1) {
                let i = choose|i: int| 0 <= i < p1.len() && 'A' <= #[trigger] p1[i] && p1[i] <= 'Z';
                assert(pattern[i + 1] == p1[i]);
            }
        }
        lemma_subseq_exact(c1, p1);
        lemma_subseq_exact(c1, pattern);
    }
}

} // verus!
