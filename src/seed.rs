use vstd::prelude::*;

verus! {

/// Whether a character has the Unicode `White_Space` property.
pub uninterp spec fn white_space(c: char) -> bool;

/// Relies on std's `char::is_whitespace`: whether `c` has the Unicode
/// `White_Space` property.
#[verifier::external_body]
fn char_is_whitespace(c: char) -> (r: bool)
    ensures
        r == white_space(c),
{
    c.is_whitespace()
}

/// `s` without its leading white space.
pub open spec fn trim_leading(s: Seq<char>) -> Seq<char>
    decreases s.len(),
{
    if s.len() > 0 && white_space(s[0]) {
        trim_leading(s.skip(1))
    } else {
        s
    }
}

pub open spec fn starts_with(s: Seq<char>, prefix: Seq<char>) -> bool {
    prefix.len() <= s.len() && s.take(prefix.len() as int) == prefix
}

/// Whether a user message is a synthetic seed (the initial instructions or
/// environment banner) rather than something the user typed.
pub open spec fn is_seed(text: Seq<char>) -> bool {
    starts_with(trim_leading(text), "<user_instructions>"@) || starts_with(
        trim_leading(text),
        "<environment_context>"@,
    )
}

proof fn lemma_trim_skip(s: Seq<char>, k: int)
    requires
        0 <= k <= s.len(),
        forall|j: int| 0 <= j < k ==> white_space(#[trigger] s[j]),
    ensures
        trim_leading(s) == trim_leading(s.skip(k)),
    decreases k,
{
    if k > 0 {
        assert(white_space(s[0]));
        assert forall|j: int| 0 <= j < k - 1 implies white_space(#[trigger] s.skip(1)[j]) by {
            assert(s.skip(1)[j] == s[j + 1]);
        }
        lemma_trim_skip(s.skip(1), k - 1);
        assert(s.skip(1).skip(k - 1) =~= s.skip(k));
    } else {
        assert(s.skip(0) =~= s);
    }
}

/// Whether `s[from..]` starts with `prefix`.
fn starts_with_at(s: &str, from: usize, prefix: &str) -> (r: bool)
    requires
        from <= s@.len(),
    ensures
        r == starts_with(s@.skip(from as int), prefix@),
{
    let n = s.unicode_len();
    let m = prefix.unicode_len();
    if m > n - from {
        return false;
    }
    let mut i: usize = 0;
    while i < m
        invariant
            n == s@.len(),
            m == prefix@.len(),
            from + m <= n,
            i <= m,
            forall|j: int| 0 <= j < i ==> s@[from + j] == prefix@[j],
        decreases m - i,
    {
        if s.get_char(from + i) != prefix.get_char(i) {
            assert(s@.skip(from as int).take(m as int)[i as int] != prefix@[i as int]);
            return false;
        }
        i = i + 1;
    }
    assert(s@.skip(from as int).take(m as int) =~= prefix@);
    true
}

/// Whether a user message is a synthetic seed: after leading white space it
/// opens with `<user_instructions>` or `<environment_context>`.
pub fn is_seed_message(text: &str) -> (r: bool)
    ensures
        r == is_seed(text@),
{
    let n = text.unicode_len();
    let mut k: usize = 0;
    while k < n && char_is_whitespace(text.get_char(k))
        invariant
            n == text@.len(),
            k <= n,
            forall|j: int| 0 <= j < k ==> white_space(#[trigger] text@[j]),
        decreases n - k,
    {
        k = k + 1;
    }
    proof {
        lemma_trim_skip(text@, k as int);
        let rest = text@.skip(k as int);
        if rest.len() > 0 {
            assert(rest[0] == text@[k as int]);
        }
        assert(trim_leading(rest) == rest);
    }
    starts_with_at(text, k, "<user_instructions>") || starts_with_at(
        text,
        k,
        "<environment_context>",
    )
}

} // verus!
