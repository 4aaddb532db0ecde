//! The normal form in which every name and code is stored and looked up.

use crate::text::{
    chars_of, in_class, is_whitespace, lemma_span_back_bounds, lemma_span_back_is,
    lemma_span_bounds, lemma_span_is, push_char, scan, scan_back, span, span_back, string_of,
    to_uppercase, uppercase_of, CharClass,
};
use vstd::prelude::*;

verus! {

/// `s` without the white space at its two ends.
pub open spec fn trimmed(s: Seq<char>) -> Seq<char> {
    let lead = span(s, CharClass::Space);
    let trail = span_back(s, CharClass::Space);
    if lead == s.len() {
        Seq::empty()
    } else {
        s.subrange(lead as int, s.len() - trail)
    }
}

/// `s` with an underscore in the place of every space.
pub open spec fn underscored(s: Seq<char>) -> Seq<char> {
    Seq::new(
        s.len(),
        |i: int|
            if s[i] == ' ' {
                '_'
            } else {
                s[i]
            },
    )
}

/// The normal form of `s`: trimmed, then in uppercase, then with underscores
/// for spaces.
pub open spec fn normalized(s: Seq<char>) -> Seq<char> {
    underscored(uppercase_of(trimmed(s)))
}

/// `s` without the white space at its two ends.
pub fn trim(s: &str) -> (out: String)
    ensures
        out@ == trimmed(s@),
{
    let chars = chars_of(s);
    let n = chars.len();
    let lead = scan(&chars, 0, n, CharClass::Space);
    assert(chars@.subrange(0, n as int) =~= chars@);
    if lead == n {
        return String::new();
    }
    let end = scan_back(&chars, 0, n, CharClass::Space);
    proof {
        lemma_span_bounds(chars@, CharClass::Space);
        lemma_span_back_bounds(chars@, CharClass::Space);
        assert(!in_class(CharClass::Space, chars@[lead as int]));
    }
    string_of(&chars, lead, end)
}

/// `s` with an underscore in the place of every space.
pub fn replace_spaces(s: &str) -> (out: String)
    ensures
        out@ == underscored(s@),
{
    let chars = chars_of(s);
    let mut out = String::new();
    let mut i: usize = 0;
    while i < chars.len()
        invariant
            i <= chars@.len(),
            chars@ == s@,
            out@ == underscored(s@.take(i as int)),
        decreases chars@.len() - i,
    {
        let c = chars[i];
        let put = if c == ' ' {
            '_'
        } else {
            c
        };
        push_char(&mut out, put);
        assert(out@ =~= underscored(s@.take(i + 1)));
        i += 1;
    }
    assert(s@.take(i as int) =~= s@);
    out
}

/// Brings a name, a code or a request into normal form: white space at both
/// ends is dropped, what is left is put in uppercase, and every space in the
/// result becomes an underscore.
pub fn normalize_string(request: &str) -> (out: String)
    ensures
        out@ == normalized(request@),
{
    let bare = trim(request);
    let raised = to_uppercase(bare.as_str());
    replace_spaces(raised.as_str())
}

/// Whether `s` is in normal form: no white space at either end, its own
/// uppercase equivalent, and no space anywhere.
pub open spec fn is_normal(s: Seq<char>) -> bool {
    &&& s.len() > 0 ==> !is_whitespace(s[0]) && !is_whitespace(s.last())
    &&& uppercase_of(s) == s
    &&& forall|i: int| 0 <= i < s.len() ==> #[trigger] s[i] != ' '
}

/// Trimming leaves no white space at either end.
pub proof fn trimmed_has_clean_ends(s: Seq<char>)
    ensures
        trimmed(s).len() > 0 ==> !is_whitespace(trimmed(s)[0]) && !is_whitespace(
            trimmed(s).last(),
        ),
{
    let lead = span(s, CharClass::Space);
    let trail = span_back(s, CharClass::Space);
    lemma_span_bounds(s, CharClass::Space);
    lemma_span_back_bounds(s, CharClass::Space);
    if lead < s.len() {
        assert(!in_class(CharClass::Space, s[lead as int]));
        assert(lead < s.len() - trail);
    }
}

/// Trimming a second time changes nothing.
pub proof fn trimming_is_idempotent(s: Seq<char>)
    ensures
        trimmed(trimmed(s)) == trimmed(s),
{
    trimmed_has_clean_ends(s);
    lemma_clean_ends_are_kept(trimmed(s));
}

/// A text without white space at its ends is what trimming it gives.
proof fn lemma_clean_ends_are_kept(s: Seq<char>)
    requires
        s.len() > 0 ==> !is_whitespace(s[0]) && !is_whitespace(s.last()),
    ensures
        trimmed(s) == s,
{
    if s.len() > 0 {
        lemma_span_is(s, CharClass::Space, 0);
        lemma_span_back_is(s, CharClass::Space, 0);
    }
    assert(trimmed(s) =~= s);
}

/// The normal form of any text holds no space.
pub proof fn normal_form_has_no_space(s: Seq<char>)
    ensures
        forall|i: int| 0 <= i < normalized(s).len() ==> #[trigger] normalized(s)[i] != ' ',
        underscored(normalized(s)) == normalized(s),
{
    assert(underscored(normalized(s)) =~= normalized(s));
}

/// A text in normal form is its own normal form.
pub proof fn normal_form_is_fixed(s: Seq<char>)
    ensures
        is_normal(s) ==> normalized(s) == s,
{
    if is_normal(s) {
        lemma_clean_ends_are_kept(s);
        assert(underscored(s) =~= s);
    }
}

/// Normalising a second time changes nothing, for every text whose normal
/// form has no white space at its ends and is its own uppercase equivalent.
pub proof fn normalizing_again_keeps_a_normal_form(s: Seq<char>)
    ensures
        ({
            let n = normalized(s);
            (n.len() > 0 ==> !is_whitespace(n[0]) && !is_whitespace(n.last())) && uppercase_of(n)
                == n
        }) ==> is_normal(normalized(s)) && normalized(normalized(s)) == normalized(s),
{
    normal_form_has_no_space(s);
    normal_form_is_fixed(normalized(s));
}

} // verus!
