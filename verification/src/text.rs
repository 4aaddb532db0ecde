//! Character-level helpers shared by the normaliser and the table parsers.
//!
//! Text is handled as a sequence of characters. The executable functions work
//! on a `Vec<char>` and a pair of bounds, so that a line is decoded once and
//! its fields are cut out without copying in between.

use vstd::prelude::*;
use vstd::std_specs::iter::IteratorSpec;
use vstd::string::StringSliceAdditionalSpecFns;
use vstd::utf8::{decode_utf8, encode_utf8_decode_utf8, valid_utf8};

verus! {

broadcast use vstd::string::group_string_axioms;

/// White space, as the Unicode property `White_Space` lists it.
pub open spec fn is_whitespace(c: char) -> bool {
    let u = c as u32;
    ||| 0x09 <= u <= 0x0D
    ||| u == 0x20
    ||| u == 0x85
    ||| u == 0xA0
    ||| u == 0x1680
    ||| 0x2000 <= u <= 0x200A
    ||| u == 0x2028
    ||| u == 0x2029
    ||| u == 0x202F
    ||| u == 0x205F
    ||| u == 0x3000
}

/// A set of characters that a scan can run over.
#[derive(Clone, Copy)]
pub enum CharClass {
    /// White space.
    Space,
    /// Anything but white space.
    Word,
    /// Anything but the given character.
    Except(char),
}

/// Whether `c` belongs to `class`.
pub open spec fn in_class(class: CharClass, c: char) -> bool {
    match class {
        CharClass::Space => is_whitespace(c),
        CharClass::Word => !is_whitespace(c),
        CharClass::Except(x) => c != x,
    }
}

/// Length of the longest prefix of `s` whose characters all belong to `class`.
pub open spec fn span(s: Seq<char>, class: CharClass) -> nat
    decreases s.len(),
{
    if s.len() > 0 && in_class(class, s[0]) {
        1 + span(s.skip(1), class)
    } else {
        0
    }
}

/// Length of the longest suffix of `s` whose characters all belong to `class`.
pub open spec fn span_back(s: Seq<char>, class: CharClass) -> nat
    decreases s.len(),
{
    if s.len() > 0 && in_class(class, s.last()) {
        1 + span_back(s.drop_last(), class)
    } else {
        0
    }
}

/// A prefix of `n` members of `class` that ends at the end of `s` or at a
/// character outside `class` is the longest one.
pub proof fn lemma_span_is(s: Seq<char>, class: CharClass, n: int)
    requires
        0 <= n <= s.len(),
        forall|j: int| 0 <= j < n ==> in_class(class, #[trigger] s[j]),
        n == s.len() || !in_class(class, s[n]),
    ensures
        span(s, class) == n,
    decreases n,
{
    if n > 0 {
        let t = s.skip(1);
        assert forall|j: int| 0 <= j < n - 1 implies in_class(class, #[trigger] t[j]) by {
            assert(t[j] == s[j + 1]);
        }
        lemma_span_is(t, class, n - 1);
    }
}

/// The same for suffixes: `n` is counted from the end of `s`.
pub proof fn lemma_span_back_is(s: Seq<char>, class: CharClass, n: int)
    requires
        0 <= n <= s.len(),
        forall|j: int| s.len() - n <= j < s.len() ==> in_class(class, #[trigger] s[j]),
        n == s.len() || !in_class(class, s[s.len() - n - 1]),
    ensures
        span_back(s, class) == n,
    decreases n,
{
    if n > 0 {
        let t = s.drop_last();
        assert forall|j: int| t.len() - (n - 1) <= j < t.len() implies in_class(
            class,
            #[trigger] t[j],
        ) by {
            assert(t[j] == s[j]);
        }
        lemma_span_back_is(t, class, n - 1);
    }
}

/// What a span covers and where it stops.
pub proof fn lemma_span_bounds(s: Seq<char>, class: CharClass)
    ensures
        0 <= span(s, class) <= s.len(),
        forall|j: int| 0 <= j < span(s, class) ==> in_class(class, #[trigger] s[j]),
        span(s, class) < s.len() ==> !in_class(class, s[span(s, class) as int]),
    decreases s.len(),
{
    if s.len() > 0 && in_class(class, s[0]) {
        let t = s.skip(1);
        lemma_span_bounds(t, class);
        assert forall|j: int| 0 <= j < span(s, class) implies in_class(class, #[trigger] s[j]) by {
            if j > 0 {
                assert(s[j] == t[j - 1]);
            }
        }
        if span(s, class) < s.len() {
            assert(t[span(t, class) as int] == s[span(s, class) as int]);
        }
    }
}

/// What a backward span covers and where it stops.
pub proof fn lemma_span_back_bounds(s: Seq<char>, class: CharClass)
    ensures
        span_back(s, class) <= s.len(),
        forall|j: int|
            s.len() - span_back(s, class) <= j < s.len() ==> in_class(class, #[trigger] s[j]),
        span_back(s, class) < s.len() ==> !in_class(
            class,
            s[s.len() - span_back(s, class) - 1],
        ),
    decreases s.len(),
{
    if s.len() > 0 && in_class(class, s.last()) {
        let t = s.drop_last();
        lemma_span_back_bounds(t, class);
        assert forall|j: int| s.len() - span_back(s, class) <= j < s.len() implies in_class(
            class,
            #[trigger] s[j],
        ) by {
            if j < s.len() - 1 {
                assert(s[j] == t[j]);
            }
        }
        if span_back(s, class) < s.len() {
            assert(t[t.len() - span_back(t, class) - 1] == s[s.len() - span_back(s, class) - 1]);
        }
    }
}

/// The pieces of `s` between the occurrences of `sep`. There is always at
/// least one piece, and a piece may be empty.
pub open spec fn split_on(s: Seq<char>, sep: char) -> Seq<Seq<char>>
    decreases s.len(),
    via split_on_decreases
{
    let n = span(s, CharClass::Except(sep));
    if n >= s.len() {
        seq![s]
    } else {
        seq![s.take(n as int)] + split_on(s.skip(n as int + 1), sep)
    }
}

#[via_fn]
proof fn split_on_decreases(s: Seq<char>, sep: char) {
    lemma_span_bounds(s, CharClass::Except(sep));
}

/// The words of `s`: its longest runs of characters that are not white space.
pub open spec fn words(s: Seq<char>) -> Seq<Seq<char>>
    decreases s.len(),
    via words_decreases
{
    let rest = s.skip(span(s, CharClass::Space) as int);
    let n = span(rest, CharClass::Word);
    if n == 0 {
        Seq::empty()
    } else {
        seq![rest.take(n as int)] + words(rest.skip(n as int))
    }
}

#[via_fn]
proof fn words_decreases(s: Seq<char>) {
    lemma_span_bounds(s, CharClass::Space);
    lemma_span_bounds(s.skip(span(s, CharClass::Space) as int), CharClass::Word);
}

/// The texts that a list of strings holds.
pub open spec fn texts(v: Seq<String>) -> Seq<Seq<char>> {
    Seq::new(v.len(), |i: int| v[i]@)
}

/// Whether `c` is white space.
pub fn is_space(c: char) -> (b: bool)
    ensures
        b == is_whitespace(c),
{
    let u: u32 = c as u32;
    (0x09 <= u && u <= 0x0D) || u == 0x20 || u == 0x85 || u == 0xA0 || u == 0x1680 || (0x2000 <= u
        && u <= 0x200A) || u == 0x2028 || u == 0x2029 || u == 0x202F || u == 0x205F || u
        == 0x3000
}

/// Whether `c` belongs to `class`.
pub fn class_has(class: CharClass, c: char) -> (b: bool)
    ensures
        b == in_class(class, c),
{
    match class {
        CharClass::Space => is_space(c),
        CharClass::Word => !is_space(c),
        CharClass::Except(x) => c != x,
    }
}

/// Runs forward from `from` over the members of `class`, no further than `to`,
/// and returns where the run ends.
pub fn scan(chars: &Vec<char>, from: usize, to: usize, class: CharClass) -> (end: usize)
    requires
        from <= to <= chars@.len(),
    ensures
        end == from + span(chars@.subrange(from as int, to as int), class),
        from <= end <= to,
{
    let ghost s = chars@.subrange(from as int, to as int);
    let mut i: usize = from;
    while i < to && class_has(class, chars[i])
        invariant
            from <= i <= to <= chars@.len(),
            s == chars@.subrange(from as int, to as int),
            forall|j: int| 0 <= j < i - from ==> in_class(class, #[trigger] s[j]),
        decreases to - i,
    {
        i += 1;
    }
    proof {
        lemma_span_is(s, class, i - from);
    }
    i
}

/// Runs backward from `to` over the members of `class`, no further than
/// `from`, and returns where the run begins.
pub fn scan_back(chars: &Vec<char>, from: usize, to: usize, class: CharClass) -> (start: usize)
    requires
        from <= to <= chars@.len(),
    ensures
        start == to - span_back(chars@.subrange(from as int, to as int), class),
        from <= start <= to,
{
    let ghost s = chars@.subrange(from as int, to as int);
    let mut i: usize = to;
    while i > from && class_has(class, chars[i - 1])
        invariant
            from <= i <= to <= chars@.len(),
            s == chars@.subrange(from as int, to as int),
            forall|j: int| i - from <= j < s.len() ==> in_class(class, #[trigger] s[j]),
        decreases i - from,
    {
        i -= 1;
    }
    proof {
        lemma_span_back_is(s, class, to - i);
    }
    i
}

/// Appends one character to a string.
///
/// Trusted: stands for `String::push`, which appends the given `char` to the
/// end of the string and changes nothing else.
#[verifier::external_body]
pub(crate) fn push_char(s: &mut String, c: char)
    ensures
        final(s)@ == old(s)@.push(c),
{
    s.push(c);
}

/// The text that `str::to_uppercase` gives for the text `s`: its uppercase
/// equivalent by the case mappings of Unicode, in which one character may
/// become several. Nothing more is known of it here.
pub uninterp spec fn uppercase_of(s: Seq<char>) -> Seq<char>;

/// The uppercase equivalent of a text.
///
/// Trusted: stands for `str::to_uppercase`, whose result depends on the text
/// alone. The contract gives that result its name and claims nothing else of
/// it.
#[verifier::external_body]
pub(crate) fn to_uppercase(s: &str) -> (out: String)
    ensures
        out@ == uppercase_of(s@),
{
    s.to_uppercase()
}

/// Reads bytes as UTF-8 text.
///
/// Trusted: stands for `std::str::from_utf8`, which gives the bytes back as a
/// string slice where they are valid UTF-8, and an error, here `None`, where
/// they are not.
#[verifier::external_body]
pub(crate) fn utf8_text(bytes: &[u8]) -> (text: Option<&str>)
    ensures
        match text {
            Some(t) => valid_utf8(bytes@) && t.spec_bytes() == bytes@,
            None => !valid_utf8(bytes@),
        },
{
    std::str::from_utf8(bytes).ok()
}

/// Whether two strings hold the same text.
pub fn same_text(a: &str, b: &str) -> (same: bool)
    ensures
        same == (a@ == b@),
{
    let x = a.as_bytes();
    let y = b.as_bytes();
    proof {
        encode_utf8_decode_utf8(a@);
        encode_utf8_decode_utf8(b@);
    }
    if x.len() != y.len() {
        return false;
    }
    let mut i: usize = 0;
    while i < x.len()
        invariant
            i <= x@.len(),
            x@.len() == y@.len(),
            forall|j: int| 0 <= j < i ==> x@[j] == y@[j],
            x@ == a.spec_bytes(),
            y@ == b.spec_bytes(),
            decode_utf8(a.spec_bytes()) == a@,
            decode_utf8(b.spec_bytes()) == b@,
        decreases x@.len() - i,
    {
        if x[i] != y[i] {
            return false;
        }
        i += 1;
    }
    assert(x@ =~= y@);
    true
}

/// The characters of a string, in order.
pub fn chars_of(s: &str) -> (out: Vec<char>)
    ensures
        out@ == s@,
{
    let mut out: Vec<char> = Vec::new();
    let mut it = s.chars();
    loop
        invariant
            out@ + it.remaining() == s@,
            it.obeys_prophetic_iter_laws(),
            it.decrease() is Some,
        decreases it.decrease()->0,
    {
        match it.next() {
            Some(c) => {
                out.push(c);
            },
            None => {
                return out;
            },
        }
    }
}

/// The string made of the characters `chars[from..to]`.
pub fn string_of(chars: &Vec<char>, from: usize, to: usize) -> (out: String)
    requires
        from <= to <= chars@.len(),
    ensures
        out@ == chars@.subrange(from as int, to as int),
{
    let mut out = String::new();
    let mut i: usize = from;
    while i < to
        invariant
            from <= i <= to <= chars@.len(),
            out@ == chars@.subrange(from as int, i as int),
        decreases to - i,
    {
        push_char(&mut out, chars[i]);
        assert(chars@.subrange(from as int, i as int).push(chars@[i as int])
            =~= chars@.subrange(from as int, i + 1));
        i += 1;
    }
    out
}

/// Whether `s` begins with the character `#`.
pub fn starts_with_hash(s: &str) -> (b: bool)
    ensures
        b == (s@.len() > 0 && s@[0] == '#'),
{
    let mut it = s.chars();
    match it.next() {
        Some(c) => c == '#',
        None => false,
    }
}

/// Cuts `s` at every occurrence of `sep`.
pub fn split(s: &str, sep: char) -> (out: Vec<String>)
    ensures
        texts(out@) == split_on(s@, sep),
{
    let chars = chars_of(s);
    let n = chars.len();
    let mut out: Vec<String> = Vec::new();
    let mut pos: usize = 0;
    assert(chars@.subrange(0, n as int) =~= s@);
    assert(texts(out@) + split_on(s@, sep) =~= split_on(s@, sep));
    loop
        invariant
            pos <= n,
            n == chars@.len(),
            split_on(s@, sep) == texts(out@) + split_on(chars@.subrange(pos as int, n as int), sep),
        decreases n - pos,
    {
        let ghost rest = chars@.subrange(pos as int, n as int);
        let ghost before = texts(out@);
        let end = scan(&chars, pos, n, CharClass::Except(sep));
        let piece = string_of(&chars, pos, end);
        out.push(piece);
        assert(texts(out@) =~= before + seq![piece@]);
        if end == n {
            assert(piece@ =~= rest);
            assert(split_on(s@, sep) =~= texts(out@));
            return out;
        }
        assert(rest.take(end - pos) =~= piece@);
        assert(rest.skip(end - pos + 1) =~= chars@.subrange(end + 1, n as int));
        assert(before + (seq![piece@] + split_on(rest.skip(end - pos + 1), sep)) =~= texts(out@)
            + split_on(rest.skip(end - pos + 1), sep));
        pos = end + 1;
    }
}

/// Cuts `s` into its words.
pub fn split_words(s: &str) -> (out: Vec<String>)
    ensures
        texts(out@) == words(s@),
{
    let chars = chars_of(s);
    let n = chars.len();
    let mut out: Vec<String> = Vec::new();
    let mut pos: usize = 0;
    assert(chars@.subrange(0, n as int) =~= s@);
    assert(texts(out@) + words(s@) =~= words(s@));
    loop
        invariant
            pos <= n,
            n == chars@.len(),
            words(s@) == texts(out@) + words(chars@.subrange(pos as int, n as int)),
        decreases n - pos,
    {
        let ghost rest = chars@.subrange(pos as int, n as int);
        let ghost before = texts(out@);
        let start = scan(&chars, pos, n, CharClass::Space);
        let end = scan(&chars, start, n, CharClass::Word);
        assert(rest.skip(start - pos) =~= chars@.subrange(start as int, n as int));
        if end == start {
            assert(words(s@) =~= texts(out@));
            return out;
        }
        let piece = string_of(&chars, start, end);
        out.push(piece);
        let ghost tail = rest.skip(start - pos);
        assert(texts(out@) =~= before + seq![piece@]);
        assert(tail.take(end - start) =~= piece@);
        assert(tail.skip(end - start) =~= chars@.subrange(end as int, n as int));
        assert(before + (seq![piece@] + words(tail.skip(end - start))) =~= texts(out@) + words(
            tail.skip(end - start),
        ));
        pos = end;
    }
}

} // verus!
