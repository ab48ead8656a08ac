//! Character-level text helpers shared by the parsers.
//!
//! Text is modelled as `Seq<char>`. The executable functions work on a slice of
//! characters and on half-open index ranges into it, so that splitting and trimming
//! a line allocates nothing per field.

use vstd::prelude::*;
use vstd::std_specs::iter::IteratorSpec;

verus! {

/// The classes of characters that the parsers scan for.
#[derive(Clone, Copy, Debug)]
pub enum CharClass {
    /// Characters with the Unicode `White_Space` property.
    Whitespace,
    /// The double quote `"`.
    Quote,
    /// The decimal digits `0` to `9`.
    Digit,
}

/// The code points with the Unicode `White_Space` property.
pub open spec fn is_whitespace(c: char) -> bool {
    let n = c as u32;
    ||| 0x09 <= n <= 0x0D
    ||| n == 0x20
    ||| n == 0x85
    ||| n == 0xA0
    ||| n == 0x1680
    ||| 0x2000 <= n <= 0x200A
    ||| n == 0x2028
    ||| n == 0x2029
    ||| n == 0x202F
    ||| n == 0x205F
    ||| n == 0x3000
}

/// Whether `c` belongs to `class`.
pub open spec fn in_class(class: CharClass, c: char) -> bool {
    match class {
        CharClass::Whitespace => is_whitespace(c),
        CharClass::Quote => c == '"',
        CharClass::Digit => '0' <= c && c <= '9',
    }
}

/// Number of characters at the front of `s` that belong to `class`.
pub open spec fn leading(s: Seq<char>, class: CharClass) -> nat
    decreases s.len(),
{
    if s.len() > 0 && in_class(class, s[0]) {
        1 + leading(s.drop_first(), class)
    } else {
        0
    }
}

/// Number of characters at the back of `s` that belong to `class`.
pub open spec fn trailing(s: Seq<char>, class: CharClass) -> nat
    decreases s.len(),
{
    if s.len() > 0 && in_class(class, s.last()) {
        1 + trailing(s.drop_last(), class)
    } else {
        0
    }
}

/// `s` without its leading characters of `class`.
pub open spec fn strip_start(s: Seq<char>, class: CharClass) -> Seq<char> {
    s.skip(leading(s, class) as int)
}

/// `s` without its trailing characters of `class`.
pub open spec fn strip_end(s: Seq<char>, class: CharClass) -> Seq<char> {
    s.take(s.len() - trailing(s, class))
}

/// `s` without the characters of `class` at either end.
pub open spec fn strip(s: Seq<char>, class: CharClass) -> Seq<char> {
    strip_end(strip_start(s, class), class)
}

/// `s` without surrounding whitespace.
pub open spec fn trimmed(s: Seq<char>) -> Seq<char> {
    strip(s, CharClass::Whitespace)
}

/// `s` without surrounding whitespace and then without surrounding double quotes.
pub open spec fn unquoted(s: Seq<char>) -> Seq<char> {
    strip(trimmed(s), CharClass::Quote)
}

/// Position of the first `d` in `s`, or `s.len()` where there is none.
pub open spec fn first_index<T>(s: Seq<T>, d: T) -> nat
    decreases s.len(),
{
    if s.len() == 0 || s[0] == d {
        0
    } else {
        1 + first_index(s.drop_first(), d)
    }
}

/// The pieces of `s` between occurrences of the delimiter `d`. There is always one
/// piece more than there are delimiters, so the empty text has one empty piece.
pub open spec fn split(s: Seq<char>, d: char) -> Seq<Seq<char>>
    decreases s.len(),
{
    let i = first_index(s, d) as int;
    if i >= s.len() {
        seq![s]
    } else {
        seq![s.take(i)] + split(s.skip(i + 1), d)
    }
}

/// Code point of the lower-case form of an ASCII letter; of any other character,
/// its own code point.
pub open spec fn ascii_lower(c: char) -> u32 {
    if 'A' <= c && c <= 'Z' {
        ((c as u32) + 32) as u32
    } else {
        c as u32
    }
}

/// Whether `a` and `b` are equal up to the case of ASCII letters.
pub open spec fn eq_ignore_ascii_case(a: Seq<char>, b: Seq<char>) -> bool {
    a.len() == b.len() && forall|i: int| 0 <= i < a.len() ==> ascii_lower(#[trigger] a[i]) == ascii_lower(b[i])
}

/// Whether `s` begins with `prefix`.
pub open spec fn starts_with(s: Seq<char>, prefix: Seq<char>) -> bool {
    prefix.len() <= s.len() && s.take(prefix.len() as int) == prefix
}

/// The texts of a sequence of strings.
pub open spec fn texts(v: Seq<String>) -> Seq<Seq<char>> {
    v.map_values(|s: String| s@)
}

/// The texts that the ranges cut out of `v`.
pub open spec fn pieces(v: Seq<char>, ranges: Seq<(usize, usize)>) -> Seq<Seq<char>> {
    Seq::new(ranges.len(), |k: int| v.subrange(ranges[k].0 as int, ranges[k].1 as int))
}

/// Whether every range lies inside a text of length `len`.
pub open spec fn ranges_within(ranges: Seq<(usize, usize)>, len: nat) -> bool {
    forall|k: int| 0 <= k < ranges.len() ==> (#[trigger] ranges[k]).0 <= ranges[k].1 <= len
}

/// The leading characters of a class are of the class, and the character after
/// them, if there is one, is not.
pub proof fn lemma_leading_bound(s: Seq<char>, class: CharClass)
    ensures
        leading(s, class) <= s.len(),
        forall|k: int| 0 <= k < leading(s, class) ==> in_class(class, #[trigger] s[k]),
        leading(s, class) < s.len() ==> !in_class(class, s[leading(s, class) as int]),
    decreases s.len(),
{
    if s.len() > 0 && in_class(class, s[0]) {
        let t = s.drop_first();
        lemma_leading_bound(t, class);
        assert forall|k: int| 0 <= k < leading(s, class) implies in_class(class, #[trigger] s[k]) by {
            if k > 0 {
                assert(s[k] == t[k - 1]);
            }
        }
        if leading(s, class) < s.len() {
            assert(s[leading(s, class) as int] == t[leading(t, class) as int]);
        }
    }
}

/// The trailing characters of a class are of the class, and the character before
/// them, if there is one, is not.
pub proof fn lemma_trailing_bound(s: Seq<char>, class: CharClass)
    ensures
        trailing(s, class) <= s.len(),
        forall|k: int| s.len() - trailing(s, class) <= k < s.len() ==> in_class(class, #[trigger] s[k]),
        trailing(s, class) < s.len() ==> !in_class(class, s[s.len() - trailing(s, class) - 1]),
    decreases s.len(),
{
    if s.len() > 0 && in_class(class, s.last()) {
        let t = s.drop_last();
        lemma_trailing_bound(t, class);
        assert forall|k: int| s.len() - trailing(s, class) <= k < s.len() implies in_class(class, #[trigger] s[k]) by {
            if k < s.len() - 1 {
                assert(s[k] == t[k]);
            }
        }
        if trailing(s, class) < s.len() {
            assert(s[s.len() - trailing(s, class) - 1] == t[t.len() - trailing(t, class) - 1]);
        }
    }
}

/// A text whose first `n` characters are in `class`, and whose next one is not, has
/// exactly `n` leading characters of the class.
pub proof fn lemma_leading_is(s: Seq<char>, class: CharClass, n: nat)
    requires
        n <= s.len(),
        forall|k: int| 0 <= k < n ==> in_class(class, #[trigger] s[k]),
        n < s.len() ==> !in_class(class, s[n as int]),
    ensures
        leading(s, class) == n,
    decreases n,
{
    if n > 0 {
        let t = s.drop_first();
        assert forall|k: int| 0 <= k < n - 1 implies in_class(class, #[trigger] t[k]) by {
            assert(t[k] == s[k + 1]);
        }
        lemma_leading_is(t, class, (n - 1) as nat);
    }
}

/// The mirror image of `lemma_leading_is` for the back of a text.
pub proof fn lemma_trailing_is(s: Seq<char>, class: CharClass, n: nat)
    requires
        n <= s.len(),
        forall|k: int| s.len() - n <= k < s.len() ==> in_class(class, #[trigger] s[k]),
        n < s.len() ==> !in_class(class, s[s.len() - n - 1]),
    ensures
        trailing(s, class) == n,
    decreases n,
{
    if n > 0 {
        let t = s.drop_last();
        assert forall|k: int| t.len() - (n - 1) <= k < t.len() implies in_class(class, #[trigger] t[k]) by {
            assert(t[k] == s[k]);
        }
        lemma_trailing_is(t, class, (n - 1) as nat);
    }
}

/// Nothing before the first `d` is `d`, and what stands there, if anything, is `d`.
pub proof fn lemma_first_index_bound<T>(s: Seq<T>, d: T)
    ensures
        first_index(s, d) <= s.len(),
        forall|k: int| 0 <= k < first_index(s, d) ==> #[trigger] s[k] != d,
        first_index(s, d) < s.len() ==> s[first_index(s, d) as int] == d,
    decreases s.len(),
{
    if !(s.len() == 0 || s[0] == d) {
        let t = s.drop_first();
        lemma_first_index_bound(t, d);
        assert forall|k: int| 0 <= k < first_index(s, d) implies #[trigger] s[k] != d by {
            if k > 0 {
                assert(s[k] == t[k - 1]);
            }
        }
    }
}

/// A text whose first `n` characters differ from `d`, and whose next one (if any) is
/// `d`, has its first `d` at `n`.
pub proof fn lemma_first_index_is<T>(s: Seq<T>, d: T, n: nat)
    requires
        n <= s.len(),
        forall|k: int| 0 <= k < n ==> #[trigger] s[k] != d,
        n < s.len() ==> s[n as int] == d,
    ensures
        first_index(s, d) == n,
    decreases n,
{
    if n > 0 {
        let t = s.drop_first();
        assert forall|k: int| 0 <= k < n - 1 implies #[trigger] t[k] != d by {
            assert(t[k] == s[k + 1]);
        }
        lemma_first_index_is(t, d, (n - 1) as nat);
    }
}

/// No piece of a split holds the delimiter.
pub proof fn lemma_split_pieces(s: Seq<char>, d: char)
    ensures
        forall|k: int, i: int|
            0 <= k < split(s, d).len() && 0 <= i < split(s, d)[k].len() ==> #[trigger] split(
                s,
                d,
            )[k][i] != d,
    decreases s.len(),
{
    let at = first_index(s, d) as int;
    lemma_first_index_bound(s, d);
    if at < s.len() {
        let rest = s.skip(at + 1);
        lemma_split_pieces(rest, d);
        assert forall|k: int, i: int|
            0 <= k < split(s, d).len() && 0 <= i < split(s, d)[k].len() implies #[trigger] split(
            s,
            d,
        )[k][i] != d by {
            if k == 0 {
                assert(split(s, d)[0] == s.take(at));
                assert(s.take(at)[i] == s[i]);
            } else {
                assert(split(s, d)[k] == split(rest, d)[k - 1]);
            }
        }
    }
}

/// What is left of a text after stripping is a stretch of the text, and where it is
/// not empty it neither begins nor ends with a character of the class.
pub proof fn lemma_strip(s: Seq<char>, class: CharClass)
    ensures
        exists|a: int, b: int| 0 <= a <= b <= s.len() && strip(s, class) == s.subrange(a, b),
        strip(s, class).len() > 0 ==> !in_class(class, strip(s, class)[0]) && !in_class(
            class,
            strip(s, class).last(),
        ),
{
    lemma_leading_bound(s, class);
    let a = leading(s, class) as int;
    let rest = s.skip(a);
    lemma_trailing_bound(rest, class);
    let b = s.len() - trailing(rest, class);
    assert(strip(s, class) == s.subrange(a, b));
    if strip(s, class).len() > 0 {
        assert(strip(s, class)[0] == s[a]);
        assert(strip(s, class).last() == rest[rest.len() - trailing(rest, class) - 1]);
    }
}

/// The lower-case form of a text under the Unicode case mappings, as the standard
/// library's `str::to_lowercase` gives it.
pub uninterp spec fn lowercased(text: Seq<char>) -> Seq<char>;

/// Calls `str::to_lowercase` of the standard library, which maps the text to lower
/// case under the Unicode case mappings. The result depends on the text alone and is
/// named `lowercased`.
#[verifier::external_body]
pub(crate) fn to_lowercase(text: &str) -> (lower: String)
    ensures
        lower@ == lowercased(text@),
{
    text.to_lowercase()
}

/// The characters of `s`, in order.
pub fn chars_of(s: &str) -> (v: Vec<char>)
    ensures
        v@ == s@,
{
    broadcast use vstd::string::group_string_axioms;

    let mut v: Vec<char> = Vec::new();
    for c in it: s.chars()
        invariant
            it.seq() == s@,
            v@ == it.seq().take(it.index()),
    {
        v.push(c);
    }
    v
}

/// Appends one character to a string: `String::push` of the standard library, which
/// adds the character at the end and changes nothing else.
#[verifier::external_body]
pub(crate) fn push_char(s: &mut String, c: char)
    ensures
        final(s)@ == old(s)@.push(c),
{
    s.push(c)
}

/// The string made of the characters `v[start..end]`.
pub fn string_of(v: &[char], start: usize, end: usize) -> (s: String)
    requires
        start <= end <= v.len(),
    ensures
        s@ == v@.subrange(start as int, end as int),
{
    let mut s = String::new();
    let mut i: usize = start;
    while i < end
        invariant
            start <= i <= end <= v.len(),
            s@ == v@.subrange(start as int, i as int),
        decreases end - i,
    {
        push_char(&mut s, v[i]);
        i += 1;
    }
    s
}

/// Whether `c` has the Unicode `White_Space` property.
pub fn char_is_whitespace(c: char) -> (b: bool)
    ensures
        b == is_whitespace(c),
{
    let n: u32 = c as u32;
    (0x09 <= n && n <= 0x0D) || n == 0x20 || n == 0x85 || n == 0xA0 || n == 0x1680 || (0x2000 <= n
        && n <= 0x200A) || n == 0x2028 || n == 0x2029 || n == 0x202F || n == 0x205F || n == 0x3000
}

/// Whether `c` belongs to `class`.
pub fn char_in_class(class: CharClass, c: char) -> (b: bool)
    ensures
        b == in_class(class, c),
{
    match class {
        CharClass::Whitespace => char_is_whitespace(c),
        CharClass::Quote => c == '"',
        CharClass::Digit => '0' <= c && c <= '9',
    }
}

/// The end of the run of characters of `class` that begins at `start`.
pub fn skip_class(v: &[char], start: usize, end: usize, class: CharClass) -> (a: usize)
    requires
        start <= end <= v.len(),
    ensures
        start <= a <= end,
        a - start == leading(v@.subrange(start as int, end as int), class),
{
    let ghost whole = v@.subrange(start as int, end as int);
    let mut a: usize = start;
    while a < end && char_in_class(class, v[a])
        invariant
            start <= a <= end <= v.len(),
            forall|k: int| start <= k < a ==> in_class(class, #[trigger] v@[k]),
        decreases end - a,
    {
        a += 1;
    }
    proof {
        assert forall|k: int| 0 <= k < a - start implies in_class(class, #[trigger] whole[k]) by {
            assert(whole[k] == v@[start + k]);
        }
        lemma_leading_is(whole, class, (a - start) as nat);
    }
    a
}

/// Narrows the range `start..end` of `v` until neither end is a character of
/// `class`.
pub fn strip_range(v: &[char], start: usize, end: usize, class: CharClass) -> (r: (usize, usize))
    requires
        start <= end <= v.len(),
    ensures
        start <= r.0 <= r.1 <= end,
        v@.subrange(r.0 as int, r.1 as int) == strip(v@.subrange(start as int, end as int), class),
{
    let ghost whole = v@.subrange(start as int, end as int);
    let a = skip_class(v, start, end, class);
    proof {
        assert(strip_start(whole, class) == v@.subrange(a as int, end as int));
    }
    let ghost rest = v@.subrange(a as int, end as int);
    let mut b: usize = end;
    while a < b && char_in_class(class, v[b - 1])
        invariant
            a <= b <= end <= v.len(),
            forall|k: int| b <= k < end ==> in_class(class, #[trigger] v@[k]),
        decreases b - a,
    {
        b -= 1;
    }
    proof {
        assert forall|k: int| rest.len() - (end - b) <= k < rest.len() implies in_class(
            class,
            #[trigger] rest[k],
        ) by {
            assert(rest[k] == v@[a + k]);
        }
        lemma_trailing_is(rest, class, (end - b) as nat);
        assert(strip_end(rest, class) == v@.subrange(a as int, b as int));
    }
    (a, b)
}

/// Narrows the range `start..end` of `v` as `unquoted` does: first surrounding
/// whitespace goes, then surrounding double quotes.
pub fn unquote_range(v: &[char], start: usize, end: usize) -> (r: (usize, usize))
    requires
        start <= end <= v.len(),
    ensures
        start <= r.0 <= r.1 <= end,
        v@.subrange(r.0 as int, r.1 as int) == unquoted(v@.subrange(start as int, end as int)),
{
    let t = strip_range(v, start, end, CharClass::Whitespace);
    strip_range(v, t.0, t.1, CharClass::Quote)
}

/// Cuts `v` at every occurrence of `d` and returns the ranges of the pieces.
pub fn split_ranges(v: &[char], d: char) -> (ranges: Vec<(usize, usize)>)
    ensures
        ranges_within(ranges@, v@.len()),
        pieces(v@, ranges@) == split(v@, d),
        ranges@.len() >= 1,
{
    let mut ranges: Vec<(usize, usize)> = Vec::new();
    let mut start: usize = 0;
    let mut i: usize = 0;
    proof {
        assert(v@.skip(0) == v@);
        assert(pieces(v@, ranges@) + split(v@, d) == split(v@, d));
    }
    while i < v.len()
        invariant
            start <= i <= v.len(),
            ranges_within(ranges@, v@.len()),
            forall|k: int| start <= k < i ==> #[trigger] v@[k] != d,
            split(v@, d) == pieces(v@, ranges@) + split(v@.skip(start as int), d),
        decreases v.len() - i,
    {
        if v[i] == d {
            proof {
                let rest = v@.skip(start as int);
                assert forall|k: int| 0 <= k < i - start implies #[trigger] rest[k] != d by {
                    assert(rest[k] == v@[start + k]);
                }
                lemma_first_index_is(rest, d, (i - start) as nat);
                assert(rest.take(i - start) == v@.subrange(start as int, i as int));
                assert(rest.skip(i - start + 1) == v@.skip(i + 1));
                assert(pieces(v@, ranges@.push((start, i))) == pieces(v@, ranges@) + seq![
                    v@.subrange(start as int, i as int),
                ]);
            }
            ranges.push((start, i));
            start = i + 1;
        }
        i += 1;
    }
    proof {
        let rest = v@.skip(start as int);
        assert forall|k: int| 0 <= k < rest.len() implies #[trigger] rest[k] != d by {
            assert(rest[k] == v@[start + k]);
        }
        lemma_first_index_is(rest, d, rest.len());
        assert(rest == v@.subrange(start as int, v@.len() as int));
        assert(pieces(v@, ranges@.push((start, v.len()))) == pieces(v@, ranges@) + seq![rest]);
    }
    ranges.push((start, v.len()));
    ranges
}

/// Whether the characters `v[start..end]` spell `literal`.
pub fn range_is(v: &[char], start: usize, end: usize, literal: &str) -> (b: bool)
    requires
        start <= end <= v.len(),
    ensures
        b == (v@.subrange(start as int, end as int) == literal@),
{
    broadcast use vstd::string::group_string_axioms;

    let ghost text = v@.subrange(start as int, end as int);
    let mut i: usize = start;
    for c in it: literal.chars()
        invariant
            it.seq() == literal@,
            start <= end <= v.len(),
            i == start + it.index(),
            i <= end,
            text == v@.subrange(start as int, end as int),
            text.take(it.index()) == literal@.take(it.index()),
    {
        if i >= end || v[i] != c {
            proof {
                if i < end {
                    assert(text[i - start] != literal@[i - start]);
                }
            }
            return false;
        }
        proof {
            assert(text.take(it.index() + 1) == text.take(it.index()).push(text[it.index()]));
            assert(literal@.take(it.index() + 1) == literal@.take(it.index()).push(
                literal@[it.index()],
            ));
        }
        i += 1;
    }
    proof {
        assert(literal@.take(literal@.len() as int) == literal@);
        if i == end {
            assert(text.take(text.len() as int) == text);
        }
    }
    i == end
}

/// Code point of the lower-case form of an ASCII letter; of any other character,
/// its own code point.
pub fn char_ascii_lower(c: char) -> (r: u32)
    ensures
        r == ascii_lower(c),
{
    if 'A' <= c && c <= 'Z' {
        (c as u32) + 32
    } else {
        c as u32
    }
}

/// Whether the characters `v[start..end]` spell `literal` up to the case of ASCII
/// letters.
pub fn range_is_ignore_ascii_case(v: &[char], start: usize, end: usize, literal: &str) -> (b: bool)
    requires
        start <= end <= v.len(),
    ensures
        b == eq_ignore_ascii_case(v@.subrange(start as int, end as int), literal@),
{
    broadcast use vstd::string::group_string_axioms;

    let ghost text = v@.subrange(start as int, end as int);
    let mut i: usize = start;
    for c in it: literal.chars()
        invariant
            it.seq() == literal@,
            start <= end <= v.len(),
            i == start + it.index(),
            i <= end,
            text == v@.subrange(start as int, end as int),
            forall|k: int| 0 <= k < it.index() ==> ascii_lower(#[trigger] text[k]) == ascii_lower(literal@[k]),
    {
        if i >= end || char_ascii_lower(v[i]) != char_ascii_lower(c) {
            proof {
                if i < end {
                    assert(ascii_lower(text[i - start]) != ascii_lower(literal@[i - start]));
                }
            }
            return false;
        }
        i += 1;
    }
    i == end
}

/// Whether the characters `v` begin with `prefix`.
pub fn has_prefix(v: &[char], prefix: &str) -> (b: bool)
    ensures
        b == starts_with(v@, prefix@),
{
    broadcast use vstd::string::group_string_axioms;

    let mut i: usize = 0;
    for c in it: prefix.chars()
        invariant
            it.seq() == prefix@,
            i == it.index(),
            i <= v.len(),
            v@.take(it.index()) == prefix@.take(it.index()),
    {
        if i >= v.len() || v[i] != c {
            proof {
                if prefix@.len() <= v.len() {
                    assert(v@.take(prefix@.len() as int)[i as int] != prefix@[i as int]);
                }
            }
            return false;
        }
        proof {
            assert(v@.take(it.index() + 1) == v@.take(it.index()).push(v@[it.index()]));
            assert(prefix@.take(it.index() + 1) == prefix@.take(it.index()).push(
                prefix@[it.index()],
            ));
        }
        i += 1;
    }
    proof {
        assert(prefix@.take(prefix@.len() as int) == prefix@);
    }
    true
}

} // verus!
