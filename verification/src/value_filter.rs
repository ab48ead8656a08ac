//! The configurable rule set that drops single sample values before export.

use vstd::prelude::*;
use crate::text::{
    chars_of, eq_ignore_ascii_case, lemma_first_index_is, lemma_leading_is, lemma_trailing_is,
    pieces, range_is, range_is_ignore_ascii_case, ranges_within, split, split_ranges, strip_range,
    trimmed, CharClass,
};

verus! {

/// Which of the three value rules are switched on.
#[derive(Clone, Copy, Debug, PartialEq, Eq, Structural)]
pub struct FilterRules {
    /// Drop a value that reads `0` or `0.0`.
    pub skip_zero: bool,
    /// Drop an empty value.
    pub skip_empty: bool,
    /// Drop a value that reads `none`, `null` or `n/a` in any letter case.
    pub skip_none: bool,
}

/// Whether the comma-separated rule list `filter` holds the token `rule`, whitespace
/// around a token not counting.
pub open spec fn names_rule(filter: Seq<char>, rule: Seq<char>) -> bool {
    exists|k: int| 0 <= k < split(filter, ',').len() && trimmed(#[trigger] split(filter, ',')[k]) == rule
}

/// The rules that a rule list switches on. Tokens that name no rule have no effect.
pub open spec fn rules_of(filter: Seq<char>) -> FilterRules {
    FilterRules {
        skip_zero: names_rule(filter, "skip_zero"@),
        skip_empty: names_rule(filter, "skip_empty"@),
        skip_none: names_rule(filter, "skip_none"@),
    }
}

/// Whether `value` reads `0` or `0.0`.
pub open spec fn is_zero_text(value: Seq<char>) -> bool {
    value == "0"@ || value == "0.0"@
}

/// Whether `value` reads `none`, `null` or `n/a`, in any letter case.
pub open spec fn is_none_text(value: Seq<char>) -> bool {
    ||| eq_ignore_ascii_case(value, "none"@)
    ||| eq_ignore_ascii_case(value, "null"@)
    ||| eq_ignore_ascii_case(value, "n/a"@)
}

/// Whether the rules drop `value`: any one rule that matches is enough.
pub open spec fn rules_skip(rules: FilterRules, value: Seq<char>) -> bool {
    ||| rules.skip_zero && is_zero_text(value)
    ||| rules.skip_empty && value.len() == 0
    ||| rules.skip_none && is_none_text(value)
}

/// Whether the rule list `filter` drops `value`.
pub open spec fn should_skip(value: Seq<char>, filter: Seq<char>) -> bool {
    rules_skip(rules_of(filter), value)
}

impl FilterRules {
    /// Reads a comma-separated rule list.
    pub fn parse(filter: &str) -> (rules: FilterRules)
        ensures
            rules == rules_of(filter@),
    {
        let text = chars_of(filter);
        let ranges = split_ranges(text.as_slice(), ',');
        let mut rules = FilterRules { skip_zero: false, skip_empty: false, skip_none: false };
        let mut i: usize = 0;
        while i < ranges.len()
            invariant
                i <= ranges.len(),
                text@ == filter@,
                ranges_within(ranges@, text@.len()),
                pieces(text@, ranges@) == split(filter@, ','),
                rules.skip_zero == (exists|k: int|
                    0 <= k < i && trimmed(#[trigger] split(filter@, ',')[k]) == "skip_zero"@),
                rules.skip_empty == (exists|k: int|
                    0 <= k < i && trimmed(#[trigger] split(filter@, ',')[k]) == "skip_empty"@),
                rules.skip_none == (exists|k: int|
                    0 <= k < i && trimmed(#[trigger] split(filter@, ',')[k]) == "skip_none"@),
            decreases ranges.len() - i,
        {
            let range = ranges[i];
            let token = strip_range(text.as_slice(), range.0, range.1, CharClass::Whitespace);
            proof {
                assert(pieces(text@, ranges@)[i as int] == text@.subrange(
                    range.0 as int,
                    range.1 as int,
                ));
            }
            if range_is(text.as_slice(), token.0, token.1, "skip_zero") {
                rules.skip_zero = true;
            }
            if range_is(text.as_slice(), token.0, token.1, "skip_empty") {
                rules.skip_empty = true;
            }
            if range_is(text.as_slice(), token.0, token.1, "skip_none") {
                rules.skip_none = true;
            }
            i += 1;
        }
        rules
    }

    /// Whether the rules drop the value `v[start..end]`.
    pub fn skips(&self, v: &[char], start: usize, end: usize) -> (b: bool)
        requires
            start <= end <= v.len(),
        ensures
            b == rules_skip(*self, v@.subrange(start as int, end as int)),
    {
        (self.skip_zero && (range_is(v, start, end, "0") || range_is(v, start, end, "0.0")))
            || (self.skip_empty && start == end) || (self.skip_none && (range_is_ignore_ascii_case(
            v,
            start,
            end,
            "none",
        ) || range_is_ignore_ascii_case(v, start, end, "null") || range_is_ignore_ascii_case(
            v,
            start,
            end,
            "n/a",
        )))
    }
}

/// Whether `value` is dropped under the comma-separated rule list `filter`.
///
/// The rules are `skip_zero`, `skip_empty` and `skip_none`; each is looked at on its
/// own and one match is enough. Unknown tokens are ignored.
pub fn should_skip_value(value: &str, filter: &str) -> (skip: bool)
    ensures
        skip == should_skip(value@, filter@),
{
    let rules = FilterRules::parse(filter);
    let text = chars_of(value);
    let skip = rules.skips(text.as_slice(), 0, text.len());
    proof {
        assert(text@.subrange(0, text@.len() as int) == value@);
    }
    skip
}

/// Under the rule list `skip_zero`, a value is dropped exactly when it reads `0` or
/// `0.0`.
pub proof fn law_skip_zero(value: Seq<char>)
    ensures
        should_skip(value, "skip_zero"@) <==> (value == "0"@ || value == "0.0"@),
{
    reveal_strlit("skip_zero");
    reveal_strlit("skip_empty");
    reveal_strlit("skip_none");
    let filter = "skip_zero"@;
    lemma_first_index_is(filter, ',', filter.len());
    assert(split(filter, ',') == seq![filter]);
    lemma_leading_is(filter, CharClass::Whitespace, 0);
    assert(filter.skip(0) == filter);
    lemma_trailing_is(filter, CharClass::Whitespace, 0);
    assert(filter.take(filter.len() as int) == filter);
    assert(trimmed(split(filter, ',')[0]) == filter);
    assert(names_rule(filter, "skip_zero"@));
    assert(filter.len() != "skip_empty"@.len());
    assert(filter[5] != "skip_none"@[5]);
    assert(!names_rule(filter, "skip_empty"@));
    assert(!names_rule(filter, "skip_none"@));
}

} // verus!
