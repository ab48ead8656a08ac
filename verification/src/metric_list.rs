//! Lists of metric names as text, one name per line: the inventory that the
//! inventory utility prints, and the cache of validated metrics.

use vstd::prelude::*;
use vstd::string::StringExecFns;
use crate::text::{
    chars_of, is_whitespace, lemma_first_index_is, lemma_leading_is, lemma_split_pieces,
    lemma_strip, lemma_trailing_is, pieces, push_char, ranges_within, split, split_ranges,
    string_of, strip_range, texts, trimmed, CharClass,
};

verus! {

/// The names that the lines hold: each line without surrounding whitespace, blank
/// lines left out.
pub open spec fn listed_names(lines: Seq<Seq<char>>) -> Seq<Seq<char>>
    decreases lines.len(),
{
    if lines.len() == 0 {
        Seq::empty()
    } else {
        let before = listed_names(lines.drop_last());
        let name = trimmed(lines.last());
        if name.len() > 0 {
            before.push(name)
        } else {
            before
        }
    }
}

/// The names that a text holds, one per line.
pub open spec fn metric_list(text: Seq<char>) -> Seq<Seq<char>> {
    listed_names(split(text, '\n'))
}

/// The text that holds `names`, each on a line of its own.
pub open spec fn rendered(names: Seq<Seq<char>>) -> Seq<char>
    decreases names.len(),
{
    if names.len() == 0 {
        Seq::empty()
    } else {
        names[0] + seq!['\n'] + rendered(names.drop_first())
    }
}

/// Whether `name` can stand on a line of a metric list and be read back: it is not
/// empty, has no whitespace at either end and no line feed anywhere.
pub open spec fn is_plain_name(name: Seq<char>) -> bool {
    &&& name.len() > 0
    &&& !is_whitespace(name[0])
    &&& !is_whitespace(name.last())
    &&& forall|i: int| 0 <= i < name.len() ==> name[i] != '\n'
}

/// Reads a list of metric names, one per line. Whitespace around a name and blank
/// lines are passed over.
pub fn parse_metric_list(text: &str) -> (names: Vec<String>)
    ensures
        texts(names@) == metric_list(text@),
{
    let chars = chars_of(text);
    let ranges = split_ranges(chars.as_slice(), '\n');
    let ghost lines = split(text@, '\n');
    let mut names: Vec<String> = Vec::new();
    let mut i: usize = 0;
    proof {
        assert(lines.take(0) == Seq::<Seq<char>>::empty());
        assert(texts(names@) == Seq::<Seq<char>>::empty());
    }
    while i < ranges.len()
        invariant
            i <= ranges.len(),
            chars@ == text@,
            lines == split(text@, '\n'),
            ranges_within(ranges@, chars@.len()),
            pieces(chars@, ranges@) == lines,
            texts(names@) == listed_names(lines.take(i as int)),
        decreases ranges.len() - i,
    {
        let range = ranges[i];
        proof {
            assert(lines[i as int] == chars@.subrange(range.0 as int, range.1 as int));
            assert(lines.take(i + 1).drop_last() == lines.take(i as int));
            assert(lines.take(i + 1).last() == lines[i as int]);
        }
        let inner = strip_range(chars.as_slice(), range.0, range.1, CharClass::Whitespace);
        if inner.0 < inner.1 {
            let name = string_of(chars.as_slice(), inner.0, inner.1);
            proof {
                assert(texts(names@.push(name)) == texts(names@).push(name@));
            }
            names.push(name);
        }
        i += 1;
    }
    proof {
        assert(lines.take(ranges@.len() as int) == lines);
    }
    names
}

/// Writes a list of metric names as text, each name followed by a line feed.
pub fn render_metric_list(names: &[String]) -> (text: String)
    ensures
        text@ == rendered(texts(names@)),
{
    let ghost all = texts(names@);
    let mut text = String::new();
    let mut i: usize = 0;
    proof {
        assert(all.take(0) == Seq::<Seq<char>>::empty());
    }
    while i < names.len()
        invariant
            i <= names.len(),
            all == texts(names@),
            text@ == rendered(all.take(i as int)),
        decreases names.len() - i,
    {
        proof {
            lemma_rendered_push(all.take(i as int), all[i as int]);
            assert(all.take(i + 1) == all.take(i as int).push(all[i as int]));
        }
        text.append(names[i].as_str());
        push_char(&mut text, '\n');
        i += 1;
    }
    proof {
        assert(all.take(names@.len() as int) == all);
    }
    text
}

/// The validated metrics that a run can use without validating again: the names
/// that the cache holds, or none where validation is forced or there is no cache.
pub open spec fn cached_metrics(cache: Option<Seq<char>>, force_revalidate: bool) -> Option<
    Seq<Seq<char>>,
> {
    if force_revalidate {
        None
    } else {
        match cache {
            Some(text) => Some(metric_list(text)),
            None => None,
        }
    }
}

/// The text of a string slice that may be there.
pub open spec fn option_text(text: Option<&str>) -> Option<Seq<char>> {
    match text {
        Some(t) => Some(t@),
        None => None,
    }
}

/// The texts of a list of strings that may be there.
pub open spec fn option_list(list: Option<Vec<String>>) -> Option<Seq<Seq<char>>> {
    match list {
        Some(names) => Some(texts(names@)),
        None => None,
    }
}

/// The validated metrics to use without validating again: what the cache holds,
/// unless validation is forced or there is no cache. `cache` is the content of the
/// cache, where there is one.
pub fn load_validated_metrics_cache(cache: Option<&str>, force_revalidate: bool) -> (metrics: Option<
    Vec<String>,
>)
    ensures
        option_list(metrics) == cached_metrics(option_text(cache), force_revalidate),
{
    if force_revalidate {
        return None;
    }
    match cache {
        Some(text) => Some(parse_metric_list(text)),
        None => None,
    }
}

/// The content of the cache that holds `metrics`.
pub fn save_validated_metrics_cache(metrics: &[String]) -> (text: String)
    ensures
        text@ == rendered(texts(metrics@)),
{
    render_metric_list(metrics)
}

/// Rendering a list with one more name at its end adds that name's line at the end
/// of the text.
pub proof fn lemma_rendered_push(names: Seq<Seq<char>>, name: Seq<char>)
    ensures
        rendered(names.push(name)) == rendered(names) + name + seq!['\n'],
    decreases names.len(),
{
    let longer = names.push(name);
    if names.len() == 0 {
        assert(longer.drop_first() == Seq::<Seq<char>>::empty());
        assert(rendered(longer.drop_first()) == Seq::<char>::empty());
        assert(rendered(names) == Seq::<char>::empty());
        assert(longer[0] == name);
        assert(rendered(longer) == name + seq!['\n'] + Seq::<char>::empty());
        assert(rendered(longer) == rendered(names) + name + seq!['\n']);
    } else {
        lemma_rendered_push(names.drop_first(), name);
        assert(longer.drop_first() == names.drop_first().push(name));
        assert(longer[0] == names[0]);
        assert(rendered(longer) == names[0] + seq!['\n'] + (rendered(names.drop_first()) + name
            + seq!['\n']));
        assert(rendered(longer) == rendered(names) + name + seq!['\n']);
    }
}

/// Cutting the rendered text at its line feeds gives the names back, and one empty
/// piece after the last line feed.
pub proof fn lemma_split_rendered(names: Seq<Seq<char>>)
    requires
        forall|k: int| 0 <= k < names.len() ==> is_plain_name(#[trigger] names[k]),
    ensures
        split(rendered(names), '\n') == names.push(Seq::<char>::empty()),
    decreases names.len(),
{
    let text = rendered(names);
    if names.len() == 0 {
        assert(split(text, '\n') == seq![text]);
        assert(seq![text] == names.push(Seq::<char>::empty()));
    } else {
        let head = names[0];
        let rest = names.drop_first();
        assert(is_plain_name(head));
        assert forall|k: int| 0 <= k < rest.len() implies is_plain_name(#[trigger] rest[k]) by {
            assert(rest[k] == names[k + 1]);
        }
        lemma_split_rendered(rest);
        assert forall|k: int| 0 <= k < head.len() implies #[trigger] text[k] != '\n' by {
            assert(text[k] == head[k]);
        }
        assert(text[head.len() as int] == '\n');
        lemma_first_index_is(text, '\n', head.len());
        assert(text.take(head.len() as int) == head);
        assert(text.skip(head.len() as int + 1) == rendered(rest));
        assert(seq![head] + rest.push(Seq::<char>::empty()) == names.push(Seq::<char>::empty()));
    }
}

/// A plain name has nothing to trim.
pub proof fn lemma_plain_name_trimmed(name: Seq<char>)
    requires
        is_plain_name(name),
    ensures
        trimmed(name) == name,
{
    lemma_leading_is(name, CharClass::Whitespace, 0);
    assert(name.skip(0) == name);
    lemma_trailing_is(name, CharClass::Whitespace, 0);
    assert(name.take(name.len() as int) == name);
}

/// Lines that are plain names are all listed.
pub proof fn lemma_listed_plain_names(names: Seq<Seq<char>>)
    requires
        forall|k: int| 0 <= k < names.len() ==> is_plain_name(#[trigger] names[k]),
    ensures
        listed_names(names) == names,
    decreases names.len(),
{
    if names.len() > 0 {
        let init = names.drop_last();
        assert forall|k: int| 0 <= k < init.len() implies is_plain_name(#[trigger] init[k]) by {
            assert(init[k] == names[k]);
        }
        lemma_listed_plain_names(init);
        assert(is_plain_name(names.last()));
        lemma_plain_name_trimmed(names.last());
        assert(init.push(names.last()) == names);
    }
}

/// The names that are listed from lines without a line feed are plain.
pub proof fn lemma_listed_names_plain(lines: Seq<Seq<char>>)
    requires
        forall|k: int, i: int|
            0 <= k < lines.len() && 0 <= i < lines[k].len() ==> #[trigger] lines[k][i] != '\n',
    ensures
        forall|j: int|
            0 <= j < listed_names(lines).len() ==> is_plain_name(#[trigger] listed_names(lines)[j]),
    decreases lines.len(),
{
    if lines.len() > 0 {
        let init = lines.drop_last();
        let line = lines.last();
        let name = trimmed(line);
        assert forall|k: int, i: int| 0 <= k < init.len() && 0 <= i < init[k].len() implies #[trigger] init[k][i]
            != '\n' by {
            assert(init[k][i] == lines[k][i]);
        }
        lemma_listed_names_plain(init);
        lemma_strip(line, CharClass::Whitespace);
        if name.len() > 0 {
            let (a, b) = choose|a: int, b: int|
                0 <= a <= b <= line.len() && name == line.subrange(a, b);
            assert forall|i: int| 0 <= i < name.len() implies name[i] != '\n' by {
                assert(name[i] == lines[lines.len() - 1][a + i]);
            }
            assert(is_plain_name(name));
            assert forall|j: int| 0 <= j < listed_names(lines).len() implies is_plain_name(
                #[trigger] listed_names(lines)[j],
            ) by {
                if j < listed_names(init).len() {
                    assert(listed_names(lines)[j] == listed_names(init)[j]);
                }
            }
        }
    }
}

/// Every name that is read from a text is plain.
pub proof fn lemma_metric_list_plain(text: Seq<char>)
    ensures
        forall|j: int|
            0 <= j < metric_list(text).len() ==> is_plain_name(#[trigger] metric_list(text)[j]),
{
    lemma_split_pieces(text, '\n');
    lemma_listed_names_plain(split(text, '\n'));
}

/// Saving a list of validated metrics and loading it again, without forcing
/// validation, gives the same names in the same order. This holds of every list
/// whose names are plain.
pub proof fn law_cache_round_trip(names: Seq<Seq<char>>)
    requires
        forall|k: int| 0 <= k < names.len() ==> is_plain_name(#[trigger] names[k]),
    ensures
        metric_list(rendered(names)) == names,
        cached_metrics(Some(rendered(names)), false) == Some(names),
{
    lemma_split_rendered(names);
    lemma_listed_plain_names(names);
    let lines = names.push(Seq::<char>::empty());
    assert(lines.drop_last() == names);
    lemma_leading_is(Seq::<char>::empty(), CharClass::Whitespace, 0);
    assert(trimmed(lines.last()).len() == 0);
}

/// A list of metrics that was read from a text, be it an inventory or a cache, is
/// read back unchanged after it was saved.
pub proof fn law_read_list_round_trip(text: Seq<char>)
    ensures
        metric_list(rendered(metric_list(text))) == metric_list(text),
{
    lemma_metric_list_plain(text);
    law_cache_round_trip(metric_list(text));
}

} // verus!
