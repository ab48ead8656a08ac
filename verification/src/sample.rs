//! Turning one delimited sample row into a time-series point.

use vstd::prelude::*;
use vstd::std_specs::iter::IteratorSpec;
use crate::number::{is_float_text, range_is_float};
use crate::text::{
    chars_of, eq_ignore_ascii_case, first_index, lemma_first_index_bound, lemma_first_index_is,
    pieces, push_char, range_is_ignore_ascii_case, ranges_within, split, split_ranges, string_of,
    texts, unquote_range, unquoted,
};
use crate::timestamp::{parse_timestamp, parsed_datetime, timestamp_format, timestamp_of, Timestamp};
use crate::value_filter::{rules_skip, FilterRules};

verus! {

/// One field of a point: the name under which a metric is stored and the text of
/// its value, which is a floating-point literal.
#[derive(Clone, Debug, PartialEq, Eq)]
pub struct Field {
    pub name: String,
    pub value: String,
}

/// One sample of all metrics at one time, tagged with the device it came from.
#[derive(Clone, Debug, PartialEq, Eq)]
pub struct TimeSeriesPoint {
    pub timestamp: Timestamp,
    pub product_type: String,
    pub serial_number: String,
    pub fields: Vec<Field>,
}

/// What a point holds, as plain values.
pub struct PointModel {
    pub timestamp: Timestamp,
    pub product_type: Seq<char>,
    pub serial_number: Seq<char>,
    pub fields: Seq<(Seq<char>, Seq<char>)>,
}

/// Names and value texts of a sequence of fields.
pub open spec fn fields_view(fields: Seq<Field>) -> Seq<(Seq<char>, Seq<char>)> {
    fields.map_values(|f: Field| (f.name@, f.value@))
}

impl View for TimeSeriesPoint {
    type V = PointModel;

    open spec fn view(&self) -> PointModel {
        PointModel {
            timestamp: self.timestamp,
            product_type: self.product_type@,
            serial_number: self.serial_number@,
            fields: fields_view(self.fields@),
        }
    }
}

/// The character that stands for `c` in a field name: `_` for `.`, `-` and the
/// space, `c` itself otherwise.
pub open spec fn sanitized_char(c: char) -> char {
    if c == '.' || c == '-' || c == ' ' {
        '_'
    } else {
        c
    }
}

/// A metric name made fit for a field name.
pub open spec fn sanitized(name: Seq<char>) -> Seq<char> {
    name.map_values(|c: char| sanitized_char(c))
}

/// The names of a sequence of fields.
pub open spec fn field_names(fields: Seq<(Seq<char>, Seq<char>)>) -> Seq<Seq<char>> {
    fields.map_values(|f: (Seq<char>, Seq<char>)| f.0)
}

/// `fields` after `name` was given `value`: an earlier field of that name takes the
/// new value and keeps its place, else the field is added at the end.
pub open spec fn upsert(
    fields: Seq<(Seq<char>, Seq<char>)>,
    name: Seq<char>,
    value: Seq<char>,
) -> Seq<(Seq<char>, Seq<char>)> {
    let at = first_index(field_names(fields), name) as int;
    if at < fields.len() {
        fields.update(at, (name, value))
    } else {
        fields.push((name, value))
    }
}

/// Whether a cell stands for a value that is not there: it is empty, or reads `n/a`,
/// `?`, `none` or `null` in any letter case.
pub open spec fn is_missing(cell: Seq<char>) -> bool {
    ||| cell.len() == 0
    ||| eq_ignore_ascii_case(cell, "n/a"@)
    ||| eq_ignore_ascii_case(cell, "?"@)
    ||| eq_ignore_ascii_case(cell, "none"@)
    ||| eq_ignore_ascii_case(cell, "null"@)
}

/// Whether a cell carries no usable number: it is missing or is no floating-point
/// literal.
pub open spec fn cell_invalid(cell: Seq<char>) -> bool {
    is_missing(cell) || !is_float_text(cell)
}

/// Whether a cell carries a number that the value rules drop.
pub open spec fn cell_filtered(cell: Seq<char>, rules: FilterRules) -> bool {
    !cell_invalid(cell) && rules_skip(rules, cell)
}

/// Whether a cell becomes a field of the point.
pub open spec fn cell_kept(cell: Seq<char>, rules: FilterRules) -> bool {
    !cell_invalid(cell) && !rules_skip(rules, cell)
}

/// The fields that the columns `1..n` of a row give. `cells` are the raw pieces of
/// the row, `columns` the header's names.
pub open spec fn row_fields(
    columns: Seq<Seq<char>>,
    cells: Seq<Seq<char>>,
    rules: FilterRules,
    n: nat,
) -> Seq<(Seq<char>, Seq<char>)>
    decreases n,
{
    if n <= 1 {
        Seq::empty()
    } else {
        let before = row_fields(columns, cells, rules, (n - 1) as nat);
        let cell = unquoted(cells[n - 1]);
        if cell_kept(cell, rules) {
            upsert(before, sanitized(columns[n - 1]), cell)
        } else {
            before
        }
    }
}

/// The header's names of the columns among `1..n` whose cell is kept, in column
/// order.
pub open spec fn kept_metrics(
    columns: Seq<Seq<char>>,
    cells: Seq<Seq<char>>,
    rules: FilterRules,
    n: nat,
) -> Seq<Seq<char>>
    decreases n,
{
    if n <= 1 {
        Seq::empty()
    } else {
        let before = kept_metrics(columns, cells, rules, (n - 1) as nat);
        if cell_kept(unquoted(cells[n - 1]), rules) {
            before.push(columns[n - 1])
        } else {
            before
        }
    }
}

/// How many of the columns `1..n` hold an invalid cell.
pub open spec fn invalid_count(cells: Seq<Seq<char>>, n: nat) -> nat
    decreases n,
{
    if n <= 1 {
        0
    } else {
        invalid_count(cells, (n - 1) as nat) + if cell_invalid(unquoted(cells[n - 1])) {
            1nat
        } else {
            0nat
        }
    }
}

/// How many of the columns `1..n` hold a cell that the value rules drop.
pub open spec fn filtered_count(cells: Seq<Seq<char>>, rules: FilterRules, n: nat) -> nat
    decreases n,
{
    if n <= 1 {
        0
    } else {
        filtered_count(cells, rules, (n - 1) as nat) + if cell_filtered(
            unquoted(cells[n - 1]),
            rules,
        ) {
            1nat
        } else {
            0nat
        }
    }
}

/// The column names of a header line: the pieces between commas, each without
/// surrounding whitespace and quotes.
pub open spec fn header_columns(line: Seq<char>) -> Seq<Seq<char>> {
    split(line, ',').map_values(|piece: Seq<char>| unquoted(piece))
}

/// The text of a row's timestamp column.
pub open spec fn timestamp_text(line: Seq<char>) -> Seq<char> {
    unquoted(split(line, ',')[0])
}

/// The header of a sample stream: the column names, and for each the field name it
/// is stored under. Column 0 is the timestamp.
pub struct Header {
    columns: Vec<String>,
    names: Vec<String>,
    slots: Vec<usize>,
}

impl View for Header {
    type V = Seq<Seq<char>>;

    closed spec fn view(&self) -> Seq<Seq<char>> {
        texts(self.columns@)
    }
}

impl Header {
    /// `names` holds the field name of each column, and `slots` for each column the
    /// first column that has the same field name.
    #[verifier::type_invariant]
    spec fn wf(&self) -> bool {
        &&& self.names@.len() == self.columns@.len()
        &&& self.slots@.len() == self.columns@.len()
        &&& forall|i: int|
            0 <= i < self.columns@.len() ==> (#[trigger] self.names@[i])@ == sanitized(
                self.columns@[i]@,
            )
        &&& forall|i: int|
            0 <= i < self.columns@.len() ==> #[trigger] self.slots@[i] == first_index(
                texts(self.names@),
                self.names@[i]@,
            )
    }

    /// Reads a header line.
    pub fn parse(line: &str) -> (header: Header)
        ensures
            header@ == header_columns(line@),
    {
        let text = chars_of(line);
        let ranges = split_ranges(text.as_slice(), ',');
        let mut columns: Vec<String> = Vec::new();
        let mut names: Vec<String> = Vec::new();
        let mut i: usize = 0;
        while i < ranges.len()
            invariant
                i <= ranges.len(),
                text@ == line@,
                ranges_within(ranges@, text@.len()),
                pieces(text@, ranges@) == split(line@, ','),
                columns@.len() == i,
                names@.len() == i,
                forall|k: int| 0 <= k < i ==> (#[trigger] columns@[k])@ == unquoted(split(line@, ',')[k]),
                forall|k: int| 0 <= k < i ==> (#[trigger] names@[k])@ == sanitized(columns@[k]@),
            decreases ranges.len() - i,
        {
            let range = ranges[i];
            proof {
                assert(pieces(text@, ranges@)[i as int] == text@.subrange(
                    range.0 as int,
                    range.1 as int,
                ));
            }
            let inner = unquote_range(text.as_slice(), range.0, range.1);
            let column = string_of(text.as_slice(), inner.0, inner.1);
            let name = sanitize_field_name(column.as_str());
            columns.push(column);
            names.push(name);
            i += 1;
        }
        proof {
            assert(texts(columns@) =~= header_columns(line@));
        }
        let slots = first_occurrences(&names);
        Header { columns, names, slots }
    }

    /// Number of columns, the timestamp column included.
    pub fn len(&self) -> (n: usize)
        ensures
            n == self@.len(),
    {
        self.columns.len()
    }

    /// Name of column `i`, as the header line gave it.
    pub fn column(&self, i: usize) -> (name: &String)
        requires
            i < self@.len(),
        ensures
            name@ == self@[i as int],
    {
        &self.columns[i]
    }
}

/// For each name, the place where it first occurs among the names.
fn first_occurrences(names: &Vec<String>) -> (slots: Vec<usize>)
    ensures
        slots@.len() == names@.len(),
        forall|i: int|
            0 <= i < names@.len() ==> #[trigger] slots@[i] == first_index(texts(names@), names@[i]@),
{
    let ghost all = texts(names@);
    let mut slots: Vec<usize> = Vec::new();
    let mut i: usize = 0;
    while i < names.len()
        invariant
            i <= names.len(),
            all == texts(names@),
            slots@.len() == i,
            forall|k: int| 0 <= k < i ==> #[trigger] slots@[k] == first_index(all, names@[k]@),
        decreases names.len() - i,
    {
        let mut j: usize = 0;
        while !(names[j] == names[i])
            invariant
                j <= i < names.len(),
                all == texts(names@),
                forall|q: int| 0 <= q < j ==> #[trigger] all[q] != names@[i as int]@,
            decreases i - j,
        {
            proof {
                assert(all[j as int] == names@[j as int]@);
            }
            j += 1;
        }
        proof {
            assert(all[j as int] == names@[j as int]@);
            lemma_first_index_is(all, names@[i as int]@, j as nat);
        }
        slots.push(j);
        i += 1;
    }
    slots
}

/// A metric name made fit for a field name: `.`, `-` and the space become `_`.
pub fn sanitize_field_name(name: &str) -> (field: String)
    ensures
        field@ == sanitized(name@),
{
    broadcast use vstd::string::group_string_axioms;

    let mut field = String::new();
    for c in it: name.chars()
        invariant
            it.seq() == name@,
            field@ == sanitized(name@.take(it.index())),
    {
        proof {
            assert(name@.take(it.index() + 1) == name@.take(it.index()).push(c));
            assert(sanitized(name@.take(it.index()).push(c)) == sanitized(
                name@.take(it.index()),
            ).push(sanitized_char(c)));
        }
        if c == '.' || c == '-' || c == ' ' {
            push_char(&mut field, '_');
        } else {
            push_char(&mut field, c);
        }
    }
    proof {
        assert(name@.take(name@.len() as int) == name@);
    }
    field
}

/// The identity tags that every point of one run carries.
#[derive(Clone, Debug, PartialEq, Eq)]
pub struct Tags {
    pub product_type: String,
    pub serial_number: String,
}

/// What the columns after the timestamp of one row gave.
#[derive(Clone, Debug, PartialEq, Eq)]
pub struct Sample {
    /// The point, where at least one field was kept.
    pub point: Option<TimeSeriesPoint>,
    /// The header's names of the columns whose cell was kept, in column order.
    pub metrics: Vec<String>,
    /// Number of cells that were missing or no number.
    pub invalid: usize,
    /// Number of cells that the value rules dropped.
    pub filtered: usize,
}

/// What became of one data row.
#[derive(Clone, Debug, PartialEq, Eq)]
pub enum RowOutcome {
    /// The row has another number of fields than the header and was discarded.
    Malformed,
    /// The timestamp column could not be read and the row was discarded.
    BadTimestamp,
    /// The row was read.
    Sampled(Sample),
}

/// The point that a row gives: none where no field was kept.
pub open spec fn row_point(
    columns: Seq<Seq<char>>,
    cells: Seq<Seq<char>>,
    stamp: Timestamp,
    product_type: Seq<char>,
    serial_number: Seq<char>,
    rules: FilterRules,
) -> Option<PointModel> {
    let fields = row_fields(columns, cells, rules, columns.len());
    if fields.len() == 0 {
        None
    } else {
        Some(PointModel { timestamp: stamp, product_type, serial_number, fields })
    }
}

/// What a point that may be there holds.
pub open spec fn point_view(point: Option<TimeSeriesPoint>) -> Option<PointModel> {
    match point {
        Some(p) => Some(p@),
        None => None,
    }
}

/// Whether `outcome` is what the row `line` gives under the header `columns`, where
/// reading its timestamp column gave `stamp`.
pub open spec fn is_row_outcome(
    outcome: RowOutcome,
    columns: Seq<Seq<char>>,
    line: Seq<char>,
    stamp: Option<Timestamp>,
    product_type: Seq<char>,
    serial_number: Seq<char>,
    rules: FilterRules,
) -> bool {
    let cells = split(line, ',');
    if cells.len() != columns.len() {
        outcome is Malformed
    } else {
        match stamp {
            None => outcome is BadTimestamp,
            Some(time) => {
                &&& outcome matches RowOutcome::Sampled(sample)
                &&& point_view(sample.point) == row_point(
                    columns,
                    cells,
                    time,
                    product_type,
                    serial_number,
                    rules,
                )
                &&& texts(sample.metrics@) == kept_metrics(columns, cells, rules, columns.len())
                &&& sample.invalid == invalid_count(cells, columns.len())
                &&& sample.filtered == filtered_count(cells, rules, columns.len())
            },
        }
    }
}

/// Whether `place` tells where among `fields` each field name of the header stands:
/// at the first column of a name, the index of the field of that name, if there is
/// one. `names` are the field names of the header's columns.
spec fn placed(
    names: Seq<Seq<char>>,
    place: Seq<Option<usize>>,
    fields: Seq<(Seq<char>, Seq<char>)>,
) -> bool {
    &&& place.len() == names.len()
    &&& forall|s: int|
        0 <= s < place.len() && (#[trigger] place[s]) is Some ==> {
            &&& place[s]->0 < fields.len()
            &&& fields[place[s]->0 as int].0 == names[s]
            &&& first_index(names, names[s]) == s
        }
    &&& forall|p: int|
        0 <= p < fields.len() ==> {
            let s = first_index(names, (#[trigger] fields[p]).0);
            s < place.len() && place[s as int] == Some(p as usize)
        }
}

/// Gives `name` the value `value` among `fields`. `slot` is the first column of the
/// header with the field name `name`.
fn put_field(
    fields: &mut Vec<Field>,
    place: &mut Vec<Option<usize>>,
    slot: usize,
    name: String,
    value: String,
    Ghost(names): Ghost<Seq<Seq<char>>>,
)
    requires
        placed(names, old(place)@, fields_view(old(fields)@)),
        slot < names.len(),
        slot == first_index(names, name@),
        names[slot as int] == name@,
    ensures
        placed(names, final(place)@, fields_view(final(fields)@)),
        fields_view(final(fields)@) == upsert(fields_view(old(fields)@), name@, value@),
{
    let ghost before = fields_view(fields@);
    let ghost name_text = name@;
    let ghost value_text = value@;
    match place[slot] {
        Some(at) => {
            proof {
                assert forall|q: int| 0 <= q < at implies #[trigger] field_names(before)[q]
                    != name_text by {
                    if before[q].0 == name_text {
                        assert(place@[slot as int] == Some(q as usize));
                    }
                }
                assert(field_names(before)[at as int] == name_text);
                lemma_first_index_is(field_names(before), name_text, at as nat);
            }
            fields.set(at, Field { name, value });
            proof {
                let after = fields_view(fields@);
                assert(after =~= before.update(at as int, (name_text, value_text)));
                assert forall|p: int| 0 <= p < after.len() implies {
                    let s = first_index(names, (#[trigger] after[p]).0);
                    s < place@.len() && place@[s as int] == Some(p as usize)
                } by {
                    assert(after[p].0 == before[p].0);
                }
            }
        },
        None => {
            proof {
                assert forall|q: int| 0 <= q < before.len() implies #[trigger] field_names(
                    before,
                )[q] != name_text by {
                    if before[q].0 == name_text {
                        assert(place@[slot as int] == Some(q as usize));
                    }
                }
                lemma_first_index_is(field_names(before), name_text, before.len());
            }
            let ghost old_place = place@;
            place.set(slot, Some(fields.len()));
            fields.push(Field { name, value });
            proof {
                let after = fields_view(fields@);
                assert(after =~= before.push((name_text, value_text)));
                assert forall|s: int| 0 <= s < place@.len() && (#[trigger] place@[s]) is Some implies {
                    &&& place@[s]->0 < after.len()
                    &&& after[place@[s]->0 as int].0 == names[s]
                    &&& first_index(names, names[s]) == s
                } by {
                    if s != slot {
                        assert(place@[s] == old_place[s]);
                        assert(after[old_place[s]->0 as int] == before[old_place[s]->0 as int]);
                    }
                }
                assert forall|p: int| 0 <= p < after.len() implies {
                    let s = first_index(names, (#[trigger] after[p]).0);
                    s < place@.len() && place@[s as int] == Some(p as usize)
                } by {
                    if p < before.len() {
                        assert(after[p] == before[p]);
                        let s = first_index(names, before[p].0);
                        assert(old_place[s as int] == Some(p as usize));
                    }
                }
            }
        },
    }
}

/// Whether the cell `v[start..end]` stands for a value that is not there.
fn range_is_missing(v: &[char], start: usize, end: usize) -> (b: bool)
    requires
        start <= end <= v.len(),
    ensures
        b == is_missing(v@.subrange(start as int, end as int)),
{
    start == end || range_is_ignore_ascii_case(v, start, end, "n/a") || range_is_ignore_ascii_case(
        v,
        start,
        end,
        "?",
    ) || range_is_ignore_ascii_case(v, start, end, "none") || range_is_ignore_ascii_case(
        v,
        start,
        end,
        "null",
    )
}

/// Reads the columns after the timestamp of a row that was cut into `ranges`.
fn sample_row(
    header: &Header,
    text: &[char],
    ranges: &Vec<(usize, usize)>,
    stamp: Timestamp,
    tags: &Tags,
    rules: &FilterRules,
) -> (sample: Sample)
    requires
        ranges_within(ranges@, text@.len()),
        ranges@.len() == header@.len(),
        ranges@.len() >= 1,
    ensures
        point_view(sample.point) == row_point(
            header@,
            pieces(text@, ranges@),
            stamp,
            tags.product_type@,
            tags.serial_number@,
            *rules,
        ),
        texts(sample.metrics@) == kept_metrics(header@, pieces(text@, ranges@), *rules, header@.len()),
        sample.invalid == invalid_count(pieces(text@, ranges@), header@.len()),
        sample.filtered == filtered_count(pieces(text@, ranges@), *rules, header@.len()),
{
    proof {
        use_type_invariant(header);
    }
    let ghost columns = header@;
    let ghost cells = pieces(text@, ranges@);
    let ghost names = texts(header.names@);
    let n = ranges.len();
    let mut fields: Vec<Field> = Vec::new();
    let mut place: Vec<Option<usize>> = Vec::new();
    while place.len() < n
        invariant
            place@.len() <= n,
            forall|s: int| 0 <= s < place@.len() ==> (#[trigger] place@[s]) is None,
        decreases n - place@.len(),
    {
        place.push(None);
    }
    let mut metrics: Vec<String> = Vec::new();
    let mut invalid: usize = 0;
    let mut filtered: usize = 0;
    let mut i: usize = 1;
    proof {
        assert(texts(metrics@) =~= kept_metrics(columns, cells, *rules, 1));
        assert(fields_view(fields@) =~= row_fields(columns, cells, *rules, 1));
    }
    while i < n
        invariant
            1 <= i <= n,
            n == ranges@.len(),
            n == header.columns@.len(),
            n == header.names@.len(),
            n == header.slots@.len(),
            columns == header@,
            names == texts(header.names@),
            cells == pieces(text@, ranges@),
            ranges_within(ranges@, text@.len()),
            forall|k: int|
                0 <= k < n ==> (#[trigger] header.names@[k])@ == sanitized(header.columns@[k]@),
            forall|k: int|
                0 <= k < n ==> #[trigger] header.slots@[k] == first_index(names, header.names@[k]@),
            invalid + filtered + metrics@.len() == i - 1,
            placed(names, place@, fields_view(fields@)),
            fields_view(fields@) == row_fields(columns, cells, *rules, i as nat),
            texts(metrics@) == kept_metrics(columns, cells, *rules, i as nat),
            invalid == invalid_count(cells, i as nat),
            filtered == filtered_count(cells, *rules, i as nat),
        decreases n - i,
    {
        let range = ranges[i];
        proof {
            assert(cells[i as int] == text@.subrange(range.0 as int, range.1 as int));
            assert(columns[i as int] == header.columns@[i as int]@);
        }
        let inner = unquote_range(text, range.0, range.1);
        if range_is_missing(text, inner.0, inner.1) || !range_is_float(text, inner.0, inner.1) {
            invalid += 1;
        } else if rules.skips(text, inner.0, inner.1) {
            filtered += 1;
        } else {
            let name = header.names[i].clone();
            let value = string_of(text, inner.0, inner.1);
            let slot = header.slots[i];
            proof {
                assert(names[i as int] == name@);
                lemma_first_index_bound(names, name@);
                if slot > i {
                    assert(names[i as int] != name@);
                }
            }
            put_field(&mut fields, &mut place, slot, name, value, Ghost(names));
            let metric = header.columns[i].clone();
            proof {
                assert(texts(metrics@.push(metric)) =~= texts(metrics@).push(metric@));
            }
            metrics.push(metric);
        }
        i += 1;
    }
    let point = if fields.len() == 0 {
        None
    } else {
        Some(
            TimeSeriesPoint {
                timestamp: stamp,
                product_type: tags.product_type.clone(),
                serial_number: tags.serial_number.clone(),
                fields,
            },
        )
    };
    Sample { point, metrics, invalid, filtered }
}

/// What the row `line` gives under `header`, where reading its timestamp column
/// gave `stamp`.
///
/// A row with another number of fields than the header is discarded, and so is one
/// whose timestamp could not be read. Of the other columns each cell loses
/// surrounding whitespace and quotes; a cell that is missing or no number counts as
/// invalid, one that the value rules drop counts as filtered, and every other cell
/// becomes a field under its column's sanitized name. A row that keeps no field
/// gives no point.
pub fn row_outcome(
    header: &Header,
    line: &str,
    stamp: Option<Timestamp>,
    tags: &Tags,
    rules: &FilterRules,
) -> (outcome: RowOutcome)
    ensures
        is_row_outcome(
            outcome,
            header@,
            line@,
            stamp,
            tags.product_type@,
            tags.serial_number@,
            *rules,
        ),
{
    let text = chars_of(line);
    let ranges = split_ranges(text.as_slice(), ',');
    if ranges.len() != header.len() {
        return RowOutcome::Malformed;
    }
    match stamp {
        None => RowOutcome::BadTimestamp,
        Some(time) => RowOutcome::Sampled(
            sample_row(header, text.as_slice(), &ranges, time, tags, rules),
        ),
    }
}

/// Reads one data row under `header`: the timestamp column is read as
/// `YYYY-MM-DD HH:MM:SS` in UTC, after surrounding whitespace and quotes went, and
/// the rest of the row as `row_outcome` says.
pub fn parse_row(header: &Header, line: &str, tags: &Tags, rules: &FilterRules) -> (outcome:
    RowOutcome)
    ensures
        is_row_outcome(
            outcome,
            header@,
            line@,
            timestamp_of(parsed_datetime(timestamp_text(line@), timestamp_format())),
            tags.product_type@,
            tags.serial_number@,
            *rules,
        ),
{
    let text = chars_of(line);
    let ranges = split_ranges(text.as_slice(), ',');
    if ranges.len() != header.len() {
        return RowOutcome::Malformed;
    }
    let first = ranges[0];
    proof {
        assert(pieces(text@, ranges@)[0] == text@.subrange(first.0 as int, first.1 as int));
    }
    let inner = unquote_range(text.as_slice(), first.0, first.1);
    let stamp_text = string_of(text.as_slice(), inner.0, inner.1);
    match parse_timestamp(stamp_text.as_str()) {
        None => RowOutcome::BadTimestamp,
        Some(time) => RowOutcome::Sampled(
            sample_row(header, text.as_slice(), &ranges, time, tags, rules),
        ),
    }
}

/// A data row with another number of fields than the header gives no point:
/// whatever its timestamp column reads, the row is discarded as malformed.
pub proof fn law_malformed_row(
    outcome: RowOutcome,
    columns: Seq<Seq<char>>,
    line: Seq<char>,
    stamp: Option<Timestamp>,
    product_type: Seq<char>,
    serial_number: Seq<char>,
    rules: FilterRules,
)
    requires
        is_row_outcome(outcome, columns, line, stamp, product_type, serial_number, rules),
        split(line, ',').len() != columns.len(),
    ensures
        outcome == RowOutcome::Malformed,
{
}

/// A row gives a point exactly when at least one of its cells is kept: the row has
/// as many fields as it has kept cells, or fewer where columns share a field name,
/// but never none while a cell is kept.
pub proof fn law_point_iff_cell_kept(
    columns: Seq<Seq<char>>,
    cells: Seq<Seq<char>>,
    rules: FilterRules,
    n: nat,
)
    ensures
        row_fields(columns, cells, rules, n).len() <= kept_metrics(columns, cells, rules, n).len(),
        row_fields(columns, cells, rules, n).len() == 0 <==> kept_metrics(
            columns,
            cells,
            rules,
            n,
        ).len() == 0,
        kept_metrics(columns, cells, rules, n).len() > 0 <==> exists|k: int|
            1 <= k < n && cell_kept(unquoted(#[trigger] cells[k]), rules),
    decreases n,
{
    if n > 1 {
        let m = (n - 1) as nat;
        law_point_iff_cell_kept(columns, cells, rules, m);
        let before = row_fields(columns, cells, rules, m);
        lemma_first_index_bound(field_names(before), sanitized(columns[n - 1]));
        if cell_kept(unquoted(cells[n - 1]), rules) {
            assert(1 <= n - 1 < n && cell_kept(unquoted(cells[n - 1]), rules));
        } else {
            if exists|k: int| 1 <= k < n && cell_kept(unquoted(#[trigger] cells[k]), rules) {
                let k = choose|k: int| 1 <= k < n && cell_kept(unquoted(#[trigger] cells[k]), rules);
                assert(1 <= k < m);
            }
        }
        if exists|k: int| 1 <= k < m && cell_kept(unquoted(#[trigger] cells[k]), rules) {
            let k = choose|k: int| 1 <= k < m && cell_kept(unquoted(#[trigger] cells[k]), rules);
            assert(1 <= k < n);
        }
    }
}

} // verus!
