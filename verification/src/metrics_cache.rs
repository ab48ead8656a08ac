//! The names of the metrics that were ever exported, and their durable ledger.
//!
//! The ledger is a CSV file with a header row and one metric name per record. The
//! cache is seeded from it at startup; a name that is new to the cache is added in
//! memory first and then appended to the ledger.

use vstd::prelude::*;
use vstd::hash_set::StringHashSet;
use crate::text::texts;

verus! {

/// For each record that the `csv` crate reads from `content` after the header row,
/// in order: the record's first field, or `None` where the record could not be read
/// as text or has no field.
pub uninterp spec fn csv_first_fields(content: Seq<u8>) -> Seq<Option<Seq<char>>>;

/// The bytes that the `csv` crate writes for a record of the one field `field`,
/// terminator included, or `None` where it reports an error.
pub uninterp spec fn csv_record(field: Seq<char>) -> Option<Seq<u8>>;

/// The texts of strings that may be there.
pub open spec fn option_texts(v: Seq<Option<String>>) -> Seq<Option<Seq<char>>> {
    v.map_values(
        |o: Option<String>|
            match o {
                Some(s) => Some(s@),
                None => None,
            },
    )
}

/// The bytes of a buffer that may be there.
pub open spec fn option_bytes(v: Option<Vec<u8>>) -> Option<Seq<u8>> {
    match v {
        Some(bytes) => Some(bytes@),
        None => None,
    }
}

/// The names that a ledger's records hold.
pub open spec fn ledger_names(records: Seq<Option<Seq<char>>>) -> Set<Seq<char>> {
    Set::new(|name: Seq<char>| records.contains(Some(name)))
}

/// The names among `metrics` that are not in `known`, each once, in the order in
/// which they first occur.
pub open spec fn fresh_names(metrics: Seq<Seq<char>>, known: Set<Seq<char>>) -> Seq<Seq<char>>
    decreases metrics.len(),
{
    if metrics.len() == 0 {
        Seq::empty()
    } else if known.contains(metrics[0]) {
        fresh_names(metrics.drop_first(), known)
    } else {
        seq![metrics[0]] + fresh_names(metrics.drop_first(), known.insert(metrics[0]))
    }
}

/// `known` with all of `metrics` added.
pub open spec fn with_names(known: Set<Seq<char>>, metrics: Seq<Seq<char>>) -> Set<Seq<char>> {
    Set::new(|name: Seq<char>| known.contains(name) || metrics.contains(name))
}

/// The title of the ledger's only column.
pub open spec fn ledger_title() -> Seq<char> {
    "metric_name"@
}

/// What is appended to the ledger for one new name, and whether that is the whole
/// entry. A ledger that does not exist yet gets the header row first. Where a row
/// cannot be written the entry ends before it and is not complete.
pub open spec fn ledger_write(
    header: Option<Seq<u8>>,
    record: Option<Seq<u8>>,
    ledger_exists: bool,
) -> (Seq<u8>, bool) {
    let head = if ledger_exists {
        Some(Seq::<u8>::empty())
    } else {
        header
    };
    match head {
        None => (Seq::<u8>::empty(), false),
        Some(h) => match record {
            Some(r) => (h + r, true),
            None => (h, false),
        },
    }
}

/// Reads `content` with `csv::Reader::from_reader` and walks `records()`, which
/// leaves out the header row. Each item is handed out as its first field
/// (`StringRecord::get(0)`), an item that is an error as `None`. The reader sees the
/// bytes alone, so the result is named `csv_first_fields`.
#[verifier::external_body]
fn read_first_fields(content: &[u8]) -> (fields: Vec<Option<String>>)
    ensures
        option_texts(fields@) == csv_first_fields(content@),
{
    let mut reader = csv::Reader::from_reader(content);
    reader.records().map(|item| item.ok().and_then(|r| r.get(0).map(String::from))).collect()
}

/// Writes the one-field record `field` with `csv::Writer::write_record` into a
/// buffer in memory and takes the buffer back with `into_inner`. The writer sees the
/// field alone, so the result is named `csv_record`; an error of either call becomes
/// `None`.
#[verifier::external_body]
fn write_record(field: &str) -> (bytes: Option<Vec<u8>>)
    ensures
        option_bytes(bytes) == csv_record(field@),
{
    let mut writer = csv::Writer::from_writer(Vec::new());
    match writer.write_record(&[field]) {
        Ok(()) => writer.into_inner().ok(),
        Err(_) => None,
    }
}

/// What to append to the ledger for one new name.
#[derive(Clone, Debug, PartialEq, Eq)]
pub struct LedgerWrite {
    /// The bytes to append.
    pub bytes: Vec<u8>,
    /// Whether `bytes` is the whole entry; if not, the append has failed.
    pub complete: bool,
}

/// Puts a ledger entry together from the header row and the record as they were
/// written, each `None` where writing it failed.
pub fn assemble_ledger_write(
    header: Option<Vec<u8>>,
    record: Option<Vec<u8>>,
    ledger_exists: bool,
) -> (entry: LedgerWrite)
    ensures
        (entry.bytes@, entry.complete) == ledger_write(
            option_bytes(header),
            option_bytes(record),
            ledger_exists,
        ),
{
    let head = if ledger_exists {
        Some(Vec::new())
    } else {
        header
    };
    match head {
        None => LedgerWrite { bytes: Vec::new(), complete: false },
        Some(mut bytes) => match record {
            Some(mut r) => {
                bytes.append(&mut r);
                LedgerWrite { bytes, complete: true }
            },
            None => LedgerWrite { bytes, complete: false },
        },
    }
}

/// What to append to the ledger for the new name `metric`: its record, after the
/// header row where the ledger does not exist yet.
pub fn ledger_entry(metric: &str, ledger_exists: bool) -> (entry: LedgerWrite)
    ensures
        (entry.bytes@, entry.complete) == ledger_write(
            csv_record(ledger_title()),
            csv_record(metric@),
            ledger_exists,
        ),
{
    if ledger_exists {
        assemble_ledger_write(None, write_record(metric), true)
    } else {
        match write_record("metric_name") {
            None => assemble_ledger_write(None, None, false),
            Some(header) => assemble_ledger_write(Some(header), write_record(metric), false),
        }
    }
}

/// The set of metric names that have contributed a field to an exported point.
pub struct MetricsCache {
    names: StringHashSet,
}

impl View for MetricsCache {
    type V = Set<Seq<char>>;

    closed spec fn view(&self) -> Set<Seq<char>> {
        self.names@
    }
}

impl MetricsCache {
    /// A cache seeded from the ledger's content, or empty where there is no ledger.
    pub fn new(ledger: Option<&[u8]>) -> (cache: MetricsCache)
        ensures
            cache@ == match ledger {
                Some(content) => ledger_names(csv_first_fields(content@)),
                None => Set::<Seq<char>>::empty(),
            },
    {
        match ledger {
            Some(content) => {
                let records = read_first_fields(content);
                MetricsCache::from_records(&records)
            },
            None => MetricsCache { names: StringHashSet::new() },
        }
    }

    /// A cache that holds the names of the given ledger records. A record without a
    /// name gives none.
    pub fn from_records(records: &Vec<Option<String>>) -> (cache: MetricsCache)
        ensures
            cache@ == ledger_names(option_texts(records@)),
    {
        let mut names = StringHashSet::new();
        let mut i: usize = 0;
        while i < records.len()
            invariant
                i <= records.len(),
                names@ == ledger_names(option_texts(records@).take(i as int)),
            decreases records.len() - i,
        {
            let ghost seen = option_texts(records@).take(i as int);
            let ghost next = option_texts(records@).take(i + 1);
            proof {
                assert(next == seen.push(option_texts(records@)[i as int]));
            }
            match &records[i] {
                Some(name) => {
                    names.insert(name.clone());
                    proof {
                        assert forall|n: Seq<char>| next.contains(Some(n)) <==> (seen.contains(
                            Some(n),
                        ) || n == name@) by {
                            if seen.contains(Some(n)) {
                                let k = choose|k: int| 0 <= k < seen.len() && seen[k] == Some(n);
                                assert(next[k] == Some(n));
                            }
                            if n == name@ {
                                assert(next[i as int] == Some(n));
                            }
                        }
                        assert(names@ =~= ledger_names(next));
                    }
                },
                None => {
                    proof {
                        assert forall|n: Seq<char>| next.contains(Some(n)) <==> seen.contains(
                            Some(n),
                        ) by {
                            if seen.contains(Some(n)) {
                                let k = choose|k: int| 0 <= k < seen.len() && seen[k] == Some(n);
                                assert(next[k] == Some(n));
                            }
                        }
                        assert(names@ =~= ledger_names(next));
                    }
                },
            }
            i += 1;
        }
        proof {
            assert(option_texts(records@).take(records@.len() as int) == option_texts(records@));
        }
        MetricsCache { names }
    }

    /// How many names the cache holds.
    pub fn len(&self) -> (n: usize)
        ensures
            n == self@.len(),
    {
        self.names.len()
    }

    /// Whether `name` is in the cache.
    pub fn contains(&self, name: &str) -> (found: bool)
        ensures
            found == self@.contains(name@),
    {
        self.names.contains(name)
    }

    /// Puts `metric` into the cache and says whether it was new, which is when a
    /// ledger entry is due. A name that is there already changes nothing.
    pub fn add_metric(&mut self, metric: &str) -> (added: bool)
        ensures
            final(self)@ == old(self)@.insert(metric@),
            added == !old(self)@.contains(metric@),
            !added ==> final(self)@ == old(self)@,
    {
        if self.names.contains(metric) {
            proof {
                assert(self@.insert(metric@) =~= self@);
            }
            return false;
        }
        self.names.insert(metric.to_owned());
        true
    }

    /// Puts every name of `metrics` into the cache and returns those that were new,
    /// each once and in order: the names for which a ledger entry is due.
    pub fn add_all(&mut self, metrics: &Vec<String>) -> (fresh: Vec<String>)
        ensures
            final(self)@ == with_names(old(self)@, texts(metrics@)),
            texts(fresh@) == fresh_names(texts(metrics@), old(self)@),
    {
        let ghost all = texts(metrics@);
        let mut fresh: Vec<String> = Vec::new();
        let mut i: usize = 0;
        proof {
            assert(all.skip(0) == all);
            assert(self@ =~= with_names(old(self)@, all.take(0)));
            assert(texts(fresh@) + fresh_names(all, self@) == fresh_names(all, self@));
        }
        while i < metrics.len()
            invariant
                i <= metrics.len(),
                all == texts(metrics@),
                self@ == with_names(old(self)@, all.take(i as int)),
                texts(fresh@) + fresh_names(all.skip(i as int), self@) == fresh_names(
                    all,
                    old(self)@,
                ),
            decreases metrics.len() - i,
        {
            let ghost before = self@;
            let ghost rest = all.skip(i as int);
            proof {
                assert(rest[0] == metrics@[i as int]@);
                assert(rest.drop_first() == all.skip(i + 1));
                assert(all.take(i + 1) == all.take(i as int).push(metrics@[i as int]@));
            }
            let added = self.add_metric(metrics[i].as_str());
            if added {
                let name = metrics[i].clone();
                proof {
                    assert(texts(fresh@.push(name)) == texts(fresh@).push(name@));
                    assert(texts(fresh@).push(name@) + fresh_names(all.skip(i + 1), self@) == texts(
                        fresh@,
                    ) + (seq![name@] + fresh_names(all.skip(i + 1), self@)));
                }
                fresh.push(name);
            }
            proof {
                let name = metrics@[i as int]@;
                assert forall|n: Seq<char>|
                    all.take(i + 1).contains(n) <==> (all.take(i as int).contains(n) || n == name) by {
                    if all.take(i as int).contains(n) {
                        let k = choose|k: int| 0 <= k < i && all.take(i as int)[k] == n;
                        assert(all.take(i + 1)[k] == n);
                    }
                    if n == name {
                        assert(all.take(i + 1)[i as int] == n);
                    }
                }
                assert(self@ =~= with_names(old(self)@, all.take(i + 1)));
            }
            i += 1;
        }
        proof {
            assert(all.take(metrics@.len() as int) == all);
            assert(all.skip(metrics@.len() as int) == Seq::<Seq<char>>::empty());
            assert(texts(fresh@) + Seq::<Seq<char>>::empty() == texts(fresh@));
        }
        fresh
    }
}

/// The names for which a ledger entry is due are new to the cache, occur among the
/// names that were added, and none of them is named twice; and every added name that
/// was new is among them.
pub proof fn law_ledger_entries_once(metrics: Seq<Seq<char>>, known: Set<Seq<char>>)
    ensures
        forall|i: int|
            0 <= i < fresh_names(metrics, known).len() ==> !known.contains(
                #[trigger] fresh_names(metrics, known)[i],
            ) && metrics.contains(fresh_names(metrics, known)[i]),
        forall|i: int, j: int|
            0 <= i < j < fresh_names(metrics, known).len() ==> fresh_names(metrics, known)[i]
                != fresh_names(metrics, known)[j],
        forall|k: int|
            0 <= k < metrics.len() && !known.contains(#[trigger] metrics[k]) ==> fresh_names(
                metrics,
                known,
            ).contains(metrics[k]),
    decreases metrics.len(),
{
    if metrics.len() > 0 {
        let head = metrics[0];
        let rest = metrics.drop_first();
        let fresh = fresh_names(metrics, known);
        if known.contains(head) {
            let tail = fresh_names(rest, known);
            law_ledger_entries_once(rest, known);
            assert(fresh == tail);
            assert forall|i: int| 0 <= i < fresh.len() implies metrics.contains(
                #[trigger] fresh[i],
            ) by {
                assert(rest.contains(tail[i]));
                let k = choose|k: int| 0 <= k < rest.len() && rest[k] == tail[i];
                assert(metrics[k + 1] == fresh[i]);
            }
            assert forall|k: int|
                0 <= k < metrics.len() && !known.contains(#[trigger] metrics[k]) implies fresh.contains(
                metrics[k],
            ) by {
                assert(rest[k - 1] == metrics[k]);
                assert(tail.contains(rest[k - 1]));
            }
        } else {
            let wider = known.insert(head);
            let tail = fresh_names(rest, wider);
            law_ledger_entries_once(rest, wider);
            assert(fresh[0] == head);
            assert forall|i: int| 0 <= i < fresh.len() implies !known.contains(#[trigger] fresh[i])
                && metrics.contains(fresh[i]) by {
                if i > 0 {
                    assert(fresh[i] == tail[i - 1]);
                    assert(rest.contains(tail[i - 1]));
                    assert(!wider.contains(tail[i - 1]));
                    let k = choose|k: int| 0 <= k < rest.len() && rest[k] == tail[i - 1];
                    assert(metrics[k + 1] == fresh[i]);
                } else {
                    assert(metrics[0] == fresh[0]);
                }
            }
            assert forall|i: int, j: int| 0 <= i < j < fresh.len() implies fresh[i] != fresh[j] by {
                assert(fresh[j] == tail[j - 1]);
                assert(!wider.contains(tail[j - 1]));
                if i > 0 {
                    assert(fresh[i] == tail[i - 1]);
                }
            }
            assert forall|k: int|
                0 <= k < metrics.len() && !known.contains(#[trigger] metrics[k]) implies fresh.contains(
                metrics[k],
            ) by {
                if metrics[k] == head {
                    assert(fresh[0] == metrics[k]);
                } else {
                    assert(rest[k - 1] == metrics[k]);
                    assert(tail.contains(rest[k - 1]));
                    let i = choose|i: int| 0 <= i < tail.len() && tail[i] == metrics[k];
                    assert(fresh[i + 1] == metrics[k]);
                }
            }
        }
    }
}

/// Adding a name to the cache twice is adding it once: after the first time the
/// name is known, so the second time changes nothing and no ledger entry is due;
/// of the two additions together, one entry is due where the name was new and none
/// where it was known.
pub proof fn law_add_is_idempotent(known: Set<Seq<char>>, name: Seq<char>)
    ensures
        known.insert(name).contains(name),
        known.insert(name).insert(name) == known.insert(name),
        with_names(known, seq![name, name]) == known.insert(name),
        fresh_names(seq![name], known.insert(name)) == Seq::<Seq<char>>::empty(),
        fresh_names(seq![name, name], known) == if known.contains(name) {
            Seq::<Seq<char>>::empty()
        } else {
            seq![name]
        },
{
    let twice = seq![name, name];
    let once = seq![name];
    assert(twice.drop_first() == once);
    assert(once.drop_first() == Seq::<Seq<char>>::empty());
    assert(fresh_names(once.drop_first(), known.insert(name)) == Seq::<Seq<char>>::empty());
    assert(fresh_names(once.drop_first(), known) == Seq::<Seq<char>>::empty());
    assert(fresh_names(once, known.insert(name)) == Seq::<Seq<char>>::empty());
    if known.contains(name) {
        assert(fresh_names(once, known) == Seq::<Seq<char>>::empty());
    } else {
        assert(seq![name] + Seq::<Seq<char>>::empty() == seq![name]);
    }
    assert(known.insert(name).insert(name) =~= known.insert(name));
    assert(twice[0] == name);
    assert(with_names(known, twice) =~= known.insert(name));
}

} // verus!
