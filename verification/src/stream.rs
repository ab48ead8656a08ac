//! The line-by-line reader of a sample stream.
//!
//! The caller reads the sampling utility's output and hands each line to
//! `SampleStream::feed`, which says what the line was and what it gave.

use vstd::prelude::*;
use crate::metrics_cache::{fresh_names, with_names, MetricsCache};
use crate::sample::{header_columns, is_row_outcome, parse_row, timestamp_text, Header, RowOutcome, Tags};
use crate::text::texts;
use crate::timestamp::{parsed_datetime, timestamp_format, timestamp_of};
use crate::value_filter::{rules_of, FilterRules};

verus! {

/// What one line of the stream was.
#[derive(Clone, Debug, PartialEq, Eq)]
pub enum LineOutcome {
    /// An empty line. It is passed over: it is no header, no row, and is not
    /// echoed to the run's log.
    Blank,
    /// The header line, with its number of columns.
    Header { columns: usize },
    /// A data row, with what became of it and the metric names that it brought
    /// into the cache, for which a ledger entry is due.
    Row { outcome: RowOutcome, new_metrics: Vec<String> },
}

/// The reader's state: the header once it was seen, and the tags and value rules of
/// the run.
pub struct SampleStream {
    header: Option<Header>,
    tags: Tags,
    rules: FilterRules,
}

/// The header's names of the columns that a row kept, in column order.
pub open spec fn outcome_metrics(outcome: RowOutcome) -> Seq<Seq<char>> {
    match outcome {
        RowOutcome::Sampled(sample) => texts(sample.metrics@),
        _ => Seq::empty(),
    }
}

impl SampleStream {
    /// The column names, once the header line was read.
    pub closed spec fn columns(&self) -> Option<Seq<Seq<char>>> {
        match self.header {
            Some(header) => Some(header@),
            None => None,
        }
    }

    /// The device's product type, a tag of every point.
    pub closed spec fn product_type(&self) -> Seq<char> {
        self.tags.product_type@
    }

    /// The device's serial number, a tag of every point.
    pub closed spec fn serial_number(&self) -> Seq<char> {
        self.tags.serial_number@
    }

    /// The value rules of the run.
    pub closed spec fn rules(&self) -> FilterRules {
        self.rules
    }

    /// A reader that has seen no line yet. `filter` is the comma-separated list of
    /// value rules.
    pub fn new(product_type: &str, serial_number: &str, filter: &str) -> (stream: SampleStream)
        ensures
            stream.columns() is None,
            stream.product_type() == product_type@,
            stream.serial_number() == serial_number@,
            stream.rules() == rules_of(filter@),
    {
        SampleStream {
            header: None,
            tags: Tags {
                product_type: product_type.to_owned(),
                serial_number: serial_number.to_owned(),
            },
            rules: FilterRules::parse(filter),
        }
    }

    /// Takes the next line of the stream.
    ///
    /// An empty line is passed over. The first line that is not empty is the header.
    /// Every later one is a data row: it is read under the header, and the names of
    /// the columns it kept go into `cache`.
    pub fn feed(&mut self, line: &str, cache: &mut MetricsCache) -> (outcome: LineOutcome)
        ensures
            final(self).product_type() == old(self).product_type(),
            final(self).serial_number() == old(self).serial_number(),
            final(self).rules() == old(self).rules(),
            line@.len() == 0 ==> {
                &&& outcome is Blank
                &&& final(self).columns() == old(self).columns()
                &&& final(cache)@ == old(cache)@
            },
            line@.len() > 0 && old(self).columns() is None ==> {
                &&& outcome == (LineOutcome::Header { columns: header_columns(line@).len() as usize })
                &&& final(self).columns() == Some(header_columns(line@))
                &&& final(cache)@ == old(cache)@
            },
            line@.len() > 0 && old(self).columns() is Some ==> {
                &&& outcome matches LineOutcome::Row { outcome: row, new_metrics }
                &&& is_row_outcome(
                    row,
                    old(self).columns()->0,
                    line@,
                    timestamp_of(parsed_datetime(timestamp_text(line@), timestamp_format())),
                    old(self).product_type(),
                    old(self).serial_number(),
                    old(self).rules(),
                )
                &&& final(self).columns() == old(self).columns()
                &&& final(cache)@ == with_names(old(cache)@, outcome_metrics(row))
                &&& texts(new_metrics@) == fresh_names(outcome_metrics(row), old(cache)@)
            },
    {
        if line.is_empty() {
            return LineOutcome::Blank;
        }
        match &self.header {
            None => {
                let header = Header::parse(line);
                let columns = header.len();
                self.header = Some(header);
                LineOutcome::Header { columns }
            },
            Some(header) => {
                let row = parse_row(header, line, &self.tags, &self.rules);
                let new_metrics = match &row {
                    RowOutcome::Sampled(sample) => cache.add_all(&sample.metrics),
                    _ => {
                        proof {
                            assert(cache@ =~= with_names(cache@, Seq::empty()));
                        }
                        Vec::new()
                    },
                };
                LineOutcome::Row { outcome: row, new_metrics }
            },
        }
    }
}

} // verus!
