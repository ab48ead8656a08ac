//! Finding out which metrics of an inventory can be sampled.
//!
//! The sampling utility is asked for one sample of many metrics at once. Where it
//! answers, the whole batch is taken as valid. Where it fails or prints nothing,
//! each metric of the batch is asked for on its own. The caller runs the utility;
//! the `Validator` says what to ask for next and takes the answers.

use vstd::prelude::*;
use crate::category::{
    drops, filter_by_category, law_filter_drops_disabled_only, retained, Category, CategoryCounts,
};
use crate::config::Config;
use crate::metric_list::{
    is_plain_name, law_cache_round_trip, lemma_metric_list_plain, metric_list, option_list,
    parse_metric_list, rendered,
};
use crate::text::texts;

verus! {

/// State of a validation, as plain values.
pub struct ValidatorModel {
    /// The metric names to validate, in the inventory's order.
    pub inventory: Seq<Seq<char>>,
    /// How many names are probed together.
    pub batch_size: nat,
    /// Where the current batch begins.
    pub position: nat,
    /// The name that is probed on its own, where the current batch was rejected.
    pub single: Option<nat>,
    /// The names found valid so far.
    pub valid: Seq<Seq<char>>,
    /// How many names were found invalid so far.
    pub invalid: nat,
}

/// An answer for every probe that could be made: whether the sampling utility
/// succeeds, with output, when asked for these names.
pub type Oracle = spec_fn(Seq<Seq<char>>) -> bool;

impl ValidatorModel {
    /// The state before the first probe.
    pub open spec fn start(inventory: Seq<Seq<char>>, batch_size: nat) -> ValidatorModel {
        ValidatorModel {
            inventory,
            batch_size,
            position: 0,
            single: None,
            valid: Seq::empty(),
            invalid: 0,
        }
    }

    /// Where the current batch ends.
    pub open spec fn batch_end(self) -> nat {
        if self.position + self.batch_size <= self.inventory.len() {
            self.position + self.batch_size
        } else {
            self.inventory.len()
        }
    }

    /// How many names have their verdict.
    pub open spec fn settled_count(self) -> nat {
        match self.single {
            Some(k) => k,
            None => self.position,
        }
    }

    /// What holds of every state that can be reached.
    pub open spec fn wf(self) -> bool {
        &&& self.batch_size > 0
        &&& self.position <= self.inventory.len()
        &&& self.single matches Some(k) ==> self.position <= k < self.batch_end()
        &&& self.valid.len() + self.invalid == self.settled_count()
    }

    /// The names to ask the sampling utility for next, or `None` when every name
    /// has its verdict.
    pub open spec fn pending(self) -> Option<Seq<Seq<char>>> {
        if self.position >= self.inventory.len() {
            None
        } else {
            match self.single {
                Some(k) => Some(seq![self.inventory[k as int]]),
                None => Some(self.inventory.subrange(self.position as int, self.batch_end() as int)),
            }
        }
    }

    /// The state after the pending probe was answered. A batch that is accepted is
    /// valid as a whole; one that is rejected is gone through name by name, and a
    /// name is valid exactly when its own probe is accepted.
    pub open spec fn step(self, accepted: bool) -> ValidatorModel {
        if self.position >= self.inventory.len() {
            self
        } else {
            match self.single {
                None => if accepted {
                    ValidatorModel {
                        valid: self.valid + self.inventory.subrange(
                            self.position as int,
                            self.batch_end() as int,
                        ),
                        position: self.batch_end(),
                        ..self
                    }
                } else {
                    ValidatorModel { single: Some(self.position), ..self }
                },
                Some(k) => {
                    let verdict = if accepted {
                        ValidatorModel { valid: self.valid.push(self.inventory[k as int]), ..self }
                    } else {
                        ValidatorModel { invalid: self.invalid + 1, ..self }
                    };
                    if k + 1 < self.batch_end() {
                        ValidatorModel { single: Some(k + 1), ..verdict }
                    } else {
                        ValidatorModel { single: None, position: self.batch_end(), ..verdict }
                    }
                },
            }
        }
    }

    /// The state at the end of a validation in which the utility answers as
    /// `oracle` says.
    pub open spec fn run(self, oracle: Oracle) -> ValidatorModel
        decreases self.inventory.len() - self.settled_count(), if self.single is None {
            1nat
        } else {
            0nat
        },
    {
        if !self.wf() {
            self
        } else {
            match self.pending() {
                None => self,
                Some(names) => self.step(oracle(names)).run(oracle),
            }
        }
    }
}

/// The names of `batch` that the utility accepts when asked for each on its own.
pub open spec fn singly_valid(batch: Seq<Seq<char>>, oracle: Oracle) -> Seq<Seq<char>>
    decreases batch.len(),
{
    if batch.len() == 0 {
        Seq::empty()
    } else if oracle(seq![batch[0]]) {
        seq![batch[0]] + singly_valid(batch.drop_first(), oracle)
    } else {
        singly_valid(batch.drop_first(), oracle)
    }
}

/// The valid names of one batch: all of it where the utility accepts the batch,
/// else those that it accepts singly.
pub open spec fn batch_valid(batch: Seq<Seq<char>>, oracle: Oracle) -> Seq<Seq<char>> {
    if oracle(batch) {
        batch
    } else {
        singly_valid(batch, oracle)
    }
}

/// The valid names of an inventory that is validated in batches of `batch_size`,
/// in the inventory's order.
pub open spec fn validated(inventory: Seq<Seq<char>>, batch_size: nat, oracle: Oracle) -> Seq<
    Seq<char>,
>
    decreases inventory.len(),
{
    if inventory.len() == 0 || batch_size == 0 {
        Seq::empty()
    } else {
        let n = if batch_size <= inventory.len() {
            batch_size as int
        } else {
            inventory.len() as int
        };
        batch_valid(inventory.take(n), oracle) + validated(inventory.skip(n), batch_size, oracle)
    }
}

/// Whether a probe of the sampling utility counts as accepted: the utility exited
/// with success and printed something.
pub open spec fn probe_accepted(exited_ok: bool, output_len: usize) -> bool {
    exited_ok && output_len > 0
}

/// The outcome of a validation.
#[derive(Clone, Debug, PartialEq, Eq)]
pub struct Validated {
    /// The valid metric names, in the inventory's order.
    pub metrics: Vec<String>,
    /// How many names of the inventory were found invalid.
    pub invalid: usize,
}

/// A validation in progress.
pub struct Validator {
    inventory: Vec<String>,
    batch_size: usize,
    position: usize,
    single: Option<usize>,
    valid: Vec<String>,
    invalid: usize,
}

impl View for Validator {
    type V = ValidatorModel;

    closed spec fn view(&self) -> ValidatorModel {
        ValidatorModel {
            inventory: texts(self.inventory@),
            batch_size: self.batch_size as nat,
            position: self.position as nat,
            single: match self.single {
                Some(k) => Some(k as nat),
                None => None,
            },
            valid: texts(self.valid@),
            invalid: self.invalid as nat,
        }
    }
}

impl Validator {
    /// A validation of `inventory` in batches of `batch_size` names.
    pub fn new(inventory: Vec<String>, batch_size: usize) -> (validator: Validator)
        requires
            batch_size > 0,
        ensures
            validator@ == ValidatorModel::start(texts(inventory@), batch_size as nat),
            validator@.wf(),
    {
        let validator = Validator {
            inventory,
            batch_size,
            position: 0,
            single: None,
            valid: Vec::new(),
            invalid: 0,
        };
        proof {
            assert(texts(validator.valid@) == Seq::<Seq<char>>::empty());
        }
        validator
    }

    /// Where the current batch ends.
    fn batch_end(&self) -> (end: usize)
        requires
            self@.wf(),
        ensures
            end == self@.batch_end(),
            self.position <= end <= self.inventory@.len(),
    {
        if self.inventory.len() - self.position <= self.batch_size {
            self.inventory.len()
        } else {
            self.position + self.batch_size
        }
    }

    /// How many names have their verdict, and how many names there are.
    pub fn progress(&self) -> (counts: (usize, usize))
        ensures
            counts.0 == self@.settled_count(),
            counts.1 == self@.inventory.len(),
    {
        let settled = match self.single {
            Some(k) => k,
            None => self.position,
        };
        (settled, self.inventory.len())
    }

    /// Whether every name has its verdict.
    pub fn is_done(&self) -> (done: bool)
        ensures
            done == (self@.pending() is None),
    {
        self.position >= self.inventory.len()
    }

    /// The names to ask the sampling utility for next: a whole batch, or one name
    /// of a batch that was rejected. `None` when the validation is done.
    pub fn next_probe(&self) -> (names: Option<Vec<String>>)
        requires
            self@.wf(),
        ensures
            option_list(names) == self@.pending(),
    {
        if self.position >= self.inventory.len() {
            return None;
        }
        let (from, to) = match self.single {
            Some(k) => (k, k + 1),
            None => (self.position, self.batch_end()),
        };
        let mut names: Vec<String> = Vec::new();
        let mut i: usize = from;
        proof {
            assert(texts(names@) == texts(self.inventory@).subrange(from as int, from as int));
        }
        while i < to
            invariant
                from <= i <= to <= self.inventory@.len(),
                texts(names@) == texts(self.inventory@).subrange(from as int, i as int),
            decreases to - i,
        {
            let name = self.inventory[i].clone();
            proof {
                assert(texts(names@.push(name)) == texts(names@).push(name@));
                assert(texts(self.inventory@).subrange(from as int, i + 1) == texts(
                    self.inventory@,
                ).subrange(from as int, i as int).push(name@));
            }
            names.push(name);
            i += 1;
        }
        proof {
            if self.single is Some {
                assert(texts(self.inventory@).subrange(from as int, to as int) == seq![
                    texts(self.inventory@)[from as int],
                ]);
            }
        }
        Some(names)
    }

    /// Takes the answer to the pending probe: whether the utility exited with
    /// success, and how many bytes it printed. When the validation is done the
    /// answer is passed over.
    pub fn record_probe(&mut self, exited_ok: bool, output_len: usize)
        requires
            old(self)@.wf(),
        ensures
            final(self)@ == old(self)@.step(probe_accepted(exited_ok, output_len)),
            final(self)@.wf(),
    {
        if self.position >= self.inventory.len() {
            return ;
        }
        let accepted = exited_ok && output_len > 0;
        let end = self.batch_end();
        match self.single {
            None => {
                if accepted {
                    let mut i: usize = self.position;
                    let ghost before = texts(self.valid@);
                    let ghost all = texts(self.inventory@);
                    let ghost from = self.position;
                    proof {
                        assert(before + all.subrange(from as int, from as int) == before);
                    }
                    while i < end
                        invariant
                            from <= i <= end <= self.inventory@.len(),
                            all == texts(self.inventory@),
                            texts(self.valid@) == before + all.subrange(from as int, i as int),
                            self.inventory == old(self).inventory,
                            self.batch_size == old(self).batch_size,
                            self.position == old(self).position,
                            self.single == old(self).single,
                            self.invalid == old(self).invalid,
                        decreases end - i,
                    {
                        let name = self.inventory[i].clone();
                        proof {
                            assert(texts(self.valid@.push(name)) == texts(self.valid@).push(name@));
                            assert(before + all.subrange(from as int, i + 1) == (before
                                + all.subrange(from as int, i as int)).push(name@));
                        }
                        self.valid.push(name);
                        i += 1;
                    }
                    self.position = end;
                } else {
                    self.single = Some(self.position);
                }
            },
            Some(k) => {
                if accepted {
                    let name = self.inventory[k].clone();
                    proof {
                        assert(texts(self.valid@.push(name)) == texts(self.valid@).push(name@));
                    }
                    self.valid.push(name);
                } else {
                    self.invalid += 1;
                }
                if k + 1 < end {
                    self.single = Some(k + 1);
                } else {
                    self.single = None;
                    self.position = end;
                }
            },
        }
    }

    /// Ends the validation and hands out what was found so far.
    pub fn finish(self) -> (found: Validated)
        ensures
            texts(found.metrics@) == self@.valid,
            found.invalid == self@.invalid,
    {
        Validated { metrics: self.valid, invalid: self.invalid }
    }
}

/// What the discovery of an archive's metrics found.
#[derive(Clone, Debug, PartialEq, Eq)]
pub struct DiscoveryReport {
    /// The metrics to export: the valid ones that the category filter keeps, in the
    /// inventory's order.
    pub metrics: Vec<String>,
    /// How many names of the inventory were taken as valid.
    pub valid: usize,
    /// How many names of the inventory were found invalid.
    pub invalid: usize,
    /// How many valid metrics each category lost to the category filter.
    pub dropped: CategoryCounts,
}

/// Whether `report` is what the category filter makes of the names `valid`, beside
/// `invalid` names that were found invalid.
pub open spec fn is_report(
    report: DiscoveryReport,
    valid: Seq<Seq<char>>,
    invalid: nat,
    config: Config,
) -> bool {
    &&& texts(report.metrics@) == retained(valid, config)
    &&& report.valid == valid.len()
    &&& report.invalid == invalid
    &&& forall|category: Category|
        report.dropped.of(category) == #[trigger] drops(valid, config, category)
}

/// Where a discovery stands after it began.
pub enum Discovery {
    /// Validation is switched off: the whole inventory was taken as valid, and
    /// nothing says that its metrics can be sampled.
    Unvalidated(DiscoveryReport),
    /// The metrics of the inventory are to be validated.
    Validating(Validator),
}

/// Puts the category filter's work on the valid names into a report.
fn report_on(valid: Vec<String>, invalid: usize, config: &Config) -> (report: DiscoveryReport)
    ensures
        is_report(report, texts(valid@), invalid as nat, *config),
{
    let filtered = filter_by_category(valid.as_slice(), config);
    DiscoveryReport {
        metrics: filtered.kept,
        valid: valid.len(),
        invalid,
        dropped: filtered.dropped,
    }
}

/// Begins the discovery of an archive's metrics from what the inventory utility
/// printed: one metric name per line. With validation switched off the discovery is
/// over at once.
pub fn begin_discovery(inventory_output: &str, config: &Config) -> (discovery: Discovery)
    requires
        config.skip_validation || config.validation_batch_size > 0,
    ensures
        match discovery {
            Discovery::Unvalidated(report) => config.skip_validation && is_report(
                report,
                metric_list(inventory_output@),
                0,
                *config,
            ),
            Discovery::Validating(validator) => !config.skip_validation && validator@.wf()
                && validator@ == ValidatorModel::start(
                metric_list(inventory_output@),
                config.validation_batch_size as nat,
            ),
        },
{
    let inventory = parse_metric_list(inventory_output);
    if config.skip_validation {
        Discovery::Unvalidated(report_on(inventory, 0, config))
    } else {
        Discovery::Validating(Validator::new(inventory, config.validation_batch_size))
    }
}

/// Ends the discovery: what the validation found, after the category filter.
pub fn finish_discovery(validator: Validator, config: &Config) -> (report: DiscoveryReport)
    ensures
        is_report(report, validator@.valid, validator@.invalid, *config),
{
    let found = validator.finish();
    report_on(found.metrics, found.invalid, config)
}

/// The failure of a discovery.
#[derive(Clone, Copy, Debug, PartialEq, Eq, Structural)]
pub enum DiscoveryError {
    /// No metric is left to export. The archive cannot be processed.
    NoValidMetrics,
}

/// Holds a discovery to the rule that an archive with no metric to export fails.
pub fn require_metrics(report: DiscoveryReport) -> (checked: Result<DiscoveryReport, DiscoveryError>)
    ensures
        report.metrics@.len() > 0 ==> checked == Ok::<DiscoveryReport, DiscoveryError>(report),
        report.metrics@.len() == 0 ==> checked == Err::<DiscoveryReport, DiscoveryError>(
            DiscoveryError::NoValidMetrics,
        ),
{
    if report.metrics.len() == 0 {
        Err(DiscoveryError::NoValidMetrics)
    } else {
        Ok(report)
    }
}

/// The valid names that a validation in state `m` will still find, where the
/// utility answers as `oracle` says.
pub open spec fn still_valid(m: ValidatorModel, oracle: Oracle) -> Seq<Seq<char>> {
    match m.single {
        None => validated(m.inventory.skip(m.position as int), m.batch_size, oracle),
        Some(k) => singly_valid(m.inventory.subrange(k as int, m.batch_end() as int), oracle)
            + validated(m.inventory.skip(m.batch_end() as int), m.batch_size, oracle),
    }
}

/// A validation that is carried on from any state ends, and finds what was found
/// so far and then what `still_valid` says.
pub proof fn lemma_run(m: ValidatorModel, oracle: Oracle)
    requires
        m.wf(),
    ensures
        m.run(oracle).wf(),
        m.run(oracle).pending() is None,
        m.run(oracle).inventory == m.inventory,
        m.run(oracle).valid == m.valid + still_valid(m, oracle),
    decreases m.inventory.len() - m.settled_count(), if m.single is None {
        1nat
    } else {
        0nat
    },
{
    let inv = m.inventory;
    let end = m.batch_end() as int;
    if m.position >= inv.len() {
        assert(inv.skip(m.position as int) == Seq::<Seq<char>>::empty());
        assert(m.valid + still_valid(m, oracle) == m.valid);
    } else {
        let rest = inv.skip(m.position as int);
        let batch = inv.subrange(m.position as int, end);
        assert(rest.take(end - m.position) == batch);
        assert(rest.skip(end - m.position) == inv.skip(end));
        let later = validated(inv.skip(end), m.batch_size, oracle);
        match m.single {
            None => {
                let next = m.step(oracle(batch));
                lemma_run(next, oracle);
                assert(validated(rest, m.batch_size, oracle) == batch_valid(batch, oracle) + later);
                if oracle(batch) {
                    assert(next.valid + still_valid(next, oracle) == m.valid + (batch + later));
                } else {
                    assert(next.batch_end() == end);
                    assert(next.valid + still_valid(next, oracle) == m.valid + (singly_valid(
                        batch,
                        oracle,
                    ) + later));
                }
            },
            Some(k) => {
                let name = inv[k as int];
                let next = m.step(oracle(seq![name]));
                lemma_run(next, oracle);
                let part = inv.subrange(k as int, end);
                assert(part[0] == name);
                assert(part.drop_first() == inv.subrange(k as int + 1, end));
                let tail = singly_valid(inv.subrange(k as int + 1, end), oracle);
                if k + 1 < end {
                    assert(next.batch_end() == end);
                    assert(still_valid(next, oracle) == tail + later);
                } else {
                    assert(inv.subrange(k as int + 1, end) == Seq::<Seq<char>>::empty());
                    assert(tail == Seq::<Seq<char>>::empty());
                    assert(still_valid(next, oracle) == tail + later);
                }
                if oracle(seq![name]) {
                    assert(next.valid + (tail + later) == m.valid + ((seq![name] + tail) + later));
                } else {
                    assert(next.valid + (tail + later) == m.valid + (tail + later));
                }
            },
        }
    }
}

/// The two-tier validation finds, whatever the inventory and the answers of the
/// sampling utility: every name of a batch that the utility accepts as a whole, and
/// of a batch that it rejects the names that it accepts singly; all of them in the
/// inventory's order. Every name of the inventory ends up valid or counted as
/// invalid.
pub proof fn law_validation_result(inventory: Seq<Seq<char>>, batch_size: nat, oracle: Oracle)
    requires
        batch_size > 0,
    ensures
        ValidatorModel::start(inventory, batch_size).run(oracle).pending() is None,
        ValidatorModel::start(inventory, batch_size).run(oracle).valid == validated(
            inventory,
            batch_size,
            oracle,
        ),
        ValidatorModel::start(inventory, batch_size).run(oracle).valid.len()
            + ValidatorModel::start(inventory, batch_size).run(oracle).invalid == inventory.len(),
{
    let begin = ValidatorModel::start(inventory, batch_size);
    lemma_run(begin, oracle);
    assert(inventory.skip(0) == inventory);
    assert(begin.valid + still_valid(begin, oracle) == validated(inventory, batch_size, oracle));
}

/// The names that are accepted singly are names of the batch.
pub proof fn lemma_singly_valid_members(batch: Seq<Seq<char>>, oracle: Oracle)
    ensures
        forall|i: int|
            0 <= i < singly_valid(batch, oracle).len() ==> batch.contains(
                #[trigger] singly_valid(batch, oracle)[i],
            ),
    decreases batch.len(),
{
    if batch.len() > 0 {
        let rest = batch.drop_first();
        let tail = singly_valid(rest, oracle);
        let all = singly_valid(batch, oracle);
        lemma_singly_valid_members(rest, oracle);
        assert forall|i: int| 0 <= i < all.len() implies batch.contains(#[trigger] all[i]) by {
            if oracle(seq![batch[0]]) && i == 0 {
                assert(batch[0] == all[0]);
            } else {
                let j = if oracle(seq![batch[0]]) {
                    i - 1
                } else {
                    i
                };
                assert(all[i] == tail[j]);
                assert(rest.contains(tail[j]));
                let k = choose|k: int| 0 <= k < rest.len() && rest[k] == tail[j];
                assert(batch[k + 1] == all[i]);
            }
        }
    }
}

/// The valid names are names of the inventory.
pub proof fn lemma_validated_members(inventory: Seq<Seq<char>>, batch_size: nat, oracle: Oracle)
    ensures
        forall|i: int|
            0 <= i < validated(inventory, batch_size, oracle).len() ==> inventory.contains(
                #[trigger] validated(inventory, batch_size, oracle)[i],
            ),
    decreases inventory.len(),
{
    if inventory.len() > 0 && batch_size > 0 {
        let n = if batch_size <= inventory.len() {
            batch_size as int
        } else {
            inventory.len() as int
        };
        let batch = inventory.take(n);
        let rest = inventory.skip(n);
        let head = batch_valid(batch, oracle);
        let tail = validated(rest, batch_size, oracle);
        let all = validated(inventory, batch_size, oracle);
        lemma_singly_valid_members(batch, oracle);
        lemma_validated_members(rest, batch_size, oracle);
        assert forall|i: int| 0 <= i < all.len() implies inventory.contains(#[trigger] all[i]) by {
            if i < head.len() {
                assert(all[i] == head[i]);
                if oracle(batch) {
                    assert(inventory[i] == head[i]);
                } else {
                    assert(batch.contains(singly_valid(batch, oracle)[i]));
                    let k = choose|k: int| 0 <= k < batch.len() && batch[k] == head[i];
                    assert(inventory[k] == head[i]);
                }
            } else {
                assert(all[i] == tail[i - head.len()]);
                assert(rest.contains(tail[i - head.len()]));
                let k = choose|k: int| 0 <= k < rest.len() && rest[k] == tail[i - head.len()];
                assert(inventory[k + n] == all[i]);
            }
        }
    }
}

/// The list of validated metrics that a discovery ends with is read back unchanged
/// after it was saved as a cache: whatever the inventory utility printed, whatever
/// the sampling utility answered, and whatever the category settings are.
pub proof fn law_validated_set_round_trip(
    inventory_output: Seq<char>,
    batch_size: nat,
    oracle: Oracle,
    config: Config,
)
    ensures
        metric_list(
            rendered(
                retained(validated(metric_list(inventory_output), batch_size, oracle), config),
            ),
        ) == retained(validated(metric_list(inventory_output), batch_size, oracle), config),
{
    let inventory = metric_list(inventory_output);
    let valid = validated(inventory, batch_size, oracle);
    let kept = retained(valid, config);
    lemma_metric_list_plain(inventory_output);
    lemma_validated_members(inventory, batch_size, oracle);
    law_filter_drops_disabled_only(valid, config);
    assert forall|k: int| 0 <= k < kept.len() implies is_plain_name(#[trigger] kept[k]) by {
        assert(kept.contains(kept[k]));
        assert(valid.contains(kept[k]));
        let i = choose|i: int| 0 <= i < valid.len() && valid[i] == kept[k];
        assert(inventory.contains(valid[i]));
        let j = choose|j: int| 0 <= j < inventory.len() && inventory[j] == valid[i];
        assert(is_plain_name(inventory[j]));
    }
    law_cache_round_trip(kept);
}

} // verus!
