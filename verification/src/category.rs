//! Keeping or dropping metrics by the category that their name begins with.

use vstd::prelude::*;
use crate::config::Config;
use crate::text::{chars_of, has_prefix, starts_with, texts};

verus! {

/// The categories of metrics that can be switched off as a whole.
#[derive(Clone, Copy, Debug, PartialEq, Eq, Structural)]
pub enum Category {
    /// Names under `proc.`.
    Process,
    /// Names under `disk.`.
    Disk,
    /// Names under `vfs.` or `filesys.`.
    File,
    /// Names under `mem.`.
    Memory,
    /// Names under `network.`.
    Network,
    /// Names under `kernel.`.
    Kernel,
    /// Names under `swap.`.
    Swap,
    /// Names under `nfs.`.
    Nfs,
}

/// Whether `name` begins with a prefix of `category`.
pub open spec fn in_category(name: Seq<char>, category: Category) -> bool {
    match category {
        Category::Process => starts_with(name, "proc."@),
        Category::Disk => starts_with(name, "disk."@),
        Category::File => starts_with(name, "vfs."@) || starts_with(name, "filesys."@),
        Category::Memory => starts_with(name, "mem."@),
        Category::Network => starts_with(name, "network."@),
        Category::Kernel => starts_with(name, "kernel."@),
        Category::Swap => starts_with(name, "swap."@),
        Category::Nfs => starts_with(name, "nfs."@),
    }
}

/// Whether the settings keep the metrics of `category`.
pub open spec fn category_enabled(config: Config, category: Category) -> bool {
    match category {
        Category::Process => config.enable_process_metrics,
        Category::Disk => config.enable_disk_metrics,
        Category::File => config.enable_file_metrics,
        Category::Memory => config.enable_memory_metrics,
        Category::Network => config.enable_network_metrics,
        Category::Kernel => config.enable_kernel_metrics,
        Category::Swap => config.enable_swap_metrics,
        Category::Nfs => config.enable_nfs_metrics,
    }
}

/// Whether `name` is in `category` and the settings switch that category off.
pub open spec fn hits(name: Seq<char>, config: Config, category: Category) -> bool {
    in_category(name, category) && !category_enabled(config, category)
}

/// The category on whose account `name` is dropped: the first one, in the order of
/// the declaration, that the name is in and that is switched off.
pub open spec fn dropped_as(name: Seq<char>, config: Config) -> Option<Category> {
    if hits(name, config, Category::Process) {
        Some(Category::Process)
    } else if hits(name, config, Category::Disk) {
        Some(Category::Disk)
    } else if hits(name, config, Category::File) {
        Some(Category::File)
    } else if hits(name, config, Category::Memory) {
        Some(Category::Memory)
    } else if hits(name, config, Category::Network) {
        Some(Category::Network)
    } else if hits(name, config, Category::Kernel) {
        Some(Category::Kernel)
    } else if hits(name, config, Category::Swap) {
        Some(Category::Swap)
    } else if hits(name, config, Category::Nfs) {
        Some(Category::Nfs)
    } else {
        None
    }
}

/// Whether `name` is dropped: it begins with the prefix of a category that is
/// switched off. A name in no category is always kept.
pub open spec fn is_dropped(name: Seq<char>, config: Config) -> bool {
    exists|category: Category| hits(name, config, category)
}

/// The names of `metrics` that are kept, in their order.
pub open spec fn retained(metrics: Seq<Seq<char>>, config: Config) -> Seq<Seq<char>>
    decreases metrics.len(),
{
    if metrics.len() == 0 {
        Seq::empty()
    } else {
        let before = retained(metrics.drop_last(), config);
        if is_dropped(metrics.last(), config) {
            before
        } else {
            before.push(metrics.last())
        }
    }
}

/// How many names of `metrics` are dropped on account of `category`.
pub open spec fn drops(metrics: Seq<Seq<char>>, config: Config, category: Category) -> nat
    decreases metrics.len(),
{
    if metrics.len() == 0 {
        0
    } else {
        drops(metrics.drop_last(), config, category) + if dropped_as(metrics.last(), config) == Some(
            category,
        ) {
            1nat
        } else {
            0nat
        }
    }
}

/// A name is dropped exactly when it is dropped on account of some category.
pub proof fn lemma_dropped_as(name: Seq<char>, config: Config)
    ensures
        is_dropped(name, config) <==> dropped_as(name, config) is Some,
        dropped_as(name, config) matches Some(category) ==> hits(name, config, category),
{
    if is_dropped(name, config) {
        let category = choose|category: Category| hits(name, config, category);
        assert(hits(name, config, category));
    }
    match dropped_as(name, config) {
        Some(category) => {
            assert(hits(name, config, category));
        },
        None => {},
    }
}

/// How many metrics each category lost.
#[derive(Clone, Copy, Debug, PartialEq, Eq, Structural)]
pub struct CategoryCounts {
    pub process: usize,
    pub disk: usize,
    pub file: usize,
    pub memory: usize,
    pub network: usize,
    pub kernel: usize,
    pub swap: usize,
    pub nfs: usize,
}

impl CategoryCounts {
    /// The count of `category`.
    pub open spec fn of(self, category: Category) -> usize {
        match category {
            Category::Process => self.process,
            Category::Disk => self.disk,
            Category::File => self.file,
            Category::Memory => self.memory,
            Category::Network => self.network,
            Category::Kernel => self.kernel,
            Category::Swap => self.swap,
            Category::Nfs => self.nfs,
        }
    }

    /// The sum of all counts.
    pub open spec fn sum(self) -> int {
        self.process + self.disk + self.file + self.memory + self.network + self.kernel + self.swap
            + self.nfs
    }

    /// The number of metrics that were dropped, over all categories.
    pub fn total(&self) -> (n: usize)
        requires
            self.sum() <= usize::MAX,
        ensures
            n == self.sum(),
    {
        self.process + self.disk + self.file + self.memory + self.network + self.kernel + self.swap
            + self.nfs
    }
}

/// What the category filter made of a list of metrics.
#[derive(Clone, Debug, PartialEq, Eq)]
pub struct CategoryReport {
    /// The metrics that are kept, in their order.
    pub kept: Vec<String>,
    /// How many metrics each category lost.
    pub dropped: CategoryCounts,
}

/// The category on whose account the settings drop `name`, if any.
pub fn drop_category(name: &str, config: &Config) -> (category: Option<Category>)
    ensures
        category == dropped_as(name@, *config),
{
    let text = chars_of(name);
    let v = text.as_slice();
    if !config.enable_process_metrics && has_prefix(v, "proc.") {
        Some(Category::Process)
    } else if !config.enable_disk_metrics && has_prefix(v, "disk.") {
        Some(Category::Disk)
    } else if !config.enable_file_metrics && (has_prefix(v, "vfs.") || has_prefix(v, "filesys.")) {
        Some(Category::File)
    } else if !config.enable_memory_metrics && has_prefix(v, "mem.") {
        Some(Category::Memory)
    } else if !config.enable_network_metrics && has_prefix(v, "network.") {
        Some(Category::Network)
    } else if !config.enable_kernel_metrics && has_prefix(v, "kernel.") {
        Some(Category::Kernel)
    } else if !config.enable_swap_metrics && has_prefix(v, "swap.") {
        Some(Category::Swap)
    } else if !config.enable_nfs_metrics && has_prefix(v, "nfs.") {
        Some(Category::Nfs)
    } else {
        None
    }
}

/// Runs the category filter over `metrics`: keeps what is kept, and counts per
/// category what is dropped.
pub fn filter_by_category(metrics: &[String], config: &Config) -> (report: CategoryReport)
    ensures
        texts(report.kept@) == retained(texts(metrics@), *config),
        forall|category: Category|
            report.dropped.of(category) == #[trigger] drops(texts(metrics@), *config, category),
        report.kept@.len() + report.dropped.sum() == metrics@.len(),
{
    let ghost all = texts(metrics@);
    let mut kept: Vec<String> = Vec::new();
    let mut dropped = CategoryCounts {
        process: 0,
        disk: 0,
        file: 0,
        memory: 0,
        network: 0,
        kernel: 0,
        swap: 0,
        nfs: 0,
    };
    let mut i: usize = 0;
    proof {
        assert(all.take(0) == Seq::<Seq<char>>::empty());
        assert(texts(kept@) == Seq::<Seq<char>>::empty());
    }
    while i < metrics.len()
        invariant
            i <= metrics.len(),
            all == texts(metrics@),
            texts(kept@) == retained(all.take(i as int), *config),
            forall|category: Category|
                dropped.of(category) == #[trigger] drops(all.take(i as int), *config, category),
            kept@.len() + dropped.sum() == i,
        decreases metrics.len() - i,
    {
        let ghost name = metrics@[i as int]@;
        let ghost before = dropped;
        proof {
            assert(all.take(i + 1).drop_last() == all.take(i as int));
            assert(all.take(i + 1).last() == name);
            lemma_dropped_as(name, *config);
        }
        let hit = drop_category(metrics[i].as_str(), config);
        match hit {
            Some(Category::Process) => {
                dropped.process += 1;
            },
            Some(Category::Disk) => {
                dropped.disk += 1;
            },
            Some(Category::File) => {
                dropped.file += 1;
            },
            Some(Category::Memory) => {
                dropped.memory += 1;
            },
            Some(Category::Network) => {
                dropped.network += 1;
            },
            Some(Category::Kernel) => {
                dropped.kernel += 1;
            },
            Some(Category::Swap) => {
                dropped.swap += 1;
            },
            Some(Category::Nfs) => {
                dropped.nfs += 1;
            },
            None => {
                let metric = metrics[i].clone();
                proof {
                    assert(texts(kept@.push(metric)) == texts(kept@).push(name));
                }
                kept.push(metric);
            },
        }
        proof {
            assert forall|category: Category|
                dropped.of(category) == #[trigger] drops(all.take(i + 1), *config, category) by {
                assert(before.of(category) == drops(all.take(i as int), *config, category));
                assert(dropped.of(category) == before.of(category) + if hit == Some(category) {
                    1int
                } else {
                    0int
                });
            }
        }
        i += 1;
    }
    proof {
        assert(all.take(metrics@.len() as int) == all);
    }
    CategoryReport { kept, dropped }
}

/// The metrics that the category settings keep, in their order.
///
/// A metric is dropped exactly when its name begins with the prefix of a category
/// that is switched off.
pub fn apply_category_filters(metrics: &[String], config: &Config) -> (kept: Vec<String>)
    ensures
        texts(kept@) == retained(texts(metrics@), *config),
        forall|name: Seq<char>|
            texts(kept@).contains(name) <==> texts(metrics@).contains(name) && !is_dropped(
                name,
                *config,
            ),
{
    proof {
        law_filter_drops_disabled_only(texts(metrics@), *config);
    }
    filter_by_category(metrics, config).kept
}

/// The kept names are the names of the list that are not dropped: what the filter
/// takes away is exactly what begins with the prefix of a disabled category.
pub proof fn law_filter_drops_disabled_only(metrics: Seq<Seq<char>>, config: Config)
    ensures
        forall|name: Seq<char>|
            retained(metrics, config).contains(name) <==> metrics.contains(name) && !is_dropped(
                name,
                config,
            ),
    decreases metrics.len(),
{
    if metrics.len() > 0 {
        let init = metrics.drop_last();
        let last = metrics.last();
        law_filter_drops_disabled_only(init, config);
        assert forall|name: Seq<char>|
            retained(metrics, config).contains(name) <==> metrics.contains(name) && !is_dropped(
                name,
                config,
            ) by {
            let before = retained(init, config);
            if metrics.contains(name) {
                let k = choose|k: int| 0 <= k < metrics.len() && metrics[k] == name;
                if k < init.len() {
                    assert(init[k] == name);
                }
            }
            if init.contains(name) {
                let k = choose|k: int| 0 <= k < init.len() && init[k] == name;
                assert(metrics[k] == name);
            }
            assert(metrics[metrics.len() - 1] == last);
            if is_dropped(last, config) {
            } else {
                let after = before.push(last);
                if before.contains(name) {
                    let k = choose|k: int| 0 <= k < before.len() && before[k] == name;
                    assert(after[k] == name);
                }
                assert(after[after.len() - 1] == last);
                if after.contains(name) {
                    let k = choose|k: int| 0 <= k < after.len() && after[k] == name;
                    if k < before.len() {
                        assert(before[k] == name);
                    }
                }
            }
        }
    }
}

/// A text that begins with `prefix` begins with the first two characters of
/// `prefix`.
proof fn lemma_prefix_chars(name: Seq<char>, prefix: Seq<char>)
    requires
        starts_with(name, prefix),
        prefix.len() >= 2,
    ensures
        name.len() >= 2,
        name[0] == prefix[0],
        name[1] == prefix[1],
{
    assert(name.take(prefix.len() as int)[0] == name[0]);
    assert(name.take(prefix.len() as int)[1] == name[1]);
}

/// A metric belongs to one category at most.
pub proof fn law_one_category(name: Seq<char>, first: Category, second: Category)
    requires
        in_category(name, first),
        in_category(name, second),
    ensures
        first == second,
{
    reveal_strlit("proc.");
    reveal_strlit("disk.");
    reveal_strlit("vfs.");
    reveal_strlit("filesys.");
    reveal_strlit("mem.");
    reveal_strlit("network.");
    reveal_strlit("kernel.");
    reveal_strlit("swap.");
    reveal_strlit("nfs.");
    if starts_with(name, "proc."@) {
        lemma_prefix_chars(name, "proc."@);
    }
    if starts_with(name, "disk."@) {
        lemma_prefix_chars(name, "disk."@);
    }
    if starts_with(name, "vfs."@) {
        lemma_prefix_chars(name, "vfs."@);
    }
    if starts_with(name, "filesys."@) {
        lemma_prefix_chars(name, "filesys."@);
    }
    if starts_with(name, "mem."@) {
        lemma_prefix_chars(name, "mem."@);
    }
    if starts_with(name, "network."@) {
        lemma_prefix_chars(name, "network."@);
    }
    if starts_with(name, "kernel."@) {
        lemma_prefix_chars(name, "kernel."@);
    }
    if starts_with(name, "swap."@) {
        lemma_prefix_chars(name, "swap."@);
    }
    if starts_with(name, "nfs."@) {
        lemma_prefix_chars(name, "nfs."@);
    }
}

} // verus!
