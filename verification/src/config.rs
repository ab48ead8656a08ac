//! The settings that the pipeline's logic reads.

use vstd::prelude::*;
use crate::text::{
    chars_of, eq_ignore_ascii_case, first_index, leading, lowercased, range_is,
    range_is_ignore_ascii_case, skip_class, string_of, strip_range, to_lowercase, trimmed, CharClass,
};

verus! {

/// Settings of one run. They are made once at startup and handed to every
/// component by reference.
#[derive(Clone, Debug, PartialEq, Eq)]
pub struct Config {
    /// Tag of every point: the device's product type.
    pub product_type: String,
    /// Tag of every point: the device's serial number.
    pub serial_number: String,
    /// Comma-separated list of value rules.
    pub pcp_metrics_filter: String,
    /// How many metric names are probed together during validation.
    pub validation_batch_size: usize,
    /// How many points are written to the database in one request.
    pub influx_batch_size: usize,
    /// Progress is reported once in this many writes.
    pub progress_log_interval: usize,
    /// Take the whole inventory as valid, without probing.
    pub skip_validation: bool,
    /// Pass over the validated-metric cache.
    pub force_revalidate: bool,
    /// Keep the metrics under `proc.`.
    pub enable_process_metrics: bool,
    /// Keep the metrics under `disk.`.
    pub enable_disk_metrics: bool,
    /// Keep the metrics under `vfs.` and `filesys.`.
    pub enable_file_metrics: bool,
    /// Keep the metrics under `mem.`.
    pub enable_memory_metrics: bool,
    /// Keep the metrics under `network.`.
    pub enable_network_metrics: bool,
    /// Keep the metrics under `kernel.`.
    pub enable_kernel_metrics: bool,
    /// Keep the metrics under `swap.`.
    pub enable_swap_metrics: bool,
    /// Keep the metrics under `nfs.`.
    pub enable_nfs_metrics: bool,
}

impl Default for Config {
    /// The settings of a run for which nothing was configured.
    fn default() -> (config: Config)
        ensures
            config.product_type@ == "SERVER1"@,
            config.serial_number@ == "1234"@,
            config.pcp_metrics_filter@.len() == 0,
            config.validation_batch_size == 100,
            config.influx_batch_size == 50000,
            config.progress_log_interval == 50,
            !config.skip_validation,
            !config.force_revalidate,
            !config.enable_process_metrics,
            config.enable_disk_metrics,
            config.enable_file_metrics,
            config.enable_memory_metrics,
            config.enable_network_metrics,
            config.enable_kernel_metrics,
            config.enable_swap_metrics,
            !config.enable_nfs_metrics,
    {
        Config {
            product_type: "SERVER1".to_owned(),
            serial_number: "1234".to_owned(),
            pcp_metrics_filter: String::new(),
            validation_batch_size: 100,
            influx_batch_size: 50000,
            progress_log_interval: 50,
            skip_validation: false,
            force_revalidate: false,
            enable_process_metrics: false,
            enable_disk_metrics: true,
            enable_file_metrics: true,
            enable_memory_metrics: true,
            enable_network_metrics: true,
            enable_kernel_metrics: true,
            enable_swap_metrics: true,
            enable_nfs_metrics: false,
        }
    }
}

/// What was configured from outside for the settings of the pipeline: the text of
/// each setting, or `None` where the setting was left alone.
#[derive(Clone, Debug, PartialEq, Eq)]
pub struct ConfigValues {
    pub pcp_metrics_filter: Option<String>,
    pub validation_batch_size: Option<String>,
    pub influx_batch_size: Option<String>,
    pub progress_log_interval: Option<String>,
    pub skip_validation: Option<String>,
    pub force_revalidate: Option<String>,
    pub enable_process_metrics: Option<String>,
    pub enable_disk_metrics: Option<String>,
    pub enable_file_metrics: Option<String>,
    pub enable_memory_metrics: Option<String>,
    pub enable_network_metrics: Option<String>,
    pub enable_kernel_metrics: Option<String>,
    pub enable_swap_metrics: Option<String>,
    pub enable_nfs_metrics: Option<String>,
}

/// The number that a text of decimal digits stands for.
pub open spec fn decimal_value(digits: Seq<char>) -> nat
    decreases digits.len(),
{
    if digits.len() == 0 {
        0
    } else {
        decimal_value(digits.drop_last()) * 10 + (digits.last() as u32 - 48) as nat
    }
}

/// The number that a text stands for as a count: an optional `+` and then decimal
/// digits, at least one, and nothing else. `None` where the text is no such number.
pub open spec fn count_of(text: Seq<char>) -> Option<nat> {
    let digits = if text.len() > 0 && text[0] == '+' {
        text.skip(1)
    } else {
        text
    };
    if digits.len() > 0 && leading(digits, CharClass::Digit) == digits.len() {
        Some(decimal_value(digits))
    } else {
        None
    }
}

/// A flag as it is configured: set by a text that reads `true` in any letter case,
/// cleared by any other text, and `default` where nothing was configured.
pub open spec fn flag_of(value: Option<String>, default: bool) -> bool {
    match value {
        Some(text) => eq_ignore_ascii_case(text@, "true"@),
        None => default,
    }
}

/// A count as it is configured: the number that the text stands for, and `default`
/// where nothing was configured, or what was is no number or does not fit.
pub open spec fn count_or(value: Option<String>, default: usize) -> usize {
    match value {
        Some(text) => match count_of(text@) {
            Some(n) => if n <= usize::MAX {
                n as usize
            } else {
                default
            },
            None => default,
        },
        None => default,
    }
}

/// The value rules as they are configured: the text in lower case, and no rule where
/// nothing was configured.
pub open spec fn filter_of(value: Option<String>) -> Seq<char> {
    match value {
        Some(text) => lowercased(text@),
        None => Seq::empty(),
    }
}

/// The tag that a line of a tags file sets: `Some((true, value))` for the product
/// type and `Some((false, value))` for the serial number. A line sets a tag where it
/// reads `PRODUCT_TYPE=value` or `SERIAL_NUMBER=value`; whitespace around the line,
/// the key and the value does not count, and a line that begins with `#` sets none.
pub open spec fn tag_of_line(line: Seq<char>) -> Option<(bool, Seq<char>)> {
    let text = trimmed(line);
    let at = first_index(text, '=') as int;
    if text.len() == 0 || text[0] == '#' || at >= text.len() {
        None
    } else {
        let key = trimmed(text.take(at));
        let value = trimmed(text.skip(at + 1));
        if key == "PRODUCT_TYPE"@ {
            Some((true, value))
        } else if key == "SERIAL_NUMBER"@ {
            Some((false, value))
        } else {
            None
        }
    }
}

/// A longer text of digits stands for no smaller number than its beginning.
proof fn lemma_decimal_value_grows(digits: Seq<char>, k: int)
    requires
        0 <= k <= digits.len(),
    ensures
        decimal_value(digits.take(k)) <= decimal_value(digits),
    decreases digits.len() - k,
{
    if k < digits.len() {
        lemma_decimal_value_grows(digits, k + 1);
        assert(digits.take(k + 1).drop_last() == digits.take(k));
    } else {
        assert(digits.take(k) == digits);
    }
}

/// Reads a count: an optional `+` and decimal digits. `None` where the text is no
/// such number or the number does not fit.
pub fn parse_count(text: &str) -> (count: Option<usize>)
    ensures
        count == match count_of(text@) {
            Some(n) => if n <= usize::MAX {
                Some(n as usize)
            } else {
                None
            },
            None => None,
        },
{
    let chars = chars_of(text);
    let v = chars.as_slice();
    let from: usize = if v.len() > 0 && v[0] == '+' {
        1
    } else {
        0
    };
    let ghost digits = v@.subrange(from as int, v@.len() as int);
    proof {
        assert(v@.skip(from as int) == digits);
        assert(v@.skip(0) == v@);
    }
    if from == v.len() || skip_class(v, from, v.len(), CharClass::Digit) != v.len() {
        return None;
    }
    let mut value: usize = 0;
    let mut i: usize = from;
    proof {
        assert(digits.take(0) == Seq::<char>::empty());
        crate::text::lemma_leading_bound(digits, CharClass::Digit);
    }
    while i < v.len()
        invariant
            from <= i <= v.len(),
            digits == v@.subrange(from as int, v@.len() as int),
            count_of(text@) == Some(decimal_value(digits)),
            forall|k: int| 0 <= k < digits.len() ==> '0' <= #[trigger] digits[k] <= '9',
            value == decimal_value(digits.take(i - from)),
        decreases v.len() - i,
    {
        let c = v[i];
        proof {
            assert(digits[i - from] == c);
            assert(digits.take(i - from + 1).drop_last() == digits.take(i - from));
            assert(digits.take(i - from + 1).last() == c);
            lemma_decimal_value_grows(digits, i - from + 1);
        }
        let digit: usize = (c as u32 - 48) as usize;
        let next = match value.checked_mul(10) {
            Some(tens) => tens.checked_add(digit),
            None => None,
        };
        match next {
            Some(n) => {
                value = n;
            },
            None => {
                return None;
            },
        }
        i += 1;
    }
    proof {
        assert(digits.take(digits.len() as int) == digits);
    }
    Some(value)
}

/// Whether a configured text sets a flag: it reads `true` in any letter case.
fn reads_true(text: &str) -> (set: bool)
    ensures
        set == eq_ignore_ascii_case(text@, "true"@),
{
    let chars = chars_of(text);
    proof {
        assert(chars@.subrange(0, chars@.len() as int) == text@);
    }
    range_is_ignore_ascii_case(chars.as_slice(), 0, chars.len(), "true")
}

/// A flag as it is configured.
fn flag_value(value: &Option<String>, default: bool) -> (flag: bool)
    ensures
        flag == flag_of(*value, default),
{
    match value {
        Some(text) => reads_true(text.as_str()),
        None => default,
    }
}

/// A count as it is configured.
fn count_value(value: &Option<String>, default: usize) -> (count: usize)
    ensures
        count == count_or(*value, default),
{
    match value {
        Some(text) => match parse_count(text.as_str()) {
            Some(n) => n,
            None => default,
        },
        None => default,
    }
}

impl Config {
    /// The settings as they are configured. What was left alone has its default,
    /// and so has a count that is no number. The two tags have their defaults; they
    /// are set from a tags file, line by line, with `apply_tag_line`.
    pub fn from_values(values: &ConfigValues) -> (config: Config)
        ensures
            config.product_type@ == "SERVER1"@,
            config.serial_number@ == "1234"@,
            config.pcp_metrics_filter@ == filter_of(values.pcp_metrics_filter),
            config.validation_batch_size == count_or(values.validation_batch_size, 100),
            config.influx_batch_size == count_or(values.influx_batch_size, 50000),
            config.progress_log_interval == count_or(values.progress_log_interval, 50),
            config.skip_validation == flag_of(values.skip_validation, false),
            config.force_revalidate == flag_of(values.force_revalidate, false),
            config.enable_process_metrics == flag_of(values.enable_process_metrics, false),
            config.enable_disk_metrics == flag_of(values.enable_disk_metrics, true),
            config.enable_file_metrics == flag_of(values.enable_file_metrics, true),
            config.enable_memory_metrics == flag_of(values.enable_memory_metrics, true),
            config.enable_network_metrics == flag_of(values.enable_network_metrics, true),
            config.enable_kernel_metrics == flag_of(values.enable_kernel_metrics, true),
            config.enable_swap_metrics == flag_of(values.enable_swap_metrics, true),
            config.enable_nfs_metrics == flag_of(values.enable_nfs_metrics, false),
    {
        let defaults = Config::default();
        Config {
            pcp_metrics_filter: match &values.pcp_metrics_filter {
                Some(text) => to_lowercase(text.as_str()),
                None => String::new(),
            },
            validation_batch_size: count_value(
                &values.validation_batch_size,
                defaults.validation_batch_size,
            ),
            influx_batch_size: count_value(&values.influx_batch_size, defaults.influx_batch_size),
            progress_log_interval: count_value(
                &values.progress_log_interval,
                defaults.progress_log_interval,
            ),
            skip_validation: flag_value(&values.skip_validation, defaults.skip_validation),
            force_revalidate: flag_value(&values.force_revalidate, defaults.force_revalidate),
            enable_process_metrics: flag_value(
                &values.enable_process_metrics,
                defaults.enable_process_metrics,
            ),
            enable_disk_metrics: flag_value(&values.enable_disk_metrics, defaults.enable_disk_metrics),
            enable_file_metrics: flag_value(&values.enable_file_metrics, defaults.enable_file_metrics),
            enable_memory_metrics: flag_value(
                &values.enable_memory_metrics,
                defaults.enable_memory_metrics,
            ),
            enable_network_metrics: flag_value(
                &values.enable_network_metrics,
                defaults.enable_network_metrics,
            ),
            enable_kernel_metrics: flag_value(
                &values.enable_kernel_metrics,
                defaults.enable_kernel_metrics,
            ),
            enable_swap_metrics: flag_value(&values.enable_swap_metrics, defaults.enable_swap_metrics),
            enable_nfs_metrics: flag_value(&values.enable_nfs_metrics, defaults.enable_nfs_metrics),
            product_type: defaults.product_type,
            serial_number: defaults.serial_number,
        }
    }

    /// Takes one line of a tags file and sets the tag that the line names, if it
    /// names one. Nothing else changes.
    pub fn apply_tag_line(&mut self, line: &str)
        ensures
            final(self).product_type@ == match tag_of_line(line@) {
                Some((true, value)) => value,
                _ => old(self).product_type@,
            },
            final(self).serial_number@ == match tag_of_line(line@) {
                Some((false, value)) => value,
                _ => old(self).serial_number@,
            },
            final(self).pcp_metrics_filter == old(self).pcp_metrics_filter,
            final(self).validation_batch_size == old(self).validation_batch_size,
            final(self).influx_batch_size == old(self).influx_batch_size,
            final(self).progress_log_interval == old(self).progress_log_interval,
            final(self).skip_validation == old(self).skip_validation,
            final(self).force_revalidate == old(self).force_revalidate,
            final(self).enable_process_metrics == old(self).enable_process_metrics,
            final(self).enable_disk_metrics == old(self).enable_disk_metrics,
            final(self).enable_file_metrics == old(self).enable_file_metrics,
            final(self).enable_memory_metrics == old(self).enable_memory_metrics,
            final(self).enable_network_metrics == old(self).enable_network_metrics,
            final(self).enable_kernel_metrics == old(self).enable_kernel_metrics,
            final(self).enable_swap_metrics == old(self).enable_swap_metrics,
            final(self).enable_nfs_metrics == old(self).enable_nfs_metrics,
    {
        let chars = chars_of(line);
        let v = chars.as_slice();
        let whole = strip_range(v, 0, v.len(), CharClass::Whitespace);
        let ghost text = v@.subrange(whole.0 as int, whole.1 as int);
        proof {
            assert(v@.subrange(0, v@.len() as int) == line@);
        }
        if whole.0 == whole.1 || v[whole.0] == '#' {
            proof {
                assert(text.len() > 0 ==> text[0] == v@[whole.0 as int]);
            }
            return ;
        }
        proof {
            assert(text[0] == v@[whole.0 as int]);
        }
        let mut at: usize = whole.0;
        while at < whole.1 && v[at] != '='
            invariant
                whole.0 <= at <= whole.1 <= v.len(),
                text == v@.subrange(whole.0 as int, whole.1 as int),
                forall|k: int| 0 <= k < at - whole.0 ==> #[trigger] text[k] != '=',
            decreases whole.1 - at,
        {
            proof {
                assert(text[at - whole.0] == v@[at as int]);
            }
            at += 1;
        }
        proof {
            if at < whole.1 {
                assert(text[at - whole.0] == v@[at as int]);
            }
            crate::text::lemma_first_index_is(text, '=', (at - whole.0) as nat);
        }
        if at == whole.1 {
            return ;
        }
        proof {
            assert(text.take(at - whole.0) == v@.subrange(whole.0 as int, at as int));
            assert(text.skip(at - whole.0 + 1) == v@.subrange(at + 1, whole.1 as int));
        }
        let key = strip_range(v, whole.0, at, CharClass::Whitespace);
        let value = strip_range(v, at + 1, whole.1, CharClass::Whitespace);
        if range_is(v, key.0, key.1, "PRODUCT_TYPE") {
            self.product_type = string_of(v, value.0, value.1);
        } else if range_is(v, key.0, key.1, "SERIAL_NUMBER") {
            self.serial_number = string_of(v, value.0, value.1);
        }
    }
}

} // verus!
