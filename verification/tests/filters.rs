use pcp_parser::category::{
    apply_category_filters, drop_category, filter_by_category, Category, CategoryCounts,
};
use pcp_parser::config::Config;
use pcp_parser::number::range_is_float;
use pcp_parser::text::{char_is_whitespace, chars_of};
use pcp_parser::value_filter::{should_skip_value, FilterRules};

fn names(list: &[&str]) -> Vec<String> {
    list.iter().map(|s| s.to_string()).collect()
}

fn is_float(text: &str) -> bool {
    let chars: Vec<char> = text.chars().collect();
    range_is_float(&chars, 0, chars.len())
}

#[test]
fn skip_zero_drops_only_the_two_zero_texts() {
    assert!(should_skip_value("0", "skip_zero"));
    assert!(should_skip_value("0.0", "skip_zero"));
    for value in ["", "00", "0.00", "0.", ".0", "-0", "+0", "0 ", " 0", "0e0", "1", "none", "O"] {
        assert!(!should_skip_value(value, "skip_zero"), "{:?}", value);
    }
}

#[test]
fn skip_empty_drops_only_the_empty_text() {
    assert!(should_skip_value("", "skip_empty"));
    assert!(!should_skip_value(" ", "skip_empty"));
    assert!(!should_skip_value("0", "skip_empty"));
}

#[test]
fn skip_none_ignores_letter_case() {
    for value in ["none", "None", "NONE", "null", "NULL", "nUlL", "n/a", "N/A", "N/a"] {
        assert!(should_skip_value(value, "skip_none"), "{:?}", value);
    }
    for value in ["", "nan", "na", "n / a", "none ", "nil", "?", "0"] {
        assert!(!should_skip_value(value, "skip_none"), "{:?}", value);
    }
}

#[test]
fn rules_are_looked_at_one_by_one() {
    let filter = "skip_zero, skip_none ,bogus,,skip_empty";
    assert_eq!(
        FilterRules::parse(filter),
        FilterRules { skip_zero: true, skip_empty: true, skip_none: true }
    );
    assert!(should_skip_value("0", filter));
    assert!(should_skip_value("", filter));
    assert!(should_skip_value("Null", filter));
    assert!(!should_skip_value("1", filter));
}

#[test]
fn unknown_and_misspelt_rules_are_ignored() {
    let none = FilterRules { skip_zero: false, skip_empty: false, skip_none: false };
    assert_eq!(FilterRules::parse(""), none);
    assert_eq!(FilterRules::parse("skip_zeros,SKIP_ZERO,skip zero,skip_zero;skip_none"), none);
    assert!(!should_skip_value("0", "SKIP_ZERO"));
    assert!(!should_skip_value("0", ""));
    assert_eq!(
        FilterRules::parse("\tskip_none\u{a0}"),
        FilterRules { skip_zero: false, skip_empty: false, skip_none: true }
    );
}

#[test]
fn none_texts_agree_with_lowercasing() {
    // every single character in place of each letter of the three texts
    for target in ["none", "null", "n/a"] {
        let letters: Vec<char> = target.chars().collect();
        for at in 0..letters.len() {
            for code in 0..=0x10FFFFu32 {
                let Some(c) = char::from_u32(code) else { continue };
                if c.is_ascii() || c.to_lowercase().any(|l| l.is_ascii()) {
                    let mut text = letters.clone();
                    text[at] = c;
                    let value: String = text.into_iter().collect();
                    assert_eq!(
                        should_skip_value(&value, "skip_none"),
                        value.to_lowercase() == target,
                        "{:?}",
                        value
                    );
                }
            }
        }
    }
}

#[test]
fn whitespace_is_what_the_standard_library_says() {
    for code in 0..=0x10FFFFu32 {
        if let Some(c) = char::from_u32(code) {
            assert_eq!(char_is_whitespace(c), c.is_whitespace(), "U+{:04X}", code);
        }
    }
}

#[test]
fn float_texts_are_those_that_parse() {
    let texts = [
        "0", "5.0", "0.0", "-1", "+1", "1.", ".5", "1e3", "1E3", "1e+3", "1e-3", "1.5e10", ".5e1",
        "5.e1", "inf", "-inf", "+INF", "Infinity", "-infinity", "nan", "NaN", "+nan", "1e", "e1",
        ".", "+", "-", "", "+.", "1e+", "1e-", "--1", "+-1", "1 ", " 1", "1,0", "0x10", "1_000",
        "1.2.3", "1e1.5", "infinit", "infinityy", "in", "na", "１", "1f", "1.0f64", "1e1e1", "..1",
        "1..", "٣", "1e٣", "9999999999999999999999999999", "1e999999", "0.000000000000000000001",
        "-.e1", ".e1", "+.5", "-5.", "00012", "1E", "E", "1.e", "1e 3", "i", "n", "NAN ", "+infinity",
    ];
    for text in texts {
        assert_eq!(is_float(text), text.parse::<f64>().is_ok(), "{:?}", text);
    }
    assert_eq!(chars_of("5.0"), vec!['5', '.', '0']);
}

#[test]
fn float_texts_agree_on_all_short_texts() {
    let alphabet = ['0', '7', '.', 'e', 'E', '+', '-', 'i', 'n', 'f', 'a', 'N', ' ', 'x'];
    let mut texts: Vec<String> = vec![String::new()];
    let mut from = 0;
    for _ in 0..4 {
        let to = texts.len();
        for k in from..to {
            for c in alphabet {
                let mut longer = texts[k].clone();
                longer.push(c);
                texts.push(longer);
            }
        }
        from = to;
    }
    for text in &texts {
        assert_eq!(is_float(text), text.parse::<f64>().is_ok(), "{:?}", text);
    }
}

fn all_off() -> Config {
    Config {
        enable_process_metrics: false,
        enable_disk_metrics: false,
        enable_file_metrics: false,
        enable_memory_metrics: false,
        enable_network_metrics: false,
        enable_kernel_metrics: false,
        enable_swap_metrics: false,
        enable_nfs_metrics: false,
        ..Config::default()
    }
}

#[test]
fn default_config_is_the_documented_one() {
    let config = Config::default();
    assert_eq!(config.product_type, "SERVER1");
    assert_eq!(config.serial_number, "1234");
    assert_eq!(config.pcp_metrics_filter, "");
    assert_eq!(config.validation_batch_size, 100);
    assert_eq!(config.influx_batch_size, 50000);
    assert_eq!(config.progress_log_interval, 50);
    assert!(!config.skip_validation);
    assert!(!config.force_revalidate);
    assert!(!config.enable_process_metrics);
    assert!(config.enable_disk_metrics);
    assert!(config.enable_file_metrics);
    assert!(config.enable_memory_metrics);
    assert!(config.enable_network_metrics);
    assert!(config.enable_kernel_metrics);
    assert!(config.enable_swap_metrics);
    assert!(!config.enable_nfs_metrics);
}

#[test]
fn default_config_drops_process_and_nfs_metrics() {
    let metrics = names(&[
        "proc.nprocs",
        "disk.dev.read",
        "vfs.files.count",
        "filesys.free",
        "mem.util.free",
        "network.interface.in.bytes",
        "kernel.all.cpu.user",
        "swap.used",
        "nfs.client.calls",
        "hinv.ncpu",
    ]);
    let kept = apply_category_filters(&metrics, &Config::default());
    assert_eq!(
        kept,
        names(&[
            "disk.dev.read",
            "vfs.files.count",
            "filesys.free",
            "mem.util.free",
            "network.interface.in.bytes",
            "kernel.all.cpu.user",
            "swap.used",
            "hinv.ncpu",
        ])
    );
}

#[test]
fn disabled_prefixes_are_dropped_and_nothing_else() {
    let metrics = names(&[
        "proc.nprocs",
        "process.one",
        "proc",
        "procx.y",
        "Proc.upper",
        "disk.dev.read",
        "disks.total",
        "vfs.files.count",
        "filesys.free",
        "files.open",
        "mem.util.free",
        "memory.total",
        "network.interface.in.bytes",
        "kernel.all.cpu.user",
        "swap.used",
        "nfs.client.calls",
        "nfs4.client.calls",
        "hinv.ncpu",
        "",
        ".proc.",
        "a.proc.b",
    ]);
    let kept = apply_category_filters(&metrics, &all_off());
    assert_eq!(
        kept,
        names(&[
            "process.one",
            "proc",
            "procx.y",
            "Proc.upper",
            "disks.total",
            "files.open",
            "memory.total",
            "nfs4.client.calls",
            "hinv.ncpu",
            "",
            ".proc.",
            "a.proc.b",
        ])
    );
    for name in &metrics {
        let prefixes =
            ["proc.", "disk.", "vfs.", "filesys.", "mem.", "network.", "kernel.", "swap.", "nfs."];
        let matches = prefixes.iter().any(|p| name.starts_with(p));
        assert_eq!(kept.contains(name), !matches, "{:?}", name);
    }
}

#[test]
fn enabled_categories_keep_everything() {
    let metrics = names(&["proc.a", "nfs.b", "disk.c", "x"]);
    let config = Config { enable_process_metrics: true, enable_nfs_metrics: true, ..Config::default() };
    assert_eq!(apply_category_filters(&metrics, &config), metrics);
    assert_eq!(apply_category_filters(&[], &config), Vec::<String>::new());
}

#[test]
fn drops_are_counted_per_category() {
    let metrics = names(&[
        "proc.a", "proc.b", "disk.a", "vfs.a", "filesys.b", "filesys.c", "mem.a", "network.a",
        "kernel.a", "kernel.b", "swap.a", "nfs.a", "other",
    ]);
    let report = filter_by_category(&metrics, &all_off());
    assert_eq!(report.kept, names(&["other"]));
    assert_eq!(
        report.dropped,
        CategoryCounts {
            process: 2,
            disk: 1,
            file: 3,
            memory: 1,
            network: 1,
            kernel: 2,
            swap: 1,
            nfs: 1,
        }
    );
    assert_eq!(report.dropped.total(), 12);
    let report = filter_by_category(&metrics, &Config::default());
    assert_eq!(report.kept.len(), 10);
    assert_eq!(report.dropped.process, 2);
    assert_eq!(report.dropped.nfs, 1);
    assert_eq!(report.dropped.total(), 3);
}

#[test]
fn drop_category_names_the_switched_off_category() {
    let off = all_off();
    assert_eq!(drop_category("proc.x", &off), Some(Category::Process));
    assert_eq!(drop_category("disk.x", &off), Some(Category::Disk));
    assert_eq!(drop_category("vfs.x", &off), Some(Category::File));
    assert_eq!(drop_category("filesys.x", &off), Some(Category::File));
    assert_eq!(drop_category("mem.x", &off), Some(Category::Memory));
    assert_eq!(drop_category("network.x", &off), Some(Category::Network));
    assert_eq!(drop_category("kernel.x", &off), Some(Category::Kernel));
    assert_eq!(drop_category("swap.x", &off), Some(Category::Swap));
    assert_eq!(drop_category("nfs.x", &off), Some(Category::Nfs));
    assert_eq!(drop_category("hinv.x", &off), None);
    assert_eq!(drop_category("disk.x", &Config::default()), None);
}
