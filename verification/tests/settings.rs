use pcp_parser::config::{parse_count, Config, ConfigValues};
use pcp_parser::value_filter::FilterRules;

fn nothing() -> ConfigValues {
    ConfigValues {
        pcp_metrics_filter: None,
        validation_batch_size: None,
        influx_batch_size: None,
        progress_log_interval: None,
        skip_validation: None,
        force_revalidate: None,
        enable_process_metrics: None,
        enable_disk_metrics: None,
        enable_file_metrics: None,
        enable_memory_metrics: None,
        enable_network_metrics: None,
        enable_kernel_metrics: None,
        enable_swap_metrics: None,
        enable_nfs_metrics: None,
    }
}

fn text(value: &str) -> Option<String> {
    Some(value.to_string())
}

#[test]
fn nothing_configured_gives_the_defaults() {
    assert_eq!(Config::from_values(&nothing()), Config::default());
}

#[test]
fn configured_values_replace_the_defaults() {
    let values = ConfigValues {
        pcp_metrics_filter: text("Skip_Zero, SKIP_NONE"),
        validation_batch_size: text("25"),
        influx_batch_size: text("+1000"),
        progress_log_interval: text("7"),
        skip_validation: text("TRUE"),
        force_revalidate: text("true"),
        enable_process_metrics: text("True"),
        enable_disk_metrics: text("false"),
        enable_file_metrics: text("no"),
        enable_memory_metrics: text(""),
        enable_network_metrics: text("0"),
        enable_kernel_metrics: text(" true"),
        enable_swap_metrics: text("truee"),
        enable_nfs_metrics: text("tRuE"),
    };
    let config = Config::from_values(&values);
    assert_eq!(
        config,
        Config {
            product_type: "SERVER1".to_string(),
            serial_number: "1234".to_string(),
            pcp_metrics_filter: "skip_zero, skip_none".to_string(),
            validation_batch_size: 25,
            influx_batch_size: 1000,
            progress_log_interval: 7,
            skip_validation: true,
            force_revalidate: true,
            enable_process_metrics: true,
            enable_disk_metrics: false,
            enable_file_metrics: false,
            enable_memory_metrics: false,
            enable_network_metrics: false,
            enable_kernel_metrics: false,
            enable_swap_metrics: false,
            enable_nfs_metrics: true,
        }
    );
    assert_eq!(
        FilterRules::parse(&config.pcp_metrics_filter),
        FilterRules { skip_zero: true, skip_empty: false, skip_none: true }
    );
}

#[test]
fn count_that_is_no_number_gives_the_default() {
    let values = ConfigValues {
        validation_batch_size: text("many"),
        influx_batch_size: text("-5"),
        progress_log_interval: text("99999999999999999999999999"),
        ..nothing()
    };
    let config = Config::from_values(&values);
    assert_eq!(config.validation_batch_size, 100);
    assert_eq!(config.influx_batch_size, 50000);
    assert_eq!(config.progress_log_interval, 50);
    let zero = Config::from_values(&ConfigValues { validation_batch_size: text("0"), ..nothing() });
    assert_eq!(zero.validation_batch_size, 0);
}

#[test]
fn filter_is_lowercased_as_the_standard_library_does() {
    for raw in ["SKIP_ZERO", "S\u{212A}IP_ZERO", "Skip_Émpty", "ΣΑΣ", "İ", ""] {
        let config = Config::from_values(&ConfigValues { pcp_metrics_filter: text(raw), ..nothing() });
        assert_eq!(config.pcp_metrics_filter, raw.to_lowercase(), "{:?}", raw);
    }
    let config = Config::from_values(&ConfigValues {
        pcp_metrics_filter: text("S\u{212A}IP_ZERO"),
        ..nothing()
    });
    assert!(FilterRules::parse(&config.pcp_metrics_filter).skip_zero);
}

#[test]
fn counts_are_read_as_the_standard_library_reads_them() {
    let max = usize::MAX.to_string();
    let over = format!("{}0", max);
    let texts = [
        "0", "7", "100", "50000", "+5", "+0", "-5", "-0", "", "+", "-", "++1", "+-1", "00012",
        "1 2", " 1", "1 ", "1_000", "1e3", "0x10", "1.0", "٣", "１", "12a", "a12",
        "18446744073709551615", "18446744073709551616", "4294967295", "4294967296",
        "99999999999999999999999", "000000000000000000000000000001", max.as_str(), over.as_str(),
    ];
    for value in texts {
        assert_eq!(parse_count(value), value.parse::<usize>().ok(), "{:?}", value);
    }
    assert_eq!(parse_count("123"), Some(123));
    assert_eq!(parse_count("+123"), Some(123));
    assert_eq!(parse_count(&max), Some(usize::MAX));
    assert_eq!(parse_count(&over), None);
}

#[test]
fn flags_agree_with_lowercasing() {
    let letters: Vec<char> = "true".chars().collect();
    for at in 0..letters.len() {
        for code in 0..=0x10FFFFu32 {
            let Some(c) = char::from_u32(code) else { continue };
            if c.is_ascii() || c.to_lowercase().any(|l| l.is_ascii()) {
                let mut value = letters.clone();
                value[at] = c;
                let value: String = value.into_iter().collect();
                let config = Config::from_values(&ConfigValues {
                    skip_validation: Some(value.clone()),
                    ..nothing()
                });
                assert_eq!(config.skip_validation, value.to_lowercase() == "true", "{:?}", value);
            }
        }
    }
}

#[test]
fn tag_lines_set_the_two_tags() {
    let mut config = Config::default();
    config.apply_tag_line("PRODUCT_TYPE=ROUTER9");
    assert_eq!(config.product_type, "ROUTER9");
    assert_eq!(config.serial_number, "1234");
    config.apply_tag_line("  SERIAL_NUMBER = SN 00 42  ");
    assert_eq!(config.serial_number, "SN 00 42");
    config.apply_tag_line("PRODUCT_TYPE=a=b");
    assert_eq!(config.product_type, "a=b");
    config.apply_tag_line("SERIAL_NUMBER=");
    assert_eq!(config.serial_number, "");
    let expected = Config {
        product_type: "a=b".to_string(),
        serial_number: String::new(),
        ..Config::default()
    };
    assert_eq!(config, expected);
}

#[test]
fn other_lines_set_nothing() {
    let lines = [
        "",
        "   ",
        "# PRODUCT_TYPE=X",
        "  #SERIAL_NUMBER=Y",
        "PRODUCT_TYPE",
        "product_type=x",
        "PRODUCT TYPE=x",
        "OTHER=1",
        "=PRODUCT_TYPE",
        "INFLUXDB_TOKEN=PRODUCT_TYPE=x",
    ];
    for line in lines {
        let mut config = Config::default();
        config.apply_tag_line(line);
        assert_eq!(config, Config::default(), "{:?}", line);
    }
}
