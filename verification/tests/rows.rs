use pcp_parser::metrics_cache::MetricsCache;
use pcp_parser::sample::{
    parse_row, row_outcome, sanitize_field_name, Field, Header, RowOutcome, Tags, TimeSeriesPoint,
};
use pcp_parser::stream::{LineOutcome, SampleStream};
use pcp_parser::timestamp::{parse_timestamp, Timestamp};
use pcp_parser::value_filter::FilterRules;

const ROW: &str = "\"2024-01-01 00:00:01\",\"5.0\",\"0\"";

fn tags() -> Tags {
    Tags { product_type: "SERVER1".to_string(), serial_number: "1234".to_string() }
}

fn field(name: &str, value: &str) -> Field {
    Field { name: name.to_string(), value: value.to_string() }
}

fn sampled(outcome: RowOutcome) -> pcp_parser::sample::Sample {
    match outcome {
        RowOutcome::Sampled(sample) => sample,
        other => panic!("the row was not read: {:?}", other),
    }
}

fn names(list: &[&str]) -> Vec<String> {
    list.iter().map(|s| s.to_string()).collect()
}

#[test]
fn row_without_rules_keeps_both_fields() {
    let header = Header::parse("time,disk.dev.read,disk.dev.write");
    let sample = sampled(parse_row(&header, ROW, &tags(), &FilterRules::parse("")));
    let point = sample.point.expect("a point");
    assert_eq!(point.timestamp, Timestamp { seconds: 1704067201, nanos: 0 });
    assert_eq!(point.product_type, "SERVER1");
    assert_eq!(point.serial_number, "1234");
    assert_eq!(point.fields, vec![field("disk_dev_read", "5.0"), field("disk_dev_write", "0")]);
    let values: Vec<f64> = point.fields.iter().map(|f| f.value.parse::<f64>().unwrap()).collect();
    assert_eq!(values, vec![5.0, 0.0]);
    assert_eq!(sample.metrics, names(&["disk.dev.read", "disk.dev.write"]));
    assert_eq!(sample.invalid, 0);
    assert_eq!(sample.filtered, 0);
}

#[test]
fn row_with_skip_zero_keeps_one_field() {
    let header = Header::parse("time,disk.dev.read,disk.dev.write");
    let sample = sampled(parse_row(&header, ROW, &tags(), &FilterRules::parse("skip_zero")));
    let point = sample.point.expect("a point");
    assert_eq!(point.fields, vec![field("disk_dev_read", "5.0")]);
    assert_eq!(point.fields[0].value.parse::<f64>().unwrap(), 5.0);
    assert_eq!(sample.metrics, names(&["disk.dev.read"]));
    assert_eq!(sample.invalid, 0);
    assert_eq!(sample.filtered, 1);
}

#[test]
fn row_of_missing_values_gives_no_point() {
    let header = Header::parse("time,disk.dev.read,disk.dev.write");
    let row = "\"2024-01-01 00:00:01\",\"N/A\",\"?\"";
    let sample = sampled(parse_row(&header, row, &tags(), &FilterRules::parse("")));
    assert_eq!(sample.point, None);
    assert!(sample.metrics.is_empty());
    assert_eq!(sample.invalid, 2);
    assert_eq!(sample.filtered, 0);
}

#[test]
fn row_with_other_field_count_is_discarded() {
    let header = Header::parse("time,a,b");
    let rules = FilterRules::parse("");
    assert_eq!(parse_row(&header, "2024-01-01 00:00:01,1", &tags(), &rules), RowOutcome::Malformed);
    assert_eq!(
        parse_row(&header, "2024-01-01 00:00:01,1,2,3", &tags(), &rules),
        RowOutcome::Malformed
    );
    assert_eq!(parse_row(&header, "", &tags(), &rules), RowOutcome::Malformed);
}

#[test]
fn malformed_row_does_not_stop_the_stream() {
    let mut stream = SampleStream::new("SERVER1", "1234", "");
    let mut cache = MetricsCache::new(None);
    assert_eq!(stream.feed("time,a,b", &mut cache), LineOutcome::Header { columns: 3 });
    assert_eq!(
        stream.feed("2024-01-01 00:00:01,1", &mut cache),
        LineOutcome::Row { outcome: RowOutcome::Malformed, new_metrics: vec![] }
    );
    match stream.feed("2024-01-01 00:00:02,1,2", &mut cache) {
        LineOutcome::Row { outcome: RowOutcome::Sampled(sample), new_metrics } => {
            assert_eq!(sample.point.unwrap().fields, vec![field("a", "1"), field("b", "2")]);
            assert_eq!(new_metrics, names(&["a", "b"]));
        }
        other => panic!("unexpected {:?}", other),
    }
}

#[test]
fn row_with_unreadable_timestamp_is_discarded() {
    let header = Header::parse("time,a");
    let rules = FilterRules::parse("");
    assert_eq!(parse_row(&header, "yesterday,1", &tags(), &rules), RowOutcome::BadTimestamp);
    assert_eq!(parse_row(&header, "2024-13-01 00:00:01,1", &tags(), &rules), RowOutcome::BadTimestamp);
    assert_eq!(parse_row(&header, ",1", &tags(), &rules), RowOutcome::BadTimestamp);
    assert_eq!(row_outcome(&header, "x,1", None, &tags(), &rules), RowOutcome::BadTimestamp);
}

#[test]
fn row_outcome_takes_the_timestamp_it_is_given() {
    let header = Header::parse("time,a");
    let stamp = Timestamp { seconds: 7, nanos: 9 };
    let sample =
        sampled(row_outcome(&header, "whatever,1.5", Some(stamp), &tags(), &FilterRules::parse("")));
    assert_eq!(
        sample.point,
        Some(TimeSeriesPoint {
            timestamp: stamp,
            product_type: "SERVER1".to_string(),
            serial_number: "1234".to_string(),
            fields: vec![field("a", "1.5")],
        })
    );
}

#[test]
fn timestamp_is_read_as_utc() {
    assert_eq!(parse_timestamp("1970-01-01 00:00:00"), Some(Timestamp { seconds: 0, nanos: 0 }));
    assert_eq!(
        parse_timestamp("2024-01-01 00:00:01"),
        Some(Timestamp { seconds: 1704067201, nanos: 0 })
    );
    assert_eq!(
        parse_timestamp("2015-09-05 23:56:04"),
        Some(Timestamp { seconds: 1441497364, nanos: 0 })
    );
    assert_eq!(parse_timestamp("2024-01-01"), None);
    assert_eq!(parse_timestamp("2024-02-30 00:00:00"), None);
    assert_eq!(parse_timestamp("2024-01-01 24:00:00"), None);
    assert_eq!(parse_timestamp(""), None);
}

#[test]
fn leap_second_keeps_its_nanoseconds() {
    assert_eq!(
        parse_timestamp("2015-06-30 23:59:60"),
        Some(Timestamp { seconds: 1435708799, nanos: 1_000_000_000 })
    );
}

#[test]
fn header_columns_lose_whitespace_and_quotes() {
    let header = Header::parse(" \"Time\" , \"kernel.all.load\",mem.util.free ,\"\"");
    assert_eq!(header.len(), 4);
    assert_eq!(header.column(0), "Time");
    assert_eq!(header.column(1), "kernel.all.load");
    assert_eq!(header.column(2), "mem.util.free");
    assert_eq!(header.column(3), "");
    assert_eq!(Header::parse("").len(), 1);
    assert_eq!(Header::parse("").column(0), "");
}

#[test]
fn cells_lose_whitespace_then_quotes() {
    let header = Header::parse("time,a,b,c");
    let row = "2024-01-01 00:00:01, \"1\" ,\"\"2\"\",\" 3\"";
    let sample = sampled(parse_row(&header, row, &tags(), &FilterRules::parse("")));
    // the third cell keeps the blank inside its quotes and is no number
    assert_eq!(sample.point.unwrap().fields, vec![field("a", "1"), field("b", "2")]);
    assert_eq!(sample.invalid, 1);
}

#[test]
fn invalid_and_filtered_cells_are_counted_apart() {
    let header = Header::parse("time,a,b,c,d,e,f");
    let row = "2024-01-01 00:00:01,abc,0.0,,none,1e3,0";
    let sample = sampled(parse_row(&header, row, &tags(), &FilterRules::parse("skip_zero")));
    assert_eq!(sample.point.unwrap().fields, vec![field("e", "1e3")]);
    assert_eq!(sample.invalid, 3);
    assert_eq!(sample.filtered, 2);
    assert_eq!(sample.metrics, names(&["e"]));
}

#[test]
fn later_column_of_same_field_name_wins() {
    let header = Header::parse("time,a.b,x,a-b,a b");
    let row = "2024-01-01 00:00:01,1,2,3,4";
    let sample = sampled(parse_row(&header, row, &tags(), &FilterRules::parse("")));
    assert_eq!(sample.point.unwrap().fields, vec![field("a_b", "4"), field("x", "2")]);
    assert_eq!(sample.metrics, names(&["a.b", "x", "a-b", "a b"]));
}

#[test]
fn sanitize_replaces_dot_dash_and_space() {
    assert_eq!(sanitize_field_name("disk.dev.read"), "disk_dev_read");
    assert_eq!(sanitize_field_name("a-b c.d_e"), "a_b_c_d_e");
    assert_eq!(sanitize_field_name(""), "");
    assert_eq!(sanitize_field_name("naïve.métrique"), "naïve_métrique");
    assert_eq!(sanitize_field_name("tab\there"), "tab\there");
}

#[test]
fn stream_passes_over_empty_lines_and_reads_header_first() {
    let mut stream = SampleStream::new("P", "S", "skip_zero");
    let mut cache = MetricsCache::new(None);
    assert_eq!(stream.feed("", &mut cache), LineOutcome::Blank);
    assert_eq!(
        stream.feed("Time,\"disk.dev.read\",\"disk.dev.write\"", &mut cache),
        LineOutcome::Header { columns: 3 }
    );
    assert_eq!(stream.feed("", &mut cache), LineOutcome::Blank);
    match stream.feed(ROW, &mut cache) {
        LineOutcome::Row { outcome: RowOutcome::Sampled(sample), new_metrics } => {
            let point = sample.point.unwrap();
            assert_eq!(point.product_type, "P");
            assert_eq!(point.serial_number, "S");
            assert_eq!(point.fields, vec![field("disk_dev_read", "5.0")]);
            assert_eq!(new_metrics, names(&["disk.dev.read"]));
        }
        other => panic!("unexpected {:?}", other),
    }
    assert!(cache.contains("disk.dev.read"));
    assert!(!cache.contains("disk.dev.write"));
    // the same row again brings nothing new into the cache
    match stream.feed(ROW, &mut cache) {
        LineOutcome::Row { outcome: RowOutcome::Sampled(_), new_metrics } => {
            assert!(new_metrics.is_empty());
        }
        other => panic!("unexpected {:?}", other),
    }
}

#[test]
fn stream_names_each_new_metric_once() {
    let mut stream = SampleStream::new("P", "S", "");
    let mut cache = MetricsCache::new(None);
    cache.add_metric("b");
    stream.feed("t,a,b,a,c", &mut cache);
    match stream.feed("2024-01-01 00:00:01,1,2,3,4", &mut cache) {
        LineOutcome::Row { new_metrics, .. } => assert_eq!(new_metrics, names(&["a", "c"])),
        other => panic!("unexpected {:?}", other),
    }
}
