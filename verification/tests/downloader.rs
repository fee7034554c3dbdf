use parfetch::DownloadError;
use parfetch::Downloader;
use parfetch::Strategy;
use parfetch::batch_bounds;
use parfetch::candidate_name;
use parfetch::capability_from_headers;
use parfetch::choose_strategy;
use parfetch::collect_results;
use parfetch::filename_for_url;
use parfetch::filename_from_path;
use parfetch::interpret_accept_ranges;
use parfetch::join_path;
use parfetch::parse_content_length;
use parfetch::plan;
use parfetch::range_header_value;
use parfetch::resolve_name;
use parfetch::split_stem_ext;
use parfetch::u64_to_dec;

#[test]
fn planner_partitions_small_range() {
    let segs = plan(10, 3);
    assert_eq!(segs.len(), 3);
    assert_eq!((segs[0].start, segs[0].end), (0, 2));
    assert_eq!((segs[1].start, segs[1].end), (3, 5));
    assert_eq!((segs[2].start, segs[2].end), (6, 9));
    for (i, s) in segs.iter().enumerate() {
        assert_eq!(s.index, i);
        assert!(s.start <= s.end);
    }
}

#[test]
fn planner_last_segment_ends_at_length_minus_one() {
    for (len, conns) in [(1u64, 1usize), (7, 2), (100, 7), (1000, 13), (12345, 4)] {
        let segs = plan(len, conns);
        assert_eq!(segs.last().unwrap().end, len - 1);
        assert_eq!(segs[0].start, 0);
        for w in segs.windows(2) {
            assert_eq!(w[0].end + 1, w[1].start);
        }
    }
}

#[test]
fn planner_clamps_when_connections_exceed_length() {
    let segs = plan(5, 8);
    assert_eq!(segs.len(), 5);
    for (i, s) in segs.iter().enumerate() {
        assert_eq!(s.start, i as u64);
        assert_eq!(s.end, i as u64);
    }
}

#[test]
fn planner_clamps_zero_connections_to_one() {
    let segs = plan(100, 0);
    assert_eq!(segs.len(), 1);
    assert_eq!((segs[0].start, segs[0].end), (0, 99));
}

#[test]
fn assembly_round_trip_any_order() {
    let source: Vec<u8> = (0..=255u8).cycle().take(1000).collect();
    let order: Vec<usize> = vec![2, 0, 1];
    let out = parfetch::assemble_in_order(&source, 3, &order);
    assert_eq!(out, source);
}

#[test]
fn assembly_round_trip_with_duplicates() {
    let source: Vec<u8> = (0..100u8).collect();
    let order: Vec<usize> = vec![3, 3, 1, 0, 2, 1];
    let out = parfetch::assemble_in_order(&source, 4, &order);
    assert_eq!(out, source);
}

#[test]
fn positional_write_leaves_rest_untouched() {
    let mut buf = vec![9u8; 5];
    let data = vec![1u8, 2];
    parfetch::apply_chunk(&mut buf, 2, &data);
    assert_eq!(buf, vec![9, 9, 1, 2, 9]);
}

#[test]
fn sequential_append_accumulates_in_order() {
    let mut buf: Vec<u8> = Vec::new();
    parfetch::append_chunk(&mut buf, &vec![1, 2, 3]);
    parfetch::append_chunk(&mut buf, &vec![4]);
    assert_eq!(buf, vec![1, 2, 3, 4]);
}

#[test]
fn strategy_sequential_when_length_unknown() {
    let cap = capability_from_headers(None, Some("bytes"));
    assert_eq!(cap.content_length, 0);
    assert_eq!(choose_strategy(&cap), Strategy::Sequential);

    let cap = capability_from_headers(Some("0"), Some("bytes"));
    assert_eq!(choose_strategy(&cap), Strategy::Sequential);

    let cap = capability_from_headers(Some("garbage"), Some("bytes"));
    assert_eq!(cap.content_length, 0);
    assert_eq!(choose_strategy(&cap), Strategy::Sequential);
}

#[test]
fn strategy_sequential_on_explicit_none_token() {
    for v in ["none", "NONE", "None", "nOnE"] {
        let cap = capability_from_headers(Some("1000"), Some(v));
        assert!(!cap.supports_ranges);
        assert_eq!(choose_strategy(&cap), Strategy::Sequential);
    }
}

#[test]
fn strategy_parallel_when_sized_and_ranged() {
    let cap = capability_from_headers(Some("1000000"), Some("bytes"));
    assert_eq!(cap.content_length, 1_000_000);
    assert!(cap.supports_ranges);
    assert_eq!(choose_strategy(&cap), Strategy::Parallel);
}

#[test]
fn range_support_requires_header_presence() {
    assert!(!interpret_accept_ranges(None));
    assert!(interpret_accept_ranges(Some("bytes")));
    assert!(interpret_accept_ranges(Some("nonsense")));
    assert!(!interpret_accept_ranges(Some("none")));
}

#[test]
fn content_length_parsing_edges() {
    assert_eq!(parse_content_length(""), 0);
    assert_eq!(parse_content_length("abc"), 0);
    assert_eq!(parse_content_length("12x"), 0);
    assert_eq!(parse_content_length("007"), 7);
    assert_eq!(parse_content_length("18446744073709551615"), u64::MAX);
    assert_eq!(parse_content_length("18446744073709551616"), 0);
    assert_eq!(parse_content_length("99999999999999999999999"), 0);
}

#[test]
fn decimal_rendering_exact() {
    assert_eq!(u64_to_dec(0), "0");
    assert_eq!(u64_to_dec(42), "42");
    assert_eq!(u64_to_dec(1_000_000), "1000000");
    assert_eq!(u64_to_dec(u64::MAX), "18446744073709551615");
}

#[test]
fn range_header_value_format() {
    assert_eq!(range_header_value(0, 249_999), "bytes=0-249999");
    assert_eq!(range_header_value(750_000, 999_999), "bytes=750000-999999");
}

#[test]
fn filename_extraction_from_url() {
    assert_eq!(filename_for_url("https://example.com/data.bin"), "data.bin");
    assert_eq!(filename_for_url("https://example.com/a/b/report.txt"), "report.txt");
    assert_eq!(filename_for_url("https://example.com/a/b.txt?x=1"), "b.txt");
    assert_eq!(filename_for_url("https://example.com"), "unnamed");
    assert_eq!(filename_for_url("https://example.com/"), "unnamed");
    assert_eq!(filename_for_url("not a url"), "unnamed");
}

#[test]
fn filename_from_path_edges() {
    assert_eq!(filename_from_path("/data.bin"), "data.bin");
    assert_eq!(filename_from_path("/a/b/c.txt"), "c.txt");
    assert_eq!(filename_from_path("/"), "unnamed");
    assert_eq!(filename_from_path(""), "unnamed");
    assert_eq!(filename_from_path("bare"), "bare");
}

#[test]
fn stem_and_extension_split() {
    assert_eq!(split_stem_ext("report.txt"), ("report".to_string(), "txt".to_string()));
    assert_eq!(split_stem_ext("archive.tar.gz"), ("archive.tar".to_string(), "gz".to_string()));
    assert_eq!(split_stem_ext("README"), ("README".to_string(), "".to_string()));
    assert_eq!(split_stem_ext(".bashrc"), (".bashrc".to_string(), "".to_string()));
    assert_eq!(split_stem_ext("a."), ("a".to_string(), "".to_string()));
}

#[test]
fn candidate_names_numbered() {
    assert_eq!(candidate_name("report.txt", 0), "report.txt");
    assert_eq!(candidate_name("report.txt", 1), "report (1).txt");
    assert_eq!(candidate_name("archive.tar.gz", 2), "archive.tar (2).gz");
    assert_eq!(candidate_name("README", 1), "README (1)");
}

#[test]
fn resolver_steps_past_existing_names() {
    let existing = vec!["report.txt".to_string()];
    let r = resolve_name(&existing, "report.txt");
    assert_eq!(r, Some("report (1).txt".to_string()));

    let existing = vec!["report.txt".to_string(), "report (1).txt".to_string()];
    let r = resolve_name(&existing, "report.txt");
    assert_eq!(r, Some("report (2).txt".to_string()));
}

#[test]
fn resolver_returns_fresh_name_untouched_directory() {
    let existing: Vec<String> = Vec::new();
    assert_eq!(resolve_name(&existing, "data.bin"), Some("data.bin".to_string()));
}

#[test]
fn resolver_handles_extensionless_names() {
    let existing = vec!["README".to_string(), "README (1)".to_string()];
    assert_eq!(resolve_name(&existing, "README"), Some("README (2)".to_string()));
}

#[test]
fn candidate_numbers_reach_two_digits() {
    assert_eq!(candidate_name("report.txt", 10), "report (10).txt");
}

#[test]
fn filename_ignores_query_and_port() {
    assert_eq!(filename_for_url("https://example.com:8080/d/file.iso"), "file.iso");
    assert_eq!(filename_for_url("https://example.com/file.iso#part"), "file.iso");
}

#[test]
fn path_join_inserts_single_separator() {
    assert_eq!(join_path("downloads", "a.txt"), "downloads/a.txt");
    assert_eq!(join_path("downloads/", "a.txt"), "downloads/a.txt");
    assert_eq!(join_path("", "a.txt"), "a.txt");
}

#[test]
fn downloader_clamps_connection_count() {
    let d = Downloader::new("out", 0);
    assert_eq!(d.conn_count, 1);
    let d = Downloader::new("out", 8);
    assert_eq!(d.conn_count, 8);
    assert_eq!(d.output_dir, "out");
}

#[test]
fn downloader_resolves_collision_free_output() {
    let d = Downloader::new("downloads", 4);
    let existing = vec!["data.bin".to_string()];
    let r = d.resolve_output(&existing, "https://example.com/data.bin");
    assert_eq!(r, Some("downloads/data (1).bin".to_string()));
}

#[test]
fn four_way_million_byte_plan() {
    let d = Downloader::new("out", 4);
    let segs = d.plan_segments(1_000_000);
    assert_eq!(segs.len(), 4);
    assert_eq!((segs[0].start, segs[0].end), (0, 249_999));
    assert_eq!((segs[1].start, segs[1].end), (250_000, 499_999));
    assert_eq!((segs[2].start, segs[2].end), (500_000, 749_999));
    assert_eq!((segs[3].start, segs[3].end), (750_000, 999_999));
}

#[test]
fn million_byte_parallel_round_trip() {
    let source: Vec<u8> = (0..1_000_000u32).map(|i| (i % 251) as u8).collect();
    let order: Vec<usize> = vec![3, 1, 0, 2];
    let out = parfetch::assemble_in_order(&source, 4, &order);
    assert_eq!(out.len(), 1_000_000);
    assert!(out == source);
}

#[test]
fn sequential_output_sized_by_body_not_header() {
    // probe said 999 bytes, the body carries 12345: the sequential path
    // writes exactly what arrived
    let cap = capability_from_headers(Some("0"), None);
    assert_eq!(choose_strategy(&cap), Strategy::Sequential);
    let mut file: Vec<u8> = Vec::new();
    let body = vec![7u8; 12_345];
    for chunk in body.chunks(4096) {
        parfetch::append_chunk(&mut file, &chunk.to_vec());
    }
    assert_eq!(file.len(), 12_345);
}

#[test]
fn segment_cursor_refuses_overrun() {
    let segs = plan(10, 2);
    let seg = segs[0];
    assert_eq!((seg.start, seg.end), (0, 4));
    let mut cursor = parfetch::SegmentCursor::new(&seg);
    assert_eq!(cursor.claim(3), Ok(0));
    assert_eq!(cursor.claim(2), Ok(3));
    assert!(cursor.is_complete());
    assert_eq!(cursor.claim(1), Err(DownloadError::RequestError));
}

#[test]
fn first_error_aborts_collection() {
    let results: Vec<Result<(), DownloadError>> = vec![
        Ok(()),
        Err(DownloadError::RequestError),
        Err(DownloadError::FileWriteError),
    ];
    assert_eq!(collect_results(results), Err(DownloadError::RequestError));
}

#[test]
fn all_successes_collected_in_order() {
    let results: Vec<Result<u32, DownloadError>> = vec![Ok(1), Ok(2), Ok(3)];
    assert_eq!(collect_results(results), Ok(vec![1, 2, 3]));
}

#[test]
fn batch_bounds_cover_in_order() {
    assert_eq!(batch_bounds(10, 4), vec![(0, 4), (4, 8), (8, 10)]);
    assert_eq!(batch_bounds(8, 4), vec![(0, 4), (4, 8)]);
    assert_eq!(batch_bounds(3, 4), vec![(0, 3)]);
    assert_eq!(batch_bounds(0, 4), Vec::<(usize, usize)>::new());
}

#[test]
fn error_descriptions() {
    assert_eq!(DownloadError::RequestError.describe(), "request failed");
    assert_eq!(DownloadError::TaskFailure.describe(), "task failed");
    assert_eq!(DownloadError::FileWriteError.describe(), "file write failed");
}

#[test]
fn take_range_copies_inclusive_window() {
    let source = vec![10u8, 11, 12, 13, 14];
    assert_eq!(parfetch::take_range(&source, 1, 3), vec![11, 12, 13]);
}
