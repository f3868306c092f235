use chainsmith::toolchain::ToolchainMemo;
use chainsmith::version::{detect_version, extract_versions, file_versions, line_versions, max_version, parse_version, version_text};

#[test]
fn extract_versions_keeps_three_component_tokens() {
    assert_eq!(extract_versions("pragma solidity ^0.8.19;"), vec!["0.8.19".to_string()]);
    assert_eq!(extract_versions("pragma solidity >=0.8.0 <0.9.0;"), vec!["0.8.0".to_string(), "0.9.0".to_string()]);
    assert_eq!(extract_versions("1.2.3.4 and 5.6.7"), vec!["5.6.7".to_string()]);
    assert_eq!(extract_versions("0.8.1"), vec!["0.8.1".to_string()]);
    assert!(extract_versions("").is_empty());
    assert!(extract_versions("no digits here").is_empty());
}

#[test]
fn parse_version_reads_triples() {
    assert_eq!(parse_version("0.8.10"), Some((0, 8, 10)));
    assert_eq!(parse_version("+1.2.3"), Some((1, 2, 3)));
    assert_eq!(parse_version("4294967295.0.1"), Some((4294967295, 0, 1)));
    assert_eq!(parse_version("4294967296.0.1"), None);
    assert_eq!(parse_version("1.2"), None);
    assert_eq!(parse_version("1.2.3.4"), None);
    assert_eq!(parse_version("1..3"), None);
    assert_eq!(parse_version("a.b.c"), None);
    assert_eq!(parse_version(""), None);
}

#[test]
fn directive_lines_only() {
    assert_eq!(line_versions("pragma solidity 0.8.19;"), vec![(0, 8, 19)]);
    assert!(line_versions("// compiled with 0.8.19").is_empty());
    assert_eq!(line_versions("pragma solidity >=0.7.6 <0.9.0 1..2;"), vec![(0, 7, 6), (0, 9, 0)]);
}

#[test]
fn max_by_number_not_by_text() {
    let files = vec![
        "pragma solidity 0.8.9;\ncontract A {}\n".to_string(),
        "pragma solidity 0.8.10;\ncontract B {}\n".to_string(),
    ];
    assert_eq!(detect_version(&files), Some((0, 8, 10)));
    assert_eq!(max_version(&vec![(0, 8, 9), (0, 8, 10), (0, 7, 99)]), Some((0, 8, 10)));
    assert_eq!(max_version(&vec![(1, 0, 0), (0, 99, 99)]), Some((1, 0, 0)));
    assert_eq!(max_version(&vec![]), None);
}

#[test]
fn no_directive_means_no_version() {
    let files = vec!["contract A {}\n".to_string(), String::new()];
    assert_eq!(detect_version(&files), None);
    assert_eq!(detect_version(&vec![]), None);
}

#[test]
fn only_leading_lines_are_searched() {
    let mut late = String::new();
    for _ in 0..20 {
        late.push_str("// filler\n");
    }
    late.push_str("pragma solidity 0.8.30;\n");
    assert!(file_versions(&late).is_empty());
    let mut early = String::new();
    for _ in 0..19 {
        early.push_str("// filler\r\n");
    }
    early.push_str("pragma solidity 0.8.30;\r\n");
    assert_eq!(file_versions(&early), vec![(0, 8, 30)]);
}

#[test]
fn single_file_version() {
    let files = vec!["// SPDX-License-Identifier: MIT\npragma solidity 0.8.19;\ncontract Token {}\n".to_string()];
    assert_eq!(detect_version(&files), Some((0, 8, 19)));
}

#[test]
fn version_text_is_dotted_decimal() {
    assert_eq!(version_text((0, 8, 19)), "0.8.19");
    assert_eq!(version_text((10, 0, 4294967295)), "10.0.4294967295");
}

#[test]
fn memo_skips_repeated_alignment() {
    let mut memo = ToolchainMemo::new();
    let files = vec!["pragma solidity 0.8.19;".to_string()];
    assert_eq!(memo.plan(&files), Some((0, 8, 19)));
    memo.record((0, 8, 19), false);
    assert_eq!(memo.plan(&files), Some((0, 8, 19)));
    memo.record((0, 8, 19), true);
    assert_eq!(memo.plan(&files), None);
    assert!(!memo.needs_alignment((0, 8, 19)));
    assert!(memo.needs_alignment((0, 8, 20)));
    assert_eq!(memo.plan(&vec!["contract A {}".to_string()]), None);
}

#[test]
fn version_text_reads_back() {
    for t in [(0, 8, 19), (0, 0, 0), (4294967295, 10, 7)] {
        assert_eq!(parse_version(&version_text(t)), Some(t));
    }
}
