use arango_etl::document::edge::witness_edge_key;
use arango_etl::text::{
    contains_key, decimal_string, hex_string, signed_decimal_string, unindent,
};

fn std_unindent(s: &str) -> String {
    s.lines().map(|line| line.trim_start()).collect::<Vec<_>>().join("\n")
}

#[test]
fn decimal_rendering() {
    assert_eq!(decimal_string(0), "0");
    assert_eq!(decimal_string(7), "7");
    assert_eq!(decimal_string(10), "10");
    assert_eq!(decimal_string(1_687_888_130_980), "1687888130980");
    assert_eq!(decimal_string(u64::MAX), "18446744073709551615");
}

#[test]
fn hexadecimal_rendering() {
    assert_eq!(hex_string(0), "0");
    assert_eq!(hex_string(15), "f");
    assert_eq!(hex_string(16), "10");
    assert_eq!(hex_string(0x8a1fb46622dffff), "8a1fb46622dffff");
    assert_eq!(hex_string(u64::MAX), "ffffffffffffffff");
    for n in [1u64, 255, 256, 4096, 0xdead_beef, 0x0123_4567_89ab_cdef] {
        assert_eq!(hex_string(n), format!("{:x}", n));
        assert_eq!(decimal_string(n), format!("{:?}", n));
    }
}

#[test]
fn unindent_strips_each_line() {
    let query = "\n    UPSERT { _key: \"k\" }\n    INSERT { a: 1 }\n\tUPDATE { a: 2 }\n    IN things";
    assert_eq!(
        unindent(query.to_string()),
        "\nUPSERT { _key: \"k\" }\nINSERT { a: 1 }\nUPDATE { a: 2 }\nIN things"
    );
}

#[test]
fn unindent_edge_cases() {
    assert_eq!(unindent(String::new()), "");
    assert_eq!(unindent("abc".to_string()), "abc");
    assert_eq!(unindent("  abc  ".to_string()), "abc  ");
    assert_eq!(unindent("a\n".to_string()), "a");
    assert_eq!(unindent("\n".to_string()), "");
    assert_eq!(unindent("\n\n".to_string()), "\n");
    assert_eq!(unindent("a\r\n  b\r\n".to_string()), "a\nb");
    assert_eq!(unindent("a\r".to_string()), "a\r");
    assert_eq!(unindent("   \n  x".to_string()), "\nx");
    assert_eq!(unindent("\u{3000}\u{a0}x\n\u{2003}y".to_string()), "x\ny");
    assert_eq!(unindent("\u{200b}x".to_string()), "\u{200b}x");
}

#[test]
fn unindent_agrees_with_lines_and_trim_start() {
    let samples = [
        "",
        " ",
        "\n",
        "\r\n",
        "\r",
        "a\rb",
        "  a\r\n\r\n  b",
        "\t\tx  \n y\n\n",
        "no indent",
        " \u{85}\u{1680}\u{2028}z\n\u{205f}\u{202f}w",
        "a\n\rb\n",
        "trailing \r\n \r",
    ];
    for sample in samples {
        assert_eq!(unindent(sample.to_string()), std_unindent(sample), "for {:?}", sample);
    }
}

#[test]
fn edge_key_of_two_known_cells() {
    assert_eq!(
        witness_edge_key(Some(631_246_145_620_214_783), Some(613_196_570_331_971_583)),
        "beacon_631246145620214783_witness_613196570331971583"
    );
    assert_eq!(witness_edge_key(Some(0), Some(1)), "beacon_0_witness_1");
}

#[test]
fn edge_key_sentinels() {
    let half = witness_edge_key(Some(631_246_145_620_214_783), None);
    assert_eq!(half, "beacon_631246145620214783_witness_unknown");
    assert!(half.ends_with("witness_unknown"));
    assert_eq!(witness_edge_key(None, Some(5)), "beacon_unknown_witness_5");
    assert_eq!(witness_edge_key(None, None), "beacon_unknown_witness_unknown");
}

#[test]
fn edge_key_agrees_with_formatting() {
    for (b, w) in [(Some(12u64), Some(u64::MAX)), (Some(u64::MAX), None), (None, Some(99))] {
        let expected = match (b, w) {
            (Some(b), Some(w)) => format!("beacon_{:?}_witness_{:?}", b, w),
            (Some(b), None) => format!("beacon_{:?}_witness_unknown", b),
            (None, Some(w)) => format!("beacon_unknown_witness_{:?}", w),
            (None, None) => "beacon_unknown_witness_unknown".to_string(),
        };
        assert_eq!(witness_edge_key(b, w), expected);
    }
}

#[test]
fn key_lookup_in_a_list() {
    let keys = vec!["a".to_string(), "bc".to_string()];
    assert!(contains_key(&keys, &"bc".to_string()));
    assert!(!contains_key(&keys, &"b".to_string()));
    assert!(!contains_key(&Vec::new(), &"a".to_string()));
}

#[test]
fn signed_decimal_rendering() {
    assert_eq!(signed_decimal_string(0), "0");
    assert_eq!(signed_decimal_string(-1), "-1");
    assert_eq!(signed_decimal_string(-1040), "-1040");
    assert_eq!(signed_decimal_string(55), "55");
    assert_eq!(signed_decimal_string(i64::MAX), "9223372036854775807");
    assert_eq!(signed_decimal_string(i64::MIN), "-9223372036854775808");
    for n in [-7i64, 13, -100_000, 1 << 40] {
        assert_eq!(signed_decimal_string(n), format!("{}", n));
    }
}
