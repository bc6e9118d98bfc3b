use deployment_helper::numeral::{float_literal, parse_u32, u32_decimal};
use deployment_helper::rounding::positive_literal;

fn chars(s: &str) -> Vec<char> {
    s.chars().collect()
}

#[test]
fn decimal_round_trips() {
    for n in [0u32, 7, 10, 42, 1000, 65535, 4_000_000_000, u32::MAX] {
        let text = u32_decimal(n);
        assert_eq!(text.iter().collect::<String>(), n.to_string());
        assert_eq!(parse_u32(&text), Some(n));
    }
}

#[test]
fn u32_parsing() {
    assert_eq!(parse_u32(&chars("12")), Some(12));
    assert_eq!(parse_u32(&chars("+12")), Some(12));
    assert_eq!(parse_u32(&chars("007")), Some(7));
    assert_eq!(parse_u32(&chars("4294967295")), Some(u32::MAX));
    assert_eq!(parse_u32(&chars("4294967296")), None);
    assert_eq!(parse_u32(&chars("")), None);
    assert_eq!(parse_u32(&chars("+")), None);
    assert_eq!(parse_u32(&chars("-1")), None);
    assert_eq!(parse_u32(&chars("1x")), None);
}

#[test]
fn float_literals_match_f32_parsing() {
    for s in [
        "32", "32.", ".5", "1e3", "1E-3", "+2.5", "-2.5", "inf", "infinity", "nan", "1e", "e3",
        ".", "", "1.2.3", "0x10", "12mm", "+", "-inf", "INF", "NaN", "Infinity", "1_0",
    ] {
        assert_eq!(float_literal(&chars(s)), s.parse::<f32>().is_ok(), "{s:?}");
    }
}

#[test]
fn positive_literals() {
    assert!(positive_literal(&chars("25")));
    assert!(positive_literal(&chars("0.5")));
    assert!(positive_literal(&chars("+1e2")));
    assert!(positive_literal(&chars("inf")));
    assert!(!positive_literal(&chars("0")));
    assert!(!positive_literal(&chars("0.000")));
    assert!(!positive_literal(&chars("-3")));
    assert!(!positive_literal(&chars("nan")));
    assert!(!positive_literal(&chars("mm")));
}

#[test]
fn positive_means_f32_reads_above_zero() {
    let half_least = "7.00649232162408535461864791644958065640130970938257885878534141944895541342930300743319094181060791015625e-46";
    let just_above = "7.006492321624085354618647916449580656401309709382578858785341419448955413429303007433190941810607910156251e-46";
    for s in [
        "1e-50", "1e-45", "7e-46", "7.1e-46", "0.0000000000000000000000000000000000000000000007", "0.0000000000000000000000000000000000000000000008",
        half_least, just_above, "70064923216240853546186479164495806564013097093825788587853414194489554134293030074331909418106079101562e-149",
        "70064923216240853546186479164495806564013097093825788587853414194489554134293030074331909418106079101563e-149",
        "1e99999999999999999999999", "1e-99999999999999999999999", "0e5", "000.000e-3", "25", "0.5", "1e400", "+3", "inf",
    ] {
        let expected = s.parse::<f32>().unwrap() > 0.0;
        assert_eq!(positive_literal(&chars(s)), expected, "{s:?}");
    }
    assert!(!positive_literal(&chars(half_least)));
    assert!(positive_literal(&chars(just_above)));
}
