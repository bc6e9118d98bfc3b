use deployment_helper::army_list::{
    parse_count_and_name, parse_listforge, parse_unit_line, strip_bullet, try_parse_listforge,
    ParsedUnit,
};

const SAMPLE_LIST: &str = r#"My Army - Space Marines - Gladius Task Force (1000 pts)

## Battleline (500 pts)
Intercessor Squad (100 pts): Sergeant with auspex
  • 4x Intercessor: Bolt rifle
  • Intercessor Sergeant: Bolt rifle, Auspex

Tactical Squad (100 pts)
  • 9x Tactical Marine: Boltgun

## HQ (250 pts)
Captain (90 pts)
"#;

fn find<'a>(units: &'a [ParsedUnit], name: &str) -> &'a ParsedUnit {
    units.iter().find(|u| u.name == name).unwrap()
}

#[test]
fn parses_units() {
    let units = parse_listforge(SAMPLE_LIST);
    assert_eq!(units.len(), 3, "Expected 3 units");
}

#[test]
fn parses_model_counts() {
    let units = parse_listforge(SAMPLE_LIST);
    let intercessors = find(&units, "Intercessor Squad");
    assert_eq!(intercessors.model_count("Intercessor").unwrap(), 4);
    assert_eq!(intercessors.model_count("Intercessor Sergeant").unwrap(), 1);
}

#[test]
fn unit_with_no_models_gets_self_count() {
    let units = parse_listforge(SAMPLE_LIST);
    let captain = find(&units, "Captain");
    assert_eq!(captain.model_count("Captain").unwrap(), 1);
}

#[test]
fn parses_nx_prefix() {
    let units = parse_listforge(SAMPLE_LIST);
    let tactical = find(&units, "Tactical Squad");
    assert_eq!(tactical.model_count("Tactical Marine").unwrap(), 9);
}

#[test]
fn units_keep_list_order_and_names() {
    let units = parse_listforge(SAMPLE_LIST);
    let names: Vec<&str> = units.iter().map(|u| u.name.as_str()).collect();
    assert_eq!(names, vec!["Intercessor Squad", "Tactical Squad", "Captain"]);
    assert_eq!(
        units[0].model_counts,
        vec![("Intercessor".to_string(), 4), ("Intercessor Sergeant".to_string(), 1)]
    );
}

#[test]
fn repeated_model_lines_add_up() {
    let text = "Boyz (80 pts)\n  • 9x Boy: Choppa\n  • Boss Nob: Big choppa\n  • 10X Boy: Slugga\n";
    let units = parse_listforge(text);
    assert_eq!(units.len(), 1);
    assert_eq!(
        units[0].model_counts,
        vec![("Boy".to_string(), 19), ("Boss Nob".to_string(), 1)]
    );
}

#[test]
fn model_lines_before_any_unit_are_ignored() {
    let units = parse_listforge("  • 3x Stray: Gun\r\nSquad (10 pts)\r\n");
    assert_eq!(units.len(), 1);
    assert_eq!(units[0].name, "Squad");
    assert_eq!(units[0].model_counts, vec![("Squad".to_string(), 1)]);
}

#[test]
fn empty_text_has_no_units() {
    assert!(parse_listforge("").is_empty());
    assert!(parse_listforge("\n\n   \n").is_empty());
}

#[test]
fn count_overflow_is_reported() {
    let text = "Horde (10 pts)\n  • 4294967295x Gretchin\n  • 1x Gretchin\n";
    assert!(try_parse_listforge(text).is_none());
    let fits = "Horde (10 pts)\n  • 4294967294x Gretchin\n  • 1x Gretchin\n";
    let units = try_parse_listforge(fits).unwrap();
    assert_eq!(units[0].model_count("Gretchin"), Some(4294967295));
}

#[test]
fn bullet_needs_two_bytes_of_indent() {
    assert_eq!(strip_bullet("  • 4x Intercessor: Bolt rifle").as_deref(), Some("4x Intercessor: Bolt rifle"));
    assert_eq!(strip_bullet(" • Intercessor"), None);
    assert_eq!(strip_bullet("\u{a0}• Intercessor").as_deref(), Some("Intercessor"));
    assert_eq!(strip_bullet("   - Intercessor"), None);
    assert_eq!(strip_bullet("  •"), Some(String::new()));
}

#[test]
fn unit_line_needs_points() {
    assert_eq!(parse_unit_line("Intercessor Squad (100 pts): Sergeant").as_deref(), Some("Intercessor Squad"));
    assert_eq!(parse_unit_line("  Captain (90 pts)  ").as_deref(), Some("Captain"));
    assert_eq!(parse_unit_line("Captain: (90 pts)").as_deref(), Some("Captain"));
    assert_eq!(parse_unit_line("Captain (ninety pts)"), None);
    assert_eq!(parse_unit_line("Captain (+90pts)").as_deref(), Some("Captain"));
    assert_eq!(parse_unit_line("## HQ (250 pts)"), None);
    assert_eq!(parse_unit_line("(90 pts)"), None);
    assert_eq!(parse_unit_line("Captain 90 pts"), None);
    assert_eq!(
        parse_unit_line("Captain (90 pts): Relic Shield (Artificer)").as_deref(),
        Some("Captain")
    );
    assert_eq!(
        parse_unit_line("Captain (Terminator) (110 pts): Storm bolter").as_deref(),
        Some("Captain (Terminator)")
    );
    assert_eq!(
        parse_unit_line("Warboss (80 pts): Big Choppa (15 pts)").as_deref(),
        Some("Warboss (80 pts): Big Choppa")
    );
    assert_eq!(parse_unit_line("A (1 pts) (2 pts)").as_deref(), Some("A (1 pts)"));
}

#[test]
fn count_and_name_forms() {
    assert_eq!(parse_count_and_name("4x Intercessor: Bolt rifle"), (4, "Intercessor".to_string()));
    assert_eq!(parse_count_and_name("Intercessor Sergeant: Bolt rifle"), (1, "Intercessor Sergeant".to_string()));
    assert_eq!(parse_count_and_name("Hexwraith"), (1, "Hexwraith".to_string()));
    assert_eq!(parse_count_and_name("3x"), (1, "3x".to_string()));
    assert_eq!(parse_count_and_name(" 2 X Ogryn "), (2, "Ogryn".to_string()));
    assert_eq!(parse_count_and_name("2X Poxwalker: Claws"), (2, "Poxwalker".to_string()));
    assert_eq!(parse_count_and_name("Poxwalker: Claws"), (1, "Poxwalker".to_string()));
    assert_eq!(parse_count_and_name("Boxer 3x"), (1, "Boxer 3x".to_string()));
    assert_eq!(parse_count_and_name("10x Gretchin"), (10, "Gretchin".to_string()));
    assert_eq!(parse_count_and_name("+4x Foo"), (4, "Foo".to_string()));
    assert_eq!(parse_count_and_name("+x Foo"), (1, "+x Foo".to_string()));
}
