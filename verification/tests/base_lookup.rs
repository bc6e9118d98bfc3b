use deployment_helper::army_list::parse_listforge;
use deployment_helper::import::plan_import;
use deployment_helper::base_lookup::{
    parse_base_size, parse_movement, try_parse_circle, try_parse_oval, BaseDatabase, BaseShape,
    DatasheetModelRecord, DatasheetRecord,
};

/// A base shape with its sizes read as `f32`, as the board uses them.
#[derive(Debug, PartialEq)]
enum Shape {
    Circle { diameter_mm: f32 },
    Oval { width_mm: f32, height_mm: f32 },
    Hull,
    FlyingBase { large: bool },
    Unknown,
}

fn sized(b: BaseShape) -> Shape {
    match b {
        BaseShape::Circle { diameter_mm } => Shape::Circle { diameter_mm: diameter_mm.parse().unwrap() },
        BaseShape::Oval { width_mm, height_mm } => Shape::Oval {
            width_mm: width_mm.parse().unwrap(),
            height_mm: height_mm.parse().unwrap(),
        },
        BaseShape::Hull => Shape::Hull,
        BaseShape::FlyingBase { large } => Shape::FlyingBase { large },
        BaseShape::Unknown => Shape::Unknown,
    }
}

#[test]
fn parse_simple_circle() {
    assert_eq!(sized(parse_base_size("32mm")), Shape::Circle { diameter_mm: 32.0 });
}

#[test]
fn parse_decimal_circle() {
    assert_eq!(sized(parse_base_size("28.5mm")), Shape::Circle { diameter_mm: 28.5 });
}

#[test]
fn parse_oval_nospace() {
    assert_eq!(
        sized(parse_base_size("60x35.5mm Oval Base")),
        Shape::Oval { width_mm: 60.0, height_mm: 35.5 }
    );
}

#[test]
fn parse_oval_space() {
    assert_eq!(
        sized(parse_base_size("60 x 35.5mm Oval Base")),
        Shape::Oval { width_mm: 60.0, height_mm: 35.5 }
    );
}

#[test]
fn parse_oval_unicode() {
    assert_eq!(
        sized(parse_base_size("60×35mm Oval Base")),
        Shape::Oval { width_mm: 60.0, height_mm: 35.0 }
    );
}

#[test]
fn parse_hull() {
    assert_eq!(sized(parse_base_size("Hull")), Shape::Hull);
}

#[test]
fn parse_large_flying_base() {
    assert_eq!(sized(parse_base_size("Large Flying Base")), Shape::FlyingBase { large: true });
}

#[test]
fn parse_small_flying_base() {
    assert_eq!(sized(parse_base_size("Small Flying Base")), Shape::FlyingBase { large: false });
}

#[test]
fn parse_unique() {
    assert_eq!(sized(parse_base_size("Unique")), Shape::Unknown);
}

#[test]
fn parse_multiline_uses_first() {
    let raw = "Boss Nob: 40mm\nBreaka Boyz: 32mm";
    assert_eq!(sized(parse_base_size(raw)), Shape::Circle { diameter_mm: 40.0 });
}

#[test]
fn parse_with_colon_prefix() {
    assert_eq!(sized(parse_base_size("Deathshroud: 40mm")), Shape::Circle { diameter_mm: 40.0 });
}

#[test]
fn sizes_keep_the_numeral_as_written() {
    assert_eq!(parse_base_size("28.5mm"), BaseShape::Circle { diameter_mm: "28.5".to_string() });
    assert_eq!(
        parse_base_size("  Hull Base  "),
        BaseShape::Hull
    );
    assert_eq!(parse_base_size("N/A"), BaseShape::Unknown);
    assert_eq!(parse_base_size(""), BaseShape::Unknown);
    assert_eq!(parse_base_size("0mm"), BaseShape::Unknown);
    assert_eq!(parse_base_size("-5mm"), BaseShape::Unknown);
    assert_eq!(parse_base_size("25 mm round"), BaseShape::Circle { diameter_mm: "25".to_string() });
    assert_eq!(parse_base_size("Flying Base"), BaseShape::FlyingBase { large: false });
    assert_eq!(parse_base_size("1x2x3mm"), BaseShape::Unknown);
}

#[test]
fn oval_and_circle_readers() {
    assert_eq!(
        try_parse_oval("75X42mm oval"),
        Some(BaseShape::Oval { width_mm: "75".to_string(), height_mm: "42".to_string() })
    );
    assert_eq!(try_parse_oval("75mm"), None);
    assert_eq!(try_parse_circle("50MM"), Some(BaseShape::Circle { diameter_mm: "50".to_string() }));
    assert_eq!(try_parse_circle("large"), None);
}

#[test]
fn sizes_that_round_to_zero_are_unknown() {
    assert_eq!(parse_base_size("1e-50mm"), BaseShape::Unknown);
    assert_eq!(parse_base_size("0mm"), BaseShape::Unknown);
    assert_eq!(parse_base_size("1e-45mm"), BaseShape::Circle { diameter_mm: "1e-45".to_string() });
    assert_eq!(try_parse_circle("7e-46mm"), None);
}

#[test]
fn movement_numerals() {
    assert_eq!(parse_movement("6\"").as_deref(), Some("6"));
    assert_eq!(parse_movement(" 12.5\" ").as_deref(), Some("12.5"));
    assert_eq!(parse_movement("-"), None);
    assert_eq!(parse_movement("20+\""), None);
}

fn sheet(id: &str, name: &str) -> DatasheetRecord {
    DatasheetRecord { id: id.to_string(), name: name.to_string() }
}

fn model(sheet_id: &str, name: &str, m: Option<&str>, base: Option<&str>) -> DatasheetModelRecord {
    DatasheetModelRecord {
        datasheet_id: sheet_id.to_string(),
        name: name.to_string(),
        movement: m.map(|s| s.to_string()),
        base_size: base.map(|s| s.to_string()),
    }
}

fn sample_db() -> BaseDatabase {
    BaseDatabase::load(
        vec![sheet("001", "Rotigus"), sheet("002", "Skarbrand"), sheet("003", "Boyz")],
        vec![
            model("001", "Rotigus", Some("8\""), Some("100mm")),
            model("002", "Skarbrand", Some("9\""), Some("100mm")),
            model("003", "Boy", Some("6\""), Some("32mm")),
            model("003", "Boss Nob", Some("6\""), Some("40mm")),
        ],
    )
}

#[test]
fn has_model_rejects_wargear() {
    let base_db = sample_db();
    assert!(!base_db.has_model("Rotigus", "Gnarlrod"));
    assert!(!base_db.has_model("Skarbrand", "Bellow of endless fury"));
}

#[test]
fn has_model_ignores_case() {
    let db = sample_db();
    assert!(db.has_model("ROTIGUS", "rotigus"));
    assert!(db.has_model("boyz", "BOSS NOB"));
    assert!(!db.has_model("Orks", "Boy"));
}

#[test]
fn lookup_falls_back_to_first_model_and_model_name() {
    let db = sample_db();
    let (shape, m) = db.lookup("Boyz", "Boss Nob");
    assert_eq!(shape, BaseShape::Circle { diameter_mm: "40".to_string() });
    assert_eq!(m.as_deref(), Some("6"));
    let (shape, _) = db.lookup("Boyz", "Gretchin");
    assert_eq!(shape, BaseShape::Circle { diameter_mm: "32".to_string() });
    let (shape, m) = db.lookup("Unknown Unit", "Rotigus");
    assert_eq!(shape, BaseShape::Circle { diameter_mm: "100".to_string() });
    assert_eq!(m.as_deref(), Some("8"));
    let (shape, m) = db.lookup("Nobody", "Nothing");
    assert_eq!(shape, BaseShape::Unknown);
    assert_eq!(m, None);
}

#[test]
fn later_records_replace_earlier_ones() {
    let db = BaseDatabase::load(
        vec![sheet("001", "Squad"), sheet("002", "squad")],
        vec![
            model("002", "Trooper", None, Some("25mm")),
            model("002", "trooper", None, Some("28mm")),
        ],
    );
    let (shape, m) = db.lookup("Squad", "Trooper");
    assert_eq!(shape, BaseShape::Circle { diameter_mm: "28".to_string() });
    assert_eq!(m, None);
    assert!(!db.has_model("Squad", "Sergeant"));
    let (shape, _) = db.lookup("SQUAD", "Sergeant");
    assert_eq!(shape, BaseShape::Circle { diameter_mm: "25".to_string() });
}

#[test]
fn import_keeps_known_variants_only() {
    let db = sample_db();
    let units = parse_listforge(
        "Boyz (80 pts)\n  • 9x Boy: Choppa\n  • Stikkbomb: grenade\n  • Boss Nob\nRotigus (230 pts): Gnarlrod\nGrots (40 pts)\n  • 10x Gretchin\n",
    );
    let plan = plan_import(&units, &db);
    let lines: Vec<(&str, &str, u32)> =
        plan.iter().map(|m| (m.unit_name.as_str(), m.model_name.as_str(), m.count)).collect();
    assert_eq!(
        lines,
        vec![
            ("Boyz", "Boy", 9),
            ("Boyz", "Boss Nob", 1),
            ("Rotigus", "Rotigus", 1),
            ("Grots", "Grots", 1),
        ]
    );
    assert_eq!(plan[1].base_shape, BaseShape::Circle { diameter_mm: "40".to_string() });
    assert_eq!(plan[2].movement.as_deref(), Some("8"));
    assert_eq!(plan[3].base_shape, BaseShape::Unknown);
    assert_eq!(plan[3].movement, None);
}

#[test]
fn loading_with_given_keys_indexes_by_them() {
    let db = BaseDatabase::load_lowercase(
        vec![("squad".to_string(), sheet("1", "Squad")), ("boss".to_string(), sheet("2", "Boss"))],
        vec![
            ("trooper".to_string(), model("1", "Trooper", Some("6\""), Some("25mm"))),
            ("boss".to_string(), model("2", "Boss", Some("5\""), Some("40mm"))),
        ],
    );
    assert!(db.has_lowercase_model("squad", "trooper"));
    assert!(!db.has_lowercase_model("Squad", "trooper"));
    assert!(db.has_model("SQUAD", "Trooper"));
    let rec = db.record_for_lowercase("boss", "boss").unwrap();
    assert_eq!(rec.base_size.as_deref(), Some("40mm"));
    // An unknown model falls back to the datasheet's first one.
    let rec = db.record_for_lowercase("squad", "sergeant").unwrap();
    assert_eq!(rec.name, "Trooper");
}
