use gftools::error::GftoolsError;
use gftools::json::{Json, JsonNumber};
use gftools::push::items::{
    get_keys, Axis, AxisFallback, Designer, DesignerInfoProto, Family, FamilyMeta, FamilyProto,
    Float32, PushItem,
};

fn s(x: &str) -> Json {
    Json::String(x.to_string())
}

fn obj(members: Vec<(&str, Json)>) -> Json {
    Json::Object(members.into_iter().map(|(k, v)| (k.to_string(), v)).collect())
}

fn misc<T>(r: Result<T, GftoolsError>) -> String {
    match r {
        Err(GftoolsError::Misc(m)) => m,
        Err(_) => panic!("expected a Misc error, got another error"),
        Ok(_) => panic!("expected a Misc error, got a value"),
    }
}

fn proto() -> FamilyProto {
    FamilyProto {
        name: Some("Noto Sans".to_string()),
        designer: Some("Alice, Bob".to_string()),
        license: Some("OFL".to_string()),
        category: vec!["SANS_SERIF".to_string(), "DISPLAY".to_string()],
        subsets: vec!["latin".to_string(), "menu".to_string()],
        stroke: None,
        classifications: vec!["text".to_string()],
        display_name: None,
        primary_script: Some("Latn".to_string()),
        minisite_url: None,
    }
}

fn f32v(x: f32) -> Float32 {
    Float32 { bits: x.to_bits() }
}

fn axis(tag: &str, min: f32) -> Axis {
    Axis {
        tag: tag.to_string(),
        display_name: "Weight".to_string(),
        min_value: f32v(min),
        default_value: f32v(400.0),
        max_value: f32v(900.0),
        precision: f32v(0.0),
        fallback: vec![AxisFallback { name: "Regular".to_string(), value: f32v(400.0) }],
        fallback_only: false,
        description: "Adjust the style".to_string(),
    }
}

/// Builds a font with only a `name` table holding one English (US) Windows string per entry.
fn font_with_names(names: &[(u16, &str)]) -> Vec<u8> {
    let mut strings: Vec<u8> = Vec::new();
    let mut records: Vec<u8> = Vec::new();
    for (id, text) in names {
        let encoded: Vec<u8> = text.encode_utf16().flat_map(|u| u.to_be_bytes()).collect();
        for v in [3u16, 1, 0x0409, *id, encoded.len() as u16, strings.len() as u16] {
            records.extend_from_slice(&v.to_be_bytes());
        }
        strings.extend_from_slice(&encoded);
    }
    let mut name_table: Vec<u8> = Vec::new();
    let count = names.len() as u16;
    for v in [0u16, count, 6 + 12 * count] {
        name_table.extend_from_slice(&v.to_be_bytes());
    }
    name_table.extend_from_slice(&records);
    name_table.extend_from_slice(&strings);
    let mut font: Vec<u8> = Vec::new();
    font.extend_from_slice(&0x0001_0000u32.to_be_bytes());
    for v in [1u16, 16, 0, 0] {
        font.extend_from_slice(&v.to_be_bytes());
    }
    font.extend_from_slice(b"name");
    font.extend_from_slice(&0u32.to_be_bytes());
    font.extend_from_slice(&28u32.to_be_bytes());
    font.extend_from_slice(&(name_table.len() as u32).to_be_bytes());
    font.extend_from_slice(&name_table);
    font
}

#[test]
fn family_from_strings_prefers_the_version_string() {
    let f = Family::from_strings(Some("Roboto".to_string()), Some("Version 3.0".to_string()), Some("3.0".to_string()));
    assert_eq!(f.name, "Roboto");
    assert_eq!(f.version, "Version 3.0");
    let f = Family::from_strings(None, None, Some("2.5".to_string()));
    assert_eq!(f.name, "Unknown family");
    assert_eq!(f.version, "2.5");
    let f = Family::from_strings(None, None, None);
    assert_eq!(f.version, "0.0.0");
}

#[test]
fn family_from_font_data_reads_the_name_table() {
    let font = font_with_names(&[(1, "Test Sans"), (5, "Version 1.002")]);
    let f = Family::from_font_data(&font).unwrap();
    assert_eq!(f.name, "Test Sans");
    assert_eq!(f.version, "Version 1.002");
}

#[test]
fn family_without_version_or_head_is_version_zero() {
    let font = font_with_names(&[(1, "Only Name")]);
    let f = Family::from_font_data(&font).unwrap();
    assert_eq!(f.name, "Only Name");
    assert_eq!(f.version, "0.0.0");
    let f = Family::from_fontref(&font_with_names(&[]));
    assert_eq!(f.name, "Unknown family");
}

#[test]
fn family_from_garbage_is_a_font_parse_error() {
    match Family::from_font_data(b"not a font at all") {
        Err(GftoolsError::FontParse(_)) => {}
        _ => panic!("expected a FontParse error"),
    }
}

#[test]
fn family_from_googlefonts_json_errors() {
    assert_eq!(misc(Family::from_googlefonts_json(&obj(vec![("name", s("X"))]), "u")), "Couldn't find family in JSON: {\"name\":\"X\"}");
    assert_eq!(misc(Family::from_googlefonts_json(&obj(vec![("family", Json::Null)]), "u")), "Couldn't find family in JSON: {\"family\":null}");
    assert_eq!(misc(Family::from_googlefonts_json(&Json::Null, "u")), "Couldn't find family in JSON: null");
}

#[test]
fn designer_from_googlefonts_json() {
    let d = Designer::from_googlefonts_json(&obj(vec![("designer", s("Alice")), ("bio", s("Born"))]), "u").unwrap();
    assert_eq!(d.name, "Alice");
    assert_eq!(d.bio, "Born");
    assert_eq!(misc(Designer::from_googlefonts_json(&obj(vec![("bio", s("Born"))]), "u")), "Couldn't find designer in JSON: {\"bio\":\"Born\"}");
    assert_eq!(
        misc(Designer::from_googlefonts_json(&obj(vec![("bio", Json::Null), ("designer", s("A"))]), "u")),
        "Couldn't find bio in JSON: {\"bio\":null,\"designer\":\"A\"}"
    );
    assert_eq!(misc(Designer::from_googlefonts_json(&obj(vec![("designer", s("Jane"))]), "_")), "Couldn't find bio in JSON: {\"designer\":\"Jane\"}");
}

#[test]
fn designer_from_path_reads_bio_html() {
    let d = Designer::from_path(DesignerInfoProto { designer: Some("Alice".to_string()) }, Some("<p>Type <i>designer</i></p>".to_string()));
    assert_eq!(d.name, "Alice");
    assert_eq!(d.bio, "Type designer");
    let d = Designer::from_path(DesignerInfoProto { designer: None }, None);
    assert_eq!(d.name, "");
    assert_eq!(d.bio, "");
}

#[test]
fn family_meta_from_path() {
    let m = FamilyMeta::from_path(proto(), Some("<h1>About</h1><p>Text</p>".to_string()), Some("<p> Desc </p>".to_string()));
    assert_eq!(m.name, "Noto Sans");
    assert_eq!(m.designers.len(), 2);
    assert_eq!(m.designers[0].name, "Alice");
    assert_eq!(m.designers[1].name, "Bob");
    assert_eq!(m.designers[1].bio, "");
    assert_eq!(m.license, "OFL");
    assert_eq!(m.category, "SANS_SERIF");
    assert_eq!(m.stroke, "SANS_SERIF");
    assert_eq!(m.subsets, vec!["latin".to_string(), "menu".to_string()]);
    assert_eq!(m.description, "Desc");
    assert_eq!(m.article, vec!["About Text".to_string()]);
    assert_eq!(m.primary_script, Some("Latn".to_string()));
    assert_eq!(m.display_name, None);
}

#[test]
fn family_meta_stroke_rules() {
    let mut p = proto();
    p.stroke = Some("sans_,serif".to_string());
    assert_eq!(FamilyMeta::from_path(p, None, None).stroke, "SANS SERIF");
    let mut p = proto();
    p.category = vec![];
    let m = FamilyMeta::from_path(p, None, None);
    assert_eq!(m.stroke, "UNKNOWN");
    assert_eq!(m.category, "");
    assert_eq!(m.article, Vec::<String>::new());
    assert_eq!(m.description, "");
    let mut p = proto();
    p.designer = None;
    p.name = None;
    p.license = None;
    let m = FamilyMeta::from_path(p, None, None);
    assert!(m.designers.is_empty());
    assert_eq!(m.name, "");
    assert_eq!(m.license, "");
}

#[test]
fn get_keys_reads_maps_and_arrays() {
    let keys = get_keys(&obj(vec![("latin", Json::Number(JsonNumber::PosInt(1))), ("greek", Json::Null)])).unwrap();
    assert_eq!(keys, vec!["latin".to_string(), "greek".to_string()]);
    let keys = get_keys(&Json::Array(vec![s("latin"), Json::Bool(true), s("cyrillic")])).unwrap();
    assert_eq!(keys, vec!["latin".to_string(), "cyrillic".to_string()]);
    assert_eq!(get_keys(&s("latin")).err(), Some("Expected a map or an array of strings".to_string()));
}

#[test]
fn saved_subsets_read_back_the_same() {
    let subsets = vec!["latin".to_string(), "latin-ext".to_string()];
    let saved = Json::Array(subsets.iter().map(|x| Json::String(x.clone())).collect());
    assert_eq!(get_keys(&saved).unwrap(), subsets);
}

#[test]
fn float32_equality_is_f32_equality() {
    for (a, b) in [(0.0f32, -0.0f32), (1.5, 1.5), (1.5, 2.5), (f32::NAN, f32::NAN), (f32::INFINITY, f32::INFINITY)] {
        assert_eq!(f32v(a).equals(&f32v(b)), a == b);
    }
}

#[test]
fn items_compare_field_by_field() {
    let a = PushItem::Axis(axis("wght", 100.0));
    assert!(a.same_as(&PushItem::Axis(axis("wght", 100.0))));
    assert!(!a.same_as(&PushItem::Axis(axis("wght", 200.0))));
    assert!(!PushItem::Axis(axis("wght", f32::NAN)).same_as(&PushItem::Axis(axis("wght", f32::NAN))));
    let f = PushItem::Family(Family { name: "A".to_string(), version: "1".to_string() });
    assert!(!a.same_as(&f));
    assert!(f.same_as(&PushItem::Family(Family { name: "A".to_string(), version: "1".to_string() })));
    let m = FamilyMeta::from_path(proto(), None, None);
    assert!(m.same_as(&m.clone()));
}

#[test]
fn designer_names_rejoin_to_the_field() {
    let mut p = proto();
    p.designer = Some("Alice, Bob, , Carol".to_string());
    let m = FamilyMeta::from_path(p, None, None);
    let names: Vec<String> = m.designers.iter().map(|d| d.name.clone()).collect();
    assert_eq!(names.join(", "), "Alice, Bob, , Carol");
    assert_eq!(names.len(), 4);
}
