use gftools::error::GftoolsError;
use gftools::json::Json;
use gftools::push::items::{Axis, AxisFallback, Designer, Family, FamilyMeta, FamilyProto, Float32, PushItem};
use gftools::push::servers::{
    family_metadata_json, family_metadata_url, manifest_json_text, FamilyRun, strip_json_guard, Date, DateTime, GfServer, GfServers,
    MetadataCache, ServerKind,
};

fn s(x: &str) -> Json {
    Json::String(x.to_string())
}

fn obj(members: Vec<(&str, Json)>) -> Json {
    Json::Object(members.into_iter().map(|(k, v)| (k.to_string(), v)).collect())
}

fn misc<T>(r: Result<T, GftoolsError>) -> String {
    match r {
        Err(GftoolsError::Misc(m)) => m,
        Err(_) => panic!("expected a Misc error, got another error"),
        Ok(_) => panic!("expected a Misc error, got a value"),
    }
}

const MANIFEST: &str = ")]}'\n{\"lastUpdate\":{\"seconds\":1431648000},\"familyVersions\":[{\"name\":\"Roboto\",\"fontVersions\":[{\"version\":\"3.0\"}]},{\"name\":\"Lato\",\"fontVersions\":[]},\"not an entry\",{\"name\":\"Roboto\",\"fontVersions\":[{\"version\":\"3.1\"}]},{\"name\":\"Inter\",\"fontVersions\":[{\"version\":\"4.0\"}]}]}";

fn new_server(text: &str) -> Result<GfServer, GftoolsError> {
    GfServer::new("dev".to_string(), "https://m".to_string(), "https://d".to_string(), "https://v".to_string(), text)
}

fn server() -> GfServer {
    new_server(MANIFEST).unwrap()
}

fn axis(tag: &str) -> Axis {
    Axis {
        tag: tag.to_string(),
        display_name: "Weight".to_string(),
        min_value: Float32 { bits: 100.0f32.to_bits() },
        default_value: Float32 { bits: 400.0f32.to_bits() },
        max_value: Float32 { bits: 900.0f32.to_bits() },
        precision: Float32 { bits: 0.0f32.to_bits() },
        fallback: vec![],
        fallback_only: false,
        description: "d".to_string(),
    }
}

#[test]
fn new_server_reads_family_versions() {
    let srv = server();
    assert_eq!(srv.name, "dev");
    assert_eq!(srv._family_versions.get("Roboto"), Some(&"3.1".to_string()));
    assert_eq!(srv._family_versions.get("Inter"), Some(&"4.0".to_string()));
    assert_eq!(srv._family_versions.get("Lato"), None);
    assert_eq!(srv._family_versions.len(), 2);
    assert_eq!(srv.families.len(), 0);
}

#[test]
fn new_server_errors() {
    assert_eq!(misc(new_server("12345")), "Failed to parse JSON response: EOF while parsing a value at line 1 column 0");
    assert_eq!(misc(new_server("abcde[1]")), "Failed to parse JSON response: abcde[1]");
    assert_eq!(misc(new_server("abcde{}")), "Failed to find familyVersions in manifest: {}");
    assert_eq!(
        misc(new_server("abcde{\"familyVersions\":1,\"x\":[true]}")),
        "Failed to find familyVersions in manifest: {\"familyVersions\": Number(1), \"x\": Array [Bool(true)]}"
    );
}

#[test]
fn last_push_reads_the_manifest() {
    let t = server().last_push().unwrap();
    assert_eq!((t.date.year, t.date.month, t.date.day), (2015, 5, 15));
    assert_eq!((t.hour, t.minute, t.second, t.nanosecond), (0, 0, 0, 0));
    let srv = new_server("abcde{\"familyVersions\":[],\"lastUpdate\":{\"seconds\":951827696}}").unwrap();
    let t = srv.last_push().unwrap();
    assert_eq!((t.date.year, t.date.month, t.date.day, t.hour, t.minute, t.second), (2000, 2, 29, 12, 34, 56));
    let srv = new_server("abcde{\"familyVersions\":[]}").unwrap();
    assert_eq!(misc(srv.last_push()), "Failed to find lastUpdate in manifest: {\"familyVersions\": Array []}");
    let srv = new_server("abcde{\"familyVersions\":[],\"lastUpdate\":{\"seconds\":-9223372036854775808}}").unwrap();
    assert_eq!(misc(srv.last_push()), format!("Failed to parse lastUpdate timestamp: {}", i64::MIN));
}

#[test]
fn update_family_records_the_listed_version() {
    let mut srv = server();
    srv.update_family("Roboto").unwrap();
    let item = PushItem::Family(Family { name: "Roboto".to_string(), version: "3.1".to_string() });
    assert!(srv.compare_push_item(&item));
    assert!(!srv.compare_push_item(&PushItem::Family(Family { name: "Roboto".to_string(), version: "3.0".to_string() })));
    assert!(srv.find_item(&PushItem::Family(Family { name: "Unlisted".to_string(), version: String::new() })).is_none());
}

#[test]
fn update_axis_registry_stores_until_the_first_failure() {
    let mut srv = server();
    let data = Json::Array(vec![Json::Null, s("second"), Json::Null]);
    let parsed = vec![Ok(axis("wght")), Err("bad".to_string()), Ok(axis("wdth"))];
    assert_eq!(misc(srv.update_axis_registry(&data, parsed)), "Failed to parse axis data for String(\"second\"): bad");
    assert!(srv.compare_push_item(&PushItem::Axis(axis("wght"))));
    assert!(srv.find_item(&PushItem::Axis(axis("wdth"))).is_none());
    assert_eq!(misc(srv.update_axis_registry(&Json::Null, vec![])), "Failed to parse axis registry data: null");
    assert_eq!(misc(srv.update_axis_registry(&obj(vec![]), vec![])), "Failed to parse axis registry data: {}");
    assert!(srv.compare_push_item(&PushItem::Axis(axis("wght"))));
    let fallback = PushItem::AxisFallback(AxisFallback { name: "x".to_string(), value: Float32 { bits: 0 } });
    assert!(srv.find_item(&fallback).is_none());
    assert!(!srv.compare_push_item(&fallback));
}

#[test]
fn update_designers_and_metadata() {
    let mut srv = server();
    let meta = obj(vec![("designers", Json::Array(vec![Json::Null]))]);
    let d = Designer { name: "Alice".to_string(), bio: "Bio".to_string() };
    srv.update_family_designers(&meta, vec![Ok(d.clone())]).unwrap();
    assert!(srv.compare_push_item(&PushItem::Designer(d)));
    assert_eq!(misc(srv.update_family_designers(&obj(vec![]), vec![])), "Failed to parse designers data: {}");
    let meta = obj(vec![("designers", Json::Array(vec![obj(vec![("name", s("Bob"))]), Json::Null]))]);
    assert_eq!(
        misc(srv.update_family_designers(&meta, vec![Err("missing field `bio`".to_string()), Err("x".to_string())])),
        "Failed to parse designer data for Some(String(\"Bob\")): missing field `bio`"
    );
    let e = Designer { name: "Eve".to_string(), bio: String::new() };
    assert_eq!(
        misc(srv.update_family_designers(&meta, vec![Ok(e.clone()), Err("invalid type: null".to_string())])),
        "Failed to parse designer data for None: invalid type: null"
    );
    assert!(srv.compare_push_item(&PushItem::Designer(e)));
    assert!(srv.compare_push_item(&PushItem::Designer(Designer { name: "Alice".to_string(), bio: "Bio".to_string() })));
    let fm = FamilyMeta::from_path(
        FamilyProto {
            name: Some("Roboto".to_string()),
            designer: None,
            license: None,
            category: vec![],
            subsets: vec![],
            stroke: None,
            classifications: vec![],
            display_name: None,
            primary_script: None,
            minisite_url: None,
        },
        None,
        None,
    );
    srv.update_metadata("Roboto", Ok(fm.clone())).unwrap();
    assert!(srv.compare_push_item(&PushItem::FamilyMeta(fm)));
    match srv.update_metadata("Roboto", Err("missing field".to_string())) {
        Err(GftoolsError::JsonParse(m)) => assert_eq!(m, "missing field"),
        _ => panic!("expected a JsonParse error"),
    }
}

#[test]
fn family_needs_update_decisions() {
    let mut srv = server();
    let checked = Date { year: 2024, month: 5, day: 1 };
    let entry = |name: &str, date: &str| obj(vec![("family", s(name)), ("lastModified", s(date))]);
    assert_eq!(srv.family_needs_update(&entry("Roboto", "2020-01-01"), &checked).unwrap(), Some("Roboto".to_string()));
    srv.update_family("Roboto").unwrap();
    assert_eq!(srv.family_needs_update(&entry("Roboto", "2020-01-01"), &checked).unwrap(), None);
    assert_eq!(srv.family_needs_update(&entry("Roboto", "2024-05-02"), &checked).unwrap(), Some("Roboto".to_string()));
    assert_eq!(srv.family_needs_update(&entry("Roboto", "2024-05-01"), &checked).unwrap(), None);
    assert_eq!(srv.family_needs_update(&entry("Lato", "2020-01-01"), &checked).unwrap(), None);
    assert_eq!(misc(srv.family_needs_update(&s("x"), &checked)), "Failed to parse familyMetadataList data: \"x\"");
    assert_eq!(misc(srv.family_needs_update(&obj(vec![]), &checked)), "Failed to parse family name: {}");
    assert_eq!(
        misc(srv.family_needs_update(&obj(vec![("family", s("A"))]), &checked)),
        "Failed to parse lastModified: {\"family\": String(\"A\")}"
    );
    assert_eq!(
        misc(srv.family_needs_update(&entry("A", "yesterday"), &checked)),
        "Failed to parse lastModified: input contains invalid characters"
    );
    assert_eq!(
        misc(srv.family_needs_update(&entry("A", "2023-02-29"), &checked)),
        "Failed to parse lastModified: input is out of range"
    );
    assert_eq!(srv.family_needs_update(&entry("Inter", "2024-02-29"), &checked).unwrap(), Some("Inter".to_string()));
}

#[test]
fn manifest_parts() {
    let meta = GfServer::read_manifest("{\"axisRegistry\":[],\"familyMetadataList\":[\"a\"]} trailing").unwrap();
    assert!(matches!(GfServer::manifest_axis_registry(&meta), Ok(Json::Array(_))));
    assert_eq!(GfServer::manifest_family_list(meta).unwrap().len(), 1);
    assert_eq!(misc(GfServer::read_manifest("[1]")), "Failed to parse JSON response: [1]");
    assert!(matches!(GfServer::read_manifest("{"), Err(GftoolsError::JsonParse(_))));
    let empty = GfServer::read_manifest("{}").unwrap();
    assert_eq!(misc(GfServer::manifest_axis_registry(&empty)), "Failed to find axisRegistry in manifest: {}");
    assert_eq!(misc(GfServer::manifest_family_list(empty)), "Failed to find familyMetadataList in manifest: {}");
    let null_list = GfServer::read_manifest("{\"familyMetadataList\":null}").unwrap();
    assert_eq!(
        misc(GfServer::manifest_family_list(null_list)),
        "Failed to parse familyMetadataList data: {\"familyMetadataList\": Null}"
    );
}

#[test]
fn server_urls_from_config() {
    let config = "[urls]\ndev_meta = \"dm\"\ndev_family_download = \"dd\"\ndev_versions = \"dv\"\nproduction_meta = \"pm\"\nproduction_versions = \"pv\"\nsandbox_meta = \"sm\"\n";
    let urls = GfServers::config_urls(config).unwrap();
    let dev = GfServers::server_urls(&urls, ServerKind::Dev).unwrap();
    assert_eq!((dev.name.as_str(), dev.url.as_str(), dev.dl_url.as_str(), dev.version_url.as_str()), ("dev", "dm", "dd", "dv"));
    let prod = GfServers::server_urls(&urls, ServerKind::Production).unwrap();
    assert_eq!(prod.dl_url, "https://fonts.google.com/download?family={}");
    assert_eq!(prod.version_url, "pv");
    assert_eq!(misc(GfServers::server_urls(&urls, ServerKind::Sandbox)), "Failed to find sandbox_family_download in config file");
    assert_eq!(misc(GfServers::config_urls("")), "Failed to find urls in config file");
    assert_eq!(misc(GfServers::config_urls("urls = \"x\"")), "Failed to find urls in config file");
    assert!(misc(GfServers::config_urls("[urls")).starts_with("Failed to parse config file: "));
    assert_eq!(misc(GfServers::config_urls("urls = 1979-05-27T07:32:00Z")), "Failed to find urls in config file");
    let dated = GfServers::config_urls("[urls]\ndev_meta = 1979-05-27\n").unwrap();
    assert_eq!(misc(GfServers::server_urls(&dated, ServerKind::Dev)), "Failed to find dev_meta in config file");
}

#[test]
fn last_pushes_of_all_servers() {
    let when = DateTime { date: Date { year: 2024, month: 5, day: 1 }, hour: 12, minute: 0, second: 0, nanosecond: 0 };
    let servers = GfServers { dev: server(), sandbox: server(), production: server(), last_checked: when };
    let (a, b, c) = servers.last_pushes().unwrap();
    assert_eq!((a.date.year, a.date.month, a.date.day, a.hour), (2015, 5, 15, 0));
    assert_eq!((b.date.year, b.date.month, b.date.day, b.hour), (2015, 5, 15, 0));
    assert_eq!((c.date.year, c.date.month, c.date.day, c.hour), (2015, 5, 15, 0));
    let d = servers.last_checked_date();
    assert_eq!((d.year, d.month, d.day), (2024, 5, 1));
}

#[test]
fn metadata_cache_gives_back_what_it_stored() {
    let mut cache = MetadataCache::new();
    assert!(cache.get("Roboto", "https://m").is_none());
    assert!(matches!(family_metadata_json(")]}'\n\"meta\""), Ok(Json::String(x)) if x == "meta"));
    cache.record("Roboto".to_string(), "https://m".to_string(), ")]}'\n\"meta\"").unwrap();
    assert!(matches!(cache.get("Roboto", "https://m"), Some(Json::String(x)) if x == "meta"));
    assert!(cache.get("Roboto", "https://other").is_none());
    cache.record("Roboto".to_string(), "https://m".to_string(), "\"changed\"").unwrap();
    cache.record("Roboto".to_string(), "https://m".to_string(), "not json").unwrap();
    assert!(matches!(cache.get("Roboto", "https://m"), Some(Json::String(x)) if x == "meta"));
    assert_eq!(
        misc(cache.record("Lato".to_string(), "https://m".to_string(), "{")),
        "Failed to parse JSON response: EOF while parsing an object at line 1 column 1"
    );
    assert!(cache.get("Lato", "https://m").is_none());
    assert_eq!(misc(family_metadata_json(")]}'")), "Failed to parse JSON response: EOF while parsing a value at line 1 column 0");
}

#[test]
fn metadata_addresses_and_guards() {
    assert_eq!(family_metadata_url("https://m/fam", "Noto Sans JP"), "https://m/fam/Noto%20Sans%20JP");
    assert_eq!(strip_json_guard(")]}'\n{\"a\": 1}"), "\n{\"a\": 1}");
    assert_eq!(manifest_json_text(")]}'\n{}"), "{}");
}

#[test]
fn offline_error_names_the_server() {
    assert_eq!(misc::<()>(Err(server().offline_error())), "Server dev is offline");
}

#[test]
fn updates_only_add_to_the_server() {
    let mut srv = server();
    srv.update_family("Roboto").unwrap();
    srv.update_axis_registry(&Json::Array(vec![Json::Null]), vec![Ok(axis("wght"))]).unwrap();
    let before = (srv.families.len(), srv.axisregistry.len());
    assert!(srv.update_axis_registry(&Json::Array(vec![Json::Null]), vec![Err("bad".to_string())]).is_err());
    assert!(srv.update_family_designers(&Json::Null, vec![]).is_err());
    assert_eq!((srv.families.len(), srv.axisregistry.len()), before);
    assert!(srv.compare_push_item(&PushItem::Axis(axis("wght"))));
    assert!(srv.compare_push_item(&PushItem::Family(Family { name: "Roboto".to_string(), version: "3.1".to_string() })));
}

#[test]
fn family_run_stops_at_each_family_to_update() {
    let srv = server();
    let checked = Date { year: 2024, month: 5, day: 1 };
    let entry = |name: &str, date: &str| obj(vec![("family", s(name)), ("lastModified", s(date))]);
    let families = vec![entry("Lato", "2020-01-01"), entry("Roboto", "2020-01-01"), entry("Lato", "2020-01-01"), entry("Inter", "2024-06-01"), s("bad")];
    let mut run = FamilyRun { families, next: 0, last_checked: checked };
    assert_eq!(run.next_family(&srv).unwrap(), Some("Roboto".to_string()));
    assert_eq!(run.next, 2);
    assert_eq!(run.next_family(&srv).unwrap(), Some("Inter".to_string()));
    assert_eq!(misc(run.next_family(&srv)), "Failed to parse familyMetadataList data: \"bad\"");
    assert_eq!(run.next_family(&srv).unwrap(), None);
    assert_eq!(run.next, 5);
}
