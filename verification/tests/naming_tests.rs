use service_pilot::model::CustomService;
use service_pilot::naming::{
    clean_optional_string, custom_service_id, openable_path, parse_service_id, safe_file_name, title_case,
};

fn custom(id: Option<&str>, name: &str) -> CustomService {
    CustomService {
        id: id.map(|s| s.to_string()),
        name: name.to_string(),
        port: None,
        ports: None,
        cwd: None,
        path: None,
        start: "run".to_string(),
        stop: "halt".to_string(),
        restart: None,
        status: None,
        logs: None,
        config: None,
    }
}

#[test]
fn parse_service_id_splits_at_first_colon() {
    let r = parse_service_id("docker:web:1").unwrap();
    assert_eq!(r.provider, "docker");
    assert_eq!(r.name, "web:1");
    let r = parse_service_id("brew:mysql@5.7").unwrap();
    assert_eq!((r.provider.as_str(), r.name.as_str()), ("brew", "mysql@5.7"));
}

#[test]
fn parse_service_id_rejects_missing_parts() {
    for s in ["redis", ":redis", "brew:", ""] {
        assert_eq!(parse_service_id(s).err().unwrap(), format!("Invalid service id: {s}"));
    }
}

#[test]
fn title_case_capitalizes_words() {
    assert_eq!(title_case("mysql@5.7"), "Mysql 5.7");
    assert_eq!(title_case("my-cool_app"), "My Cool App");
    assert_eq!(title_case("--redis--"), "Redis");
    assert_eq!(title_case(""), "");
    assert_eq!(title_case("éclair"), "Éclair");
    assert_eq!(title_case("straße-x"), "Straße X");
}

#[test]
fn safe_file_name_replaces_other_characters() {
    assert_eq!(safe_file_name("Python Worker!"), "Python-Worker-");
    assert_eq!(safe_file_name("a_b-C9"), "a_b-C9");
    assert_eq!(safe_file_name("../x/é"), "---x--");
}

#[test]
fn custom_service_id_prefers_explicit_id() {
    assert_eq!(custom_service_id(&custom(Some("python-worker"), "Other Name")), "python-worker");
    assert_eq!(custom_service_id(&custom(None, "Python Worker")), "python-worker");
    assert_eq!(custom_service_id(&custom(None, "My  API")), "my--api");
}

#[test]
fn clean_optional_string_trims_and_drops_blank() {
    assert_eq!(clean_optional_string(Some("  /tmp  ".to_string())), Some("/tmp".to_string()));
    assert_eq!(clean_optional_string(Some("   ".to_string())), None);
    assert_eq!(clean_optional_string(None), None);
}

#[test]
fn openable_path_prefers_absolute_entries() {
    assert_eq!(openable_path("volume1, /Users/me/data,/tmp"), Some("/Users/me/data".to_string()));
    assert_eq!(openable_path(" a , b "), Some("a , b".to_string()));
    assert_eq!(openable_path("  "), None);
    assert_eq!(openable_path("/srv/app,"), Some("/srv/app".to_string()));
}

#[test]
fn ascii_display_names() {
    for name in ["mysql@5.7", "my-redis_server", "--a--b--", "already Title", "x", "9lives", "é-b"] {
        let t = title_case(name);
        if name.is_ascii() {
            assert!(!t.contains('-') && !t.contains('_') && !t.contains('@'));
            assert_eq!(title_case(&t), t);
            let words: Vec<String> = name.to_lowercase().split(['-', '_', '@']).filter(|p| !p.is_empty()).map(|p| p.to_string()).collect();
            assert_eq!(t.to_lowercase(), words.join(" "));
        }
    }
    assert_eq!(title_case("-_@-"), "");
    assert_eq!(title_case(""), "");
    assert_eq!(title_case("my-redis_server"), "My Redis Server");
    assert_eq!(title_case("9lives"), "9lives");
}
