use service_pilot::json::{docker_inspect_port_mappings, docker_inspect_ports, get_field, JsonValue};

fn text(s: &str) -> JsonValue {
    JsonValue::Text(s.to_string())
}

fn entry(host: &str) -> JsonValue {
    JsonValue::Object(vec![("HostIp".to_string(), text("")), ("HostPort".to_string(), text(host))])
}

fn inspect(bindings: Vec<(&str, JsonValue)>) -> JsonValue {
    JsonValue::Array(vec![JsonValue::Object(vec![
        ("Id".to_string(), text("abc")),
        (
            "HostConfig".to_string(),
            JsonValue::Object(vec![(
                "PortBindings".to_string(),
                JsonValue::Object(bindings.into_iter().map(|(k, v)| (k.to_string(), v)).collect()),
            )]),
        ),
    ])])
}

#[test]
fn bindings_give_ports_and_mappings_in_order() {
    let v = inspect(vec![
        ("443/tcp", JsonValue::Array(vec![entry("8443")])),
        ("80/tcp", JsonValue::Array(vec![entry("8080"), entry("8443"), entry("")])),
        ("9000/udp", JsonValue::Null),
    ]);
    assert_eq!(docker_inspect_ports(&v), vec![8443, 8080]);
    assert_eq!(
        docker_inspect_port_mappings(&v),
        vec!["8443:443".to_string(), "8080:80".to_string(), "8443:80".to_string()]
    );
}

#[test]
fn mappings_need_numeric_ports_on_both_sides() {
    let v = inspect(vec![("http/tcp", JsonValue::Array(vec![entry("8080")])), ("81/tcp", JsonValue::Array(vec![entry("x")]))]);
    assert_eq!(docker_inspect_ports(&v), vec![8080]);
    assert_eq!(docker_inspect_port_mappings(&v), Vec::<String>::new());
}

#[test]
fn documents_without_bindings_give_nothing() {
    assert_eq!(docker_inspect_ports(&JsonValue::Array(vec![])), Vec::<u16>::new());
    assert_eq!(docker_inspect_ports(&JsonValue::Null), Vec::<u16>::new());
    let no_host_config = JsonValue::Array(vec![JsonValue::Object(vec![("Id".to_string(), text("abc"))])]);
    assert_eq!(docker_inspect_port_mappings(&no_host_config), Vec::<String>::new());
    let bindings_not_object = JsonValue::Array(vec![JsonValue::Object(vec![(
        "HostConfig".to_string(),
        JsonValue::Object(vec![("PortBindings".to_string(), JsonValue::Null)]),
    )])]);
    assert_eq!(docker_inspect_ports(&bindings_not_object), Vec::<u16>::new());
}

#[test]
fn field_lookup() {
    let v = JsonValue::Object(vec![("a".to_string(), text("1")), ("b".to_string(), JsonValue::Bool(true))]);
    assert!(matches!(get_field(&v, "b"), Some(JsonValue::Bool(true))));
    assert!(get_field(&v, "c").is_none());
    assert!(get_field(&text("a"), "a").is_none());
}
