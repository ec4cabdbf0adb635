use service_pilot::json::{docker_inspect_port_mappings, docker_inspect_ports, JsonValue};
use service_pilot::ports::{
    docker_label_port_mappings, docker_label_ports, docker_port_mappings, docker_ports, mapping_host_ports,
    push_unique_mapping, push_unique_port,
};

#[test]
fn docker_ports_reads_host_ports_once() {
    assert_eq!(
        docker_ports("0.0.0.0:8080->80/tcp, [::]:8080->80/tcp, 0.0.0.0:5432->5432/tcp"),
        Some(vec![8080, 5432])
    );
    assert_eq!(docker_ports("80/tcp"), None);
    assert_eq!(docker_ports(""), None);
    assert_eq!(docker_ports("0.0.0.0:99999->80/tcp"), None);
    assert_eq!(docker_ports("127.0.0.1:3000->3000-3001/tcp"), Some(vec![3000]));
}

#[test]
fn docker_port_mappings_needs_two_port_numbers() {
    assert_eq!(
        docker_port_mappings("0.0.0.0:8080->80/tcp, [::]:8080->80/tcp"),
        Some(vec!["8080:80".to_string()])
    );
    assert_eq!(docker_port_mappings("127.0.0.1:3000->3000-3001/tcp"), None);
    assert_eq!(docker_port_mappings("0.0.0.0:0080->80/tcp"), Some(vec!["0080:80".to_string()]));
    assert_eq!(docker_port_mappings("6379/tcp"), None);
}

#[test]
fn label_mappings_come_from_docker_desktop_labels() {
    let labels = "com.docker.compose.project=web,desktop.docker.io/ports/80/tcp=:8080,desktop.docker.io/ports/443/tcp=:8443,desktop.docker.io/ports/80/tcp=:8080";
    assert_eq!(
        docker_label_port_mappings(labels),
        Some(vec!["8080:80".to_string(), "8443:443".to_string()])
    );
    assert_eq!(docker_label_ports(labels), Some(vec![8080, 8443]));
    assert_eq!(docker_label_port_mappings("maintainer=me"), None);
    assert_eq!(docker_label_ports("maintainer=me"), None);
    assert_eq!(docker_label_port_mappings("desktop.docker.io/ports/80/tcp=x"), None);
}

#[test]
fn mapping_host_ports_skips_malformed() {
    let ms = vec!["8080:80".to_string(), "nope".to_string(), "1:2".to_string(), "x:1".to_string()];
    assert_eq!(mapping_host_ports(&ms), vec![8080, 1]);
}

#[test]
fn push_unique_keeps_first_occurrence() {
    let mut ports = vec![1, 2];
    push_unique_port(&mut ports, 2);
    push_unique_port(&mut ports, 3);
    assert_eq!(ports, vec![1, 2, 3]);
    let mut ms = vec!["a".to_string()];
    push_unique_mapping(&mut ms, "a".to_string());
    push_unique_mapping(&mut ms, "b".to_string());
    assert_eq!(ms, vec!["a".to_string(), "b".to_string()]);
}

fn obj(fields: Vec<(&str, JsonValue)>) -> JsonValue {
    JsonValue::Object(fields.into_iter().map(|(k, v)| (k.to_string(), v)).collect())
}

fn binding(host: &str) -> JsonValue {
    obj(vec![("HostIp", JsonValue::Text(String::new())), ("HostPort", JsonValue::Text(host.to_string()))])
}

fn inspect_output() -> JsonValue {
    JsonValue::Array(vec![obj(vec![
        ("Id", JsonValue::Text("abc".to_string())),
        (
            "HostConfig",
            obj(vec![(
                "PortBindings",
                obj(vec![
                    ("5432/tcp", JsonValue::Array(vec![binding("5432"), binding("5432")])),
                    ("80/tcp", JsonValue::Array(vec![binding("8080"), binding("")])),
                    ("9000/udp", JsonValue::Null),
                ]),
            )]),
        ),
    ])])
}

#[test]
fn inspect_ports_and_mappings() {
    let v = inspect_output();
    assert_eq!(docker_inspect_ports(&v), vec![5432, 8080]);
    assert_eq!(
        docker_inspect_port_mappings(&v),
        vec!["5432:5432".to_string(), "8080:80".to_string()]
    );
    assert_eq!(docker_inspect_ports(&JsonValue::Array(vec![])), Vec::<u16>::new());
    assert_eq!(docker_inspect_port_mappings(&JsonValue::Null), Vec::<String>::new());
}

#[test]
fn mapping_host_ports_are_published_ports() {
    let column = "0.0.0.0:8080->80/tcp, :::8080->80/tcp, 0.0.0.0:5432->5432/tcp, 0.0.0.0:9000->abc/tcp";
    let mappings = docker_port_mappings(column).unwrap();
    let ports = docker_ports(column).unwrap();
    assert_eq!(mappings, vec!["8080:80".to_string(), "5432:5432".to_string()]);
    assert_eq!(ports, vec![8080, 5432, 9000]);
    for m in &mappings {
        let host: u16 = m.split_once(':').unwrap().0.parse().unwrap();
        assert!(ports.contains(&host));
    }
}
