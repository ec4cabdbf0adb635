use service_pilot::docker::{
    docker_container_name, docker_definition, docker_mounts, docker_ps_lines, docker_status, needs_inspect,
};
use service_pilot::json::JsonValue;
use service_pilot::model::DockerContainer;

fn container(names: &str, ports: &str, labels: &str) -> DockerContainer {
    DockerContainer {
        names: names.to_string(),
        state: "running".to_string(),
        ports: ports.to_string(),
        image: "postgres:16".to_string(),
        labels: labels.to_string(),
        mounts: "pgdata".to_string(),
    }
}

#[test]
fn status_is_trimmed_output() {
    assert_eq!(docker_status("db", Ok("running\n".to_string())), Ok("running".to_string()));
    assert_eq!(
        docker_status("db", Ok(" \n".to_string())),
        Err("Docker container status is empty: db".to_string())
    );
    assert_eq!(docker_status("db", Err("no such container".to_string())), Err("no such container".to_string()));
}

#[test]
fn mounts_drop_trailing_commas() {
    assert_eq!(docker_mounts(Ok("/a,/b,\n".to_string())), Ok("/a,/b".to_string()));
    assert_eq!(docker_mounts(Ok(",,".to_string())), Ok("".to_string()));
    assert_eq!(docker_mounts(Err("e".to_string())), Err("e".to_string()));
}

#[test]
fn ps_lines_skip_blank_lines() {
    assert_eq!(docker_ps_lines("{\"a\":1}\r\n\n  \n{\"b\":2}\n"), vec!["{\"a\":1}", "{\"b\":2}"]);
    assert_eq!(docker_ps_lines(""), Vec::<String>::new());
    let text = "x\r\ny\r\n\r\nz\r";
    let expected: Vec<&str> = text.lines().filter(|l| !l.trim().is_empty()).collect();
    assert_eq!(docker_ps_lines(text), expected);
}

#[test]
fn container_name_is_first_name() {
    assert_eq!(docker_container_name(" web , web-alias"), "web");
    assert_eq!(docker_container_name("solo"), "solo");
    assert_eq!(docker_container_name(" ,x"), "");
}

#[test]
fn definition_from_ps_ports() {
    let c = container("my_db", "0.0.0.0:5432->5432/tcp, [::]:5432->5432/tcp", "");
    assert!(!needs_inspect(&c));
    let d = docker_definition(c, None).unwrap();
    assert_eq!(d.key, "docker:my_db");
    assert_eq!(d.provider, "docker");
    assert_eq!(d.name, "My Db");
    assert_eq!(d.status, "running");
    assert_eq!(d.ports, vec![5432]);
    assert_eq!(d.port_mappings, vec!["5432:5432".to_string()]);
    assert_eq!(d.path.as_deref(), Some("pgdata"));
    assert_eq!(d.image.as_deref(), Some("postgres:16"));
}

#[test]
fn definition_from_labels() {
    let c = container("web", "", "desktop.docker.io/ports/80/tcp=:8080");
    assert!(!needs_inspect(&c));
    let d = docker_definition(c, None).unwrap();
    assert_eq!(d.ports, vec![8080]);
    assert_eq!(d.port_mappings, vec!["8080:80".to_string()]);
}

fn inspect_with(host: &str, key: &str) -> JsonValue {
    JsonValue::Array(vec![JsonValue::Object(vec![(
        "HostConfig".to_string(),
        JsonValue::Object(vec![(
            "PortBindings".to_string(),
            JsonValue::Object(vec![(
                key.to_string(),
                JsonValue::Array(vec![JsonValue::Object(vec![(
                    "HostPort".to_string(),
                    JsonValue::Text(host.to_string()),
                )])]),
            )]),
        )]),
    )])])
}

#[test]
fn definition_from_inspect() {
    let c = container("api", "", "");
    assert!(needs_inspect(&c));
    let d = docker_definition(c, Some(inspect_with("3000", "3000/tcp"))).unwrap();
    assert_eq!(d.ports, vec![3000]);
    assert_eq!(d.port_mappings, vec!["3000:3000".to_string()]);
    let c = container("api", "", "");
    let d = docker_definition(c, None).unwrap();
    assert_eq!(d.ports, Vec::<u16>::new());
    assert!(d.port_mappings.is_empty());
}

#[test]
fn ports_without_mappings_fall_back() {
    let c = container("api", "127.0.0.1:3000->3000-3001/tcp", "");
    assert!(needs_inspect(&c));
    let d = docker_definition(c, Some(inspect_with("x", "3000/tcp"))).unwrap();
    assert!(d.port_mappings.is_empty());
    assert_eq!(d.ports, vec![3000]);
}

#[test]
fn nameless_container_is_skipped() {
    let c = container("  ", "", "");
    assert!(!needs_inspect(&c));
    assert!(docker_definition(c, None).is_none());
}
