use service_pilot::catalog::{discover_services, list_services, order_custom_services, DatedService};
use service_pilot::model::{CustomService, ServiceDefinition};

fn def(provider: &str, name: &str, status: &str, ports: Vec<u16>) -> ServiceDefinition {
    ServiceDefinition {
        key: format!("{provider}:{}", name.to_lowercase()),
        provider: provider.to_string(),
        name: name.to_string(),
        status: status.to_string(),
        ports,
        port_mappings: Vec::new(),
        path: None,
        image: Some("img".to_string()),
        version: None,
        latest_version: None,
        user: None,
        config_path: None,
    }
}

fn custom(name: &str) -> CustomService {
    CustomService {
        id: None,
        name: name.to_string(),
        port: None,
        ports: None,
        cwd: None,
        path: None,
        start: "s".to_string(),
        stop: "t".to_string(),
        restart: None,
        status: None,
        logs: None,
        config: None,
    }
}

#[test]
fn services_sorted_by_provider_then_name() {
    let docker = vec![def("docker", "Web", "running", vec![]), def("docker", "Api", "exited", vec![])];
    let brew = vec![def("brew", "Redis", "started", vec![6379])];
    let custom = vec![def("custom", "Worker", "unknown", vec![])];
    let all = discover_services(docker, brew, custom);
    let names: Vec<(String, String)> = all.iter().map(|d| (d.provider.clone(), d.name.clone())).collect();
    assert_eq!(
        names,
        vec![
            ("brew".to_string(), "Redis".to_string()),
            ("custom".to_string(), "Worker".to_string()),
            ("docker".to_string(), "Api".to_string()),
            ("docker".to_string(), "Web".to_string()),
        ]
    );
}

#[test]
fn custom_services_stay_newest_first() {
    let newest_first = vec![
        def("custom", "Zeta", "newest", vec![]),
        def("custom", "Alpha", "middle", vec![]),
        def("custom", "Mid", "oldest", vec![]),
    ];
    let docker = vec![def("docker", "Web", "running", vec![]), def("docker", "Api", "exited", vec![])];
    let all = discover_services(docker, vec![def("brew", "Redis", "started", vec![])], newest_first);
    let got: Vec<(&str, &str)> = all.iter().map(|d| (d.provider.as_str(), d.name.as_str())).collect();
    assert_eq!(
        got,
        vec![("brew", "Redis"), ("custom", "Zeta"), ("custom", "Alpha"), ("custom", "Mid"), ("docker", "Api"), ("docker", "Web")]
    );
}

#[test]
fn ties_keep_their_order() {
    let docker = vec![def("docker", "Same", "first", vec![]), def("docker", "Same", "second", vec![])];
    let all = discover_services(docker, vec![], vec![def("docker", "Same", "third", vec![])]);
    let statuses: Vec<&str> = all.iter().map(|d| d.status.as_str()).collect();
    assert_eq!(statuses, vec!["first", "second", "third"]);
}

#[test]
fn sort_matches_std_stable_sort() {
    let names = ["b", "a", "B", "a", "", "é", "ab", "b"];
    let providers = ["docker", "brew", "custom"];
    let mut items = Vec::new();
    for (i, n) in names.iter().enumerate() {
        items.push(def(providers[i % 3], n, &i.to_string(), vec![]));
    }
    let mut expected: Vec<(String, String, String)> =
        items.iter().map(|d| (d.provider.clone(), d.name.clone(), d.status.clone())).collect();
    let key = |x: &(String, String, String)| if x.0 == "custom" { String::new() } else { x.1.clone() };
    expected.sort_by(|a, b| a.0.cmp(&b.0).then(key(a).cmp(&key(b))));
    let got: Vec<(String, String, String)> = discover_services(items, vec![], vec![])
        .iter()
        .map(|d| (d.provider.clone(), d.name.clone(), d.status.clone()))
        .collect();
    assert_eq!(got, expected);
}

#[test]
fn custom_services_newest_first() {
    let entries = vec![
        DatedService { created: Some(10), service: custom("Old") },
        DatedService { created: None, service: custom("Unknown B") },
        DatedService { created: Some(30), service: custom("New") },
        DatedService { created: Some(20), service: custom("Mid A") },
        DatedService { created: Some(20), service: custom("Mid B") },
        DatedService { created: None, service: custom("Unknown A") },
    ];
    let names: Vec<String> = order_custom_services(entries).into_iter().map(|s| s.name).collect();
    assert_eq!(names, vec!["New", "Mid B", "Mid A", "Old", "Unknown B", "Unknown A"]);
}

#[test]
fn states_show_first_port() {
    let states = list_services(vec![def("brew", "Redis", "started", vec![6379, 6380]), def("docker", "X", "exited", vec![])]);
    assert_eq!(states.len(), 2);
    assert_eq!(states[0].port, 6379);
    assert_eq!(states[0].ports, vec![6379, 6380]);
    assert_eq!(states[0].id, "brew:redis");
    assert_eq!(states[0].path, "");
    assert_eq!(states[0].image, "img");
    assert_eq!(states[1].port, 0);
}
