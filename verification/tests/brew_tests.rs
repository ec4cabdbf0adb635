use service_pilot::brew::{
    brew_config_path, brew_definition, brew_install_path, brew_service_definitions, brew_status, brew_versions,
    homebrew_prefix, known_brew_port,
};
use service_pilot::model::{BrewFormula, BrewInfo, BrewInstalled, BrewService, BrewVersions};

fn svc(name: &str, status: &str) -> BrewService {
    BrewService { name: name.to_string(), status: status.to_string(), user: Some("me".to_string()), file: None }
}

#[test]
fn known_ports() {
    assert_eq!(known_brew_port("grafana"), Some(3000));
    assert_eq!(known_brew_port("jupyterlab"), Some(8888));
    assert_eq!(known_brew_port("mysql@5.7"), Some(3306));
    assert_eq!(known_brew_port("nginx"), Some(8080));
    assert_eq!(known_brew_port("prometheus"), Some(9090));
    assert_eq!(known_brew_port("redis"), Some(6379));
    assert_eq!(known_brew_port("postgresql@16"), None);
    assert_eq!(known_brew_port("Redis"), None);
}

#[test]
fn config_paths_under_prefix() {
    assert_eq!(brew_config_path("/opt/homebrew", "redis"), Some("/opt/homebrew/etc/redis.conf".to_string()));
    assert_eq!(
        brew_config_path("/usr/local", "grafana"),
        Some("/usr/local/etc/grafana/grafana.ini".to_string())
    );
    assert_eq!(brew_config_path("/p", "nginx"), Some("/p/etc/nginx/nginx.conf".to_string()));
    assert_eq!(brew_config_path("/p", "prometheus"), Some("/p/etc/prometheus.yml".to_string()));
    assert_eq!(brew_config_path("/p", "mysql@5.7"), Some("/p/etc/my.cnf".to_string()));
    assert_eq!(brew_config_path("/p", "jupyterlab"), None);
    assert_eq!(homebrew_prefix(None), "/opt/homebrew");
    assert_eq!(homebrew_prefix(Some("/usr/local".to_string())), "/usr/local");
}

#[test]
fn install_path_from_prefix_output() {
    assert_eq!(brew_install_path(Ok("/opt/homebrew/opt/redis\n".to_string())), Some("/opt/homebrew/opt/redis".to_string()));
    assert_eq!(brew_install_path(Ok("  \n".to_string())), None);
    assert_eq!(brew_install_path(Err("Error: No available formula".to_string())), None);
}

fn formula(installed: &[&str], stable: Option<&str>) -> BrewFormula {
    BrewFormula {
        installed: installed.iter().map(|v| BrewInstalled { version: v.to_string() }).collect(),
        versions: BrewVersions { stable: stable.map(|s| s.to_string()) },
    }
}

#[test]
fn versions_installed_and_stable() {
    let info = BrewInfo { formulae: vec![formula(&["7.2.4", "7.0"], Some("7.2.5"))] };
    assert_eq!(brew_versions(&info), Some(("7.2.4".to_string(), "7.2.5".to_string())));
    let info = BrewInfo { formulae: vec![formula(&[], Some("1.0"))] };
    assert_eq!(brew_versions(&info), Some(("1.0".to_string(), "1.0".to_string())));
    let info = BrewInfo { formulae: vec![formula(&["2.0"], None)] };
    assert_eq!(brew_versions(&info), Some(("2.0".to_string(), "2.0".to_string())));
    let info = BrewInfo { formulae: vec![formula(&[], None)] };
    assert_eq!(brew_versions(&info), None);
    assert_eq!(brew_versions(&BrewInfo { formulae: vec![] }), None);
}

#[test]
fn brew_definitions_and_status() {
    let d = brew_definition(BrewService {
        name: "mysql@5.7".to_string(),
        status: "started".to_string(),
        user: Some("me".to_string()),
        file: Some("/Users/me/Library/LaunchAgents/homebrew.mxcl.mysql@5.7.plist".to_string()),
    });
    assert_eq!(d.key, "brew:mysql@5.7");
    assert_eq!(d.provider, "brew");
    assert_eq!(d.name, "Mysql 5.7");
    assert_eq!(d.status, "started");
    assert_eq!(d.ports, vec![3306]);
    assert_eq!(d.user.as_deref(), Some("me"));
    assert!(d.config_path.is_some());
    let defs = brew_service_definitions(vec![svc("redis", "started"), svc("postgresql@16", "none")]);
    assert_eq!(defs[1].ports, Vec::<u16>::new());
    assert_eq!(defs[1].name, "Postgresql 16");
    assert_eq!(brew_status("postgresql@16", defs).unwrap(), "none");
    let defs = brew_service_definitions(vec![svc("redis", "started")]);
    assert_eq!(brew_status("nginx", defs).err().unwrap(), "Homebrew service not found: nginx");
}
