use service_pilot::custom::{
    add_custom_service, custom_definition, custom_service, custom_service_config_path, custom_service_file_path,
    custom_service_logs, custom_service_path, custom_service_status, custom_services_config_dir,
    definition_config, discover_custom_services, legacy_custom_services_config_path, loaded_config,
    read_custom_service_config, run_custom_restart, run_custom_start, run_custom_stop, save_custom_service_config,
    shell_command, shell_output, status_probe, has_json_extension, check_new_custom_service, ConfigSource,
    LogsSource, RestartPlan,
};
use service_pilot::model::{CustomService, CustomServiceInput};

fn service(id: Option<&str>, name: &str) -> CustomService {
    CustomService {
        id: id.map(|s| s.to_string()),
        name: name.to_string(),
        port: None,
        ports: None,
        cwd: None,
        path: None,
        start: "python worker.py".to_string(),
        stop: "pkill -f worker.py".to_string(),
        restart: None,
        status: None,
        logs: None,
        config: None,
    }
}

fn worker() -> CustomService {
    let mut s = service(Some("python-worker"), "Python Worker");
    s.port = Some(8080);
    s.ports = Some(vec![9000, 8080]);
    s.cwd = Some("/Users/me/projects/worker".to_string());
    s.status = Some("pgrep -f worker.py".to_string());
    s.logs = Some("tail -n 160 worker.log".to_string());
    s.config = Some("/Users/me/projects/worker/config.yaml".to_string());
    s
}

fn input(name: &str, start: &str, stop: &str) -> CustomServiceInput {
    CustomServiceInput {
        id: None,
        name: name.to_string(),
        port: None,
        cwd: None,
        path: None,
        start: start.to_string(),
        stop: stop.to_string(),
        restart: None,
        status: None,
        logs: None,
        config: None,
    }
}

#[test]
fn lookup_by_explicit_or_derived_id() {
    let all = vec![service(None, "Api Server"), worker(), service(Some("python-worker"), "Second")];
    let found = custom_service(all, "python-worker").unwrap();
    assert_eq!(found.name, "Python Worker");
    let all = vec![service(None, "Api Server"), worker()];
    assert_eq!(custom_service(all, "api-server").unwrap().name, "Api Server");
    let err = custom_service(vec![worker()], "missing").err().unwrap();
    assert_eq!(err, "Custom service not found: missing");
}

#[test]
fn status_follows_status_command() {
    let w = worker();
    assert_eq!(custom_service_status(&w, true), "running");
    assert_eq!(custom_service_status(&w, false), "stopped");
    let plain = service(None, "Plain");
    assert_eq!(custom_service_status(&plain, true), "unknown");
    assert!(status_probe(&plain).is_none());
    let probe = status_probe(&w).unwrap();
    assert_eq!(probe.text, "pgrep -f worker.py");
    assert_eq!(probe.cwd.as_deref(), Some("/Users/me/projects/worker"));
}

#[test]
fn blank_working_directory_is_ignored() {
    let c = shell_command("ls", &Some("   ".to_string()));
    assert_eq!(c.text, "ls");
    assert!(c.cwd.is_none());
    let c = shell_command("ls", &Some(" /tmp ".to_string()));
    assert_eq!(c.cwd.as_deref(), Some(" /tmp "));
}

#[test]
fn start_and_stop_commands() {
    let c = run_custom_start(vec![worker()], "python-worker").unwrap();
    assert_eq!(c.text, "python worker.py");
    let c = run_custom_stop(vec![worker()], "python-worker").unwrap();
    assert_eq!(c.text, "pkill -f worker.py");
    assert_eq!(run_custom_start(vec![], "x").err().unwrap(), "Custom service not found: x");
}

#[test]
fn restart_without_restart_command_stops_then_starts() {
    let mut w = worker();
    w.restart = Some("  ".to_string());
    match run_custom_restart(vec![w], "python-worker").unwrap() {
        RestartPlan::StopThenStart { stop, start } => {
            assert_eq!(stop.text, "pkill -f worker.py");
            assert_eq!(start.text, "python worker.py");
        }
        RestartPlan::Run(_) => panic!("expected stop then start"),
    }
    let mut w = worker();
    w.restart = Some("kill -HUP 1".to_string());
    match run_custom_restart(vec![w], "python-worker").unwrap() {
        RestartPlan::Run(c) => assert_eq!(c.text, "kill -HUP 1"),
        RestartPlan::StopThenStart { .. } => panic!("expected restart command"),
    }
}

#[test]
fn logs_come_from_logs_command_or_definition() {
    match custom_service_logs(vec![worker()], "python-worker").unwrap() {
        LogsSource::Run(c) => assert_eq!(c.text, "tail -n 160 worker.log"),
        LogsSource::Definition(_) => panic!("expected logs command"),
    }
    match custom_service_logs(vec![service(None, "Plain")], "plain").unwrap() {
        LogsSource::Definition(s) => assert_eq!(s.name, "Plain"),
        LogsSource::Run(_) => panic!("expected definition"),
    }
}

#[test]
fn config_file_or_definition() {
    match read_custom_service_config(vec![worker()], "python-worker").unwrap() {
        ConfigSource::File(p) => assert_eq!(p, "/Users/me/projects/worker/config.yaml"),
        ConfigSource::Definition(_) => panic!("expected file"),
    }
    assert!(matches!(
        read_custom_service_config(vec![service(None, "Plain")], "plain").unwrap(),
        ConfigSource::Definition(_)
    ));
    assert_eq!(
        save_custom_service_config(vec![worker()], "python-worker").unwrap(),
        "/Users/me/projects/worker/config.yaml"
    );
    assert_eq!(
        save_custom_service_config(vec![service(None, "Plain")], "plain").err().unwrap(),
        "No config path was configured for this custom service."
    );
    assert_eq!(
        save_custom_service_config(vec![], "plain").err().unwrap(),
        "Custom service not found: plain"
    );
    assert_eq!(
        custom_service_config_path(vec![worker()], "python-worker"),
        Some("/Users/me/projects/worker/config.yaml".to_string())
    );
    assert_eq!(custom_service_config_path(vec![worker()], "nope"), None);
}

#[test]
fn path_prefers_path_over_cwd() {
    assert_eq!(
        custom_service_path(vec![worker()], "python-worker"),
        Some("/Users/me/projects/worker".to_string())
    );
    let mut w = worker();
    w.path = Some("/opt/worker".to_string());
    assert_eq!(custom_service_path(vec![w], "python-worker"), Some("/opt/worker".to_string()));
    assert_eq!(custom_service_path(vec![service(None, "Plain")], "plain"), None);
}

#[test]
fn config_views() {
    let c = definition_config("/home/me/servicepilot/customservices".to_string(), "{}".to_string());
    assert!(c.readonly);
    assert_eq!(c.message, "No config path was configured for this custom service.");
    let c = loaded_config("/etc/x".to_string(), "a=1".to_string());
    assert!(!c.readonly);
    assert_eq!(c.message, "Config file loaded.");
    assert_eq!(c.path, "/etc/x");
    assert_eq!(c.content, "a=1");
}

#[test]
fn definition_files_live_under_home() {
    assert_eq!(custom_services_config_dir("/Users/me"), "/Users/me/servicepilot/customservices");
    assert_eq!(custom_services_config_dir("/Users/me/"), "/Users/me/servicepilot/customservices");
    assert_eq!(
        custom_service_file_path("/Users/me", "Python Worker"),
        "/Users/me/servicepilot/customservices/Python-Worker.json"
    );
    assert_eq!(
        legacy_custom_services_config_path("/Users/me"),
        "/Users/me/Library/Application Support/Service Pilot/custom-services.json"
    );
    let std_path = std::path::PathBuf::from("/Users/me").join("servicepilot").join("customservices").join("a-b.json");
    assert_eq!(custom_service_file_path("/Users/me", "a b"), std_path.display().to_string());
}

#[test]
fn custom_definition_fields() {
    let d = custom_definition(worker(), true);
    assert_eq!(d.key, "custom:python-worker");
    assert_eq!(d.provider, "custom");
    assert_eq!(d.name, "Python Worker");
    assert_eq!(d.status, "running");
    assert_eq!(d.ports, vec![9000, 8080]);
    assert_eq!(d.path.as_deref(), Some("/Users/me/projects/worker"));
    assert_eq!(d.image.as_deref(), Some("python worker.py"));
    assert_eq!(d.config_path.as_deref(), Some("/Users/me/projects/worker/config.yaml"));
    let mut s = service(None, "Solo");
    s.port = Some(3000);
    let d = custom_definition(s, false);
    assert_eq!(d.ports, vec![3000]);
    assert_eq!(d.status, "unknown");
    let defs = discover_custom_services(vec![(worker(), false), (service(None, "B"), true)]);
    assert_eq!(defs.len(), 2);
    assert_eq!(defs[0].status, "stopped");
    assert_eq!(defs[1].key, "custom:b");
}

#[test]
fn add_custom_service_validates_in_order() {
    assert_eq!(add_custom_service(input(" ", "", "")).err().unwrap(), "Custom service name is required.");
    assert_eq!(
        add_custom_service(input("A", " ", "")).err().unwrap(),
        "Custom service start command is required."
    );
    assert_eq!(
        add_custom_service(input("A", "run", "\t")).err().unwrap(),
        "Custom service stop command is required."
    );
}

#[test]
fn add_custom_service_cleans_fields() {
    let mut i = input("  Python Worker ", " python worker.py ", " pkill x ");
    i.id = Some("  ".to_string());
    i.port = Some(8080);
    i.cwd = Some(" /tmp ".to_string());
    i.restart = Some("   ".to_string());
    i.logs = Some(" tail log ".to_string());
    let s = add_custom_service(i).unwrap();
    assert_eq!(s.id, None);
    assert_eq!(s.name, "Python Worker");
    assert_eq!(s.start, "python worker.py");
    assert_eq!(s.stop, "pkill x");
    assert_eq!(s.port, Some(8080));
    assert!(s.ports.is_none());
    assert_eq!(s.cwd.as_deref(), Some("/tmp"));
    assert_eq!(s.restart, None);
    assert_eq!(s.logs.as_deref(), Some("tail log"));
    let mut i = input("A", "b", "c");
    i.id = Some(" keep ".to_string());
    assert_eq!(add_custom_service(i).unwrap().id.as_deref(), Some(" keep "));
}

#[test]
fn re_adding_a_written_record_gives_the_same_record() {
    let mut i = input("  Api ", " run ", " stop ");
    i.path = Some(" /srv ".to_string());
    let s = add_custom_service(i).unwrap();
    let again = CustomServiceInput {
        id: s.id.clone(),
        name: s.name.clone(),
        port: s.port,
        cwd: s.cwd.clone(),
        path: s.path.clone(),
        start: s.start.clone(),
        stop: s.stop.clone(),
        restart: s.restart.clone(),
        status: s.status.clone(),
        logs: s.logs.clone(),
        config: s.config.clone(),
    };
    let t = add_custom_service(again).unwrap();
    assert_eq!((t.name, t.start, t.stop, t.path), (s.name, s.start, s.stop, s.path));
}

#[test]
fn shell_output_reports_failures() {
    assert_eq!(shell_output("x", true, "out".to_string(), "err".to_string()), Ok("out".to_string()));
    assert_eq!(shell_output("x", false, "out".to_string(), " boom \n".to_string()), Err("boom".to_string()));
    assert_eq!(
        shell_output("pgrep x", false, "".to_string(), "  ".to_string()),
        Err("Custom command failed: pgrep x".to_string())
    );
}

#[test]
fn definition_files_are_json_files() {
    assert!(has_json_extension("worker.json"));
    assert!(has_json_extension("..json"));
    assert!(has_json_extension("a.b.json"));
    assert!(!has_json_extension(".json"));
    assert!(!has_json_extension("worker.JSON"));
    assert!(!has_json_extension("worker.json.bak"));
    assert!(!has_json_extension("worker"));
    assert!(!has_json_extension("worker."));
}

#[test]
fn an_existing_definition_is_not_overwritten() {
    assert_eq!(check_new_custom_service("python-worker", false), Ok(()));
    assert_eq!(
        check_new_custom_service("python-worker", true).err().unwrap(),
        "Custom service already exists: python-worker"
    );
}

#[test]
fn an_added_service_is_found_by_its_id() {
    let added = add_custom_service(input(" Python Worker ", "python worker.py", "pkill -f worker.py")).unwrap();
    let id = service_pilot::naming::custom_service_id(&added);
    assert_eq!(id, "python-worker");
    let mut later = service(None, "Python Worker");
    later.start = "python other.py".to_string();
    let services = vec![service(Some("api"), "Api"), added.clone(), later];
    assert_eq!(custom_service(services, &id).unwrap(), added);
}

#[test]
fn a_written_definition_file_is_read_back() {
    let path = custom_service_file_path("/Users/me", "../etc/x.y");
    assert_eq!(path, "/Users/me/servicepilot/customservices/---etc-x-y.json");
    let file = path.rsplit('/').next().unwrap();
    assert!(has_json_extension(file));
}
