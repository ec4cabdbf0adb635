use service_pilot::commands::{
    brew, command_output, custom_details, docker, docker_details, docker_inspect_config, missing_config,
    brew_details, open_command, open_service_path, read_service_config, restart_service, save_service_config,
    service_details, service_logs, service_status, start_service, stop_service, update_service, Action, Target,
    EditableTarget, editable_config_path, open_path_command, docker_ps_command, docker_inspect_command,
    docker_status_command, docker_mounts_command, brew_services_list_command, brew_prefix_command, brew_info_command,
    shell_invocation, Invocation,
};
use service_pilot::custom::shell_command;

fn run_of(a: Action) -> (String, Vec<String>) {
    match a {
        Action::Run(inv) => (inv.program, inv.args),
        Action::Custom(id) => panic!("unexpected custom {id}"),
    }
}

#[test]
fn lifecycle_commands_per_provider() {
    assert_eq!(run_of(start_service("docker:web").unwrap()), ("docker".to_string(), vec!["start".to_string(), "web".to_string()]));
    assert_eq!(
        run_of(stop_service("brew:redis").unwrap()),
        ("brew".to_string(), vec!["services".to_string(), "stop".to_string(), "redis".to_string()])
    );
    assert_eq!(
        run_of(restart_service("brew:redis").unwrap()),
        ("brew".to_string(), vec!["services".to_string(), "restart".to_string(), "redis".to_string()])
    );
    match start_service("custom:python-worker").unwrap() {
        Action::Custom(id) => assert_eq!(id, "python-worker"),
        Action::Run(_) => panic!("expected custom"),
    }
    assert_eq!(start_service("k8s:web").err().unwrap(), "Unsupported provider: k8s");
    assert_eq!(stop_service("web").err().unwrap(), "Invalid service id: web");
}

#[test]
fn logs_commands() {
    assert_eq!(
        run_of(service_logs("docker:web").unwrap()),
        ("docker".to_string(), vec!["logs", "--tail", "160", "web"].into_iter().map(String::from).collect())
    );
    assert_eq!(
        run_of(service_logs("brew:redis").unwrap()),
        ("brew".to_string(), vec!["services", "info", "redis"].into_iter().map(String::from).collect())
    );
    assert_eq!(service_logs("x:y").err().unwrap(), "Unsupported provider: x");
}

#[test]
fn update_only_for_homebrew() {
    let inv = update_service("brew:redis").unwrap();
    assert_eq!(inv.program, "brew");
    assert_eq!(inv.args, vec!["upgrade".to_string(), "redis".to_string()]);
    assert_eq!(update_service("docker:web").err().unwrap(), "Update is not supported for provider: docker");
}

#[test]
fn targets() {
    assert!(matches!(service_status("docker:web").unwrap(), Target::Docker(n) if n == "web"));
    assert!(matches!(service_details("brew:redis").unwrap(), Target::Brew(n) if n == "redis"));
    assert!(matches!(open_service_path("custom:w").unwrap(), Target::Custom(n) if n == "w"));
    assert_eq!(service_status("other:x").err().unwrap(), "Unsupported provider: other");
    assert!(matches!(read_service_config("other:x").unwrap(), Target::Brew(n) if n == "x"));
    assert!(matches!(read_service_config("docker:x").unwrap(), Target::Docker(_)));
    assert!(matches!(read_service_config("custom:x").unwrap(), Target::Custom(_)));
    assert_eq!(save_service_config("docker:x").err().unwrap(), "This service config is read-only.");
    assert!(matches!(save_service_config("zz:x").unwrap(), EditableTarget::Brew(_)));
    assert!(matches!(save_service_config("custom:x").unwrap(), EditableTarget::Custom(_)));
    assert_eq!(read_service_config(":x").err().unwrap(), "Invalid service id: :x");
}

#[test]
fn invocations() {
    let inv = docker(&["ps", "-a", "--format", "json"]);
    assert_eq!(inv.program, "docker");
    assert_eq!(inv.args, vec!["ps", "-a", "--format", "json"]);
    let inv = brew(&["services", "list", "--json"]);
    assert_eq!(inv.program, "brew");
    assert_eq!(inv.args.len(), 3);
    let inv = open_command("/Users/me");
    assert_eq!((inv.program.as_str(), inv.args), ("open", vec!["/Users/me".to_string()]));
}

#[test]
fn outputs_and_views() {
    assert_eq!(command_output(true, "ok\n".to_string(), "".to_string()), Ok("ok\n".to_string()));
    assert_eq!(command_output(false, "".to_string(), " bad \n".to_string()), Err("bad".to_string()));
    let c = docker_inspect_config("web", "[]".to_string());
    assert_eq!(c.path, "docker inspect web");
    assert!(c.readonly);
    assert_eq!(c.message, "Docker container configuration is shown from docker inspect and is read-only.");
    let c = missing_config();
    assert_eq!((c.path.as_str(), c.content.as_str(), c.readonly), ("", "", true));
    assert_eq!(c.message, "No editable config file was discovered for this service.");
    let d = brew_details(Some(("1".to_string(), "2".to_string())), None, Some("/p".to_string()));
    assert_eq!((d.version.as_str(), d.latest_version.as_str(), d.config_path.as_str(), d.path.as_str()), ("1", "2", "", "/p"));
    let d = docker_details(Ok("/a".to_string()));
    assert_eq!(d.path, "/a");
    let d = docker_details(Err("x".to_string()));
    assert_eq!(d.path, "");
    let d = custom_details(Some("/c".to_string()), None);
    assert_eq!((d.config_path.as_str(), d.path.as_str()), ("/c", ""));
}

#[test]
fn saving_needs_an_editable_file() {
    assert_eq!(editable_config_path(Some("/opt/homebrew/etc/redis.conf".to_string())).unwrap(), "/opt/homebrew/etc/redis.conf");
    assert_eq!(
        editable_config_path(None).err().unwrap(),
        "No editable config file was discovered for this service."
    );
    match save_service_config("brew:redis").unwrap() {
        EditableTarget::Brew(name) => assert_eq!(name, "redis"),
        EditableTarget::Custom(_) => panic!("expected brew"),
    }
    match save_service_config("custom:worker").unwrap() {
        EditableTarget::Custom(id) => assert_eq!(id, "worker"),
        EditableTarget::Brew(_) => panic!("expected custom"),
    }
}

#[test]
fn opening_a_path_needs_a_path() {
    let inv = open_path_command(Some("/srv/app".to_string())).unwrap();
    assert_eq!(inv.program, "open");
    assert_eq!(inv.args, vec!["/srv/app".to_string()]);
    assert_eq!(open_path_command(None).err().unwrap(), "No path discovered for this service.");
}

fn parts(inv: Invocation) -> (String, Vec<String>) {
    (inv.program, inv.args)
}

fn strings(items: &[&str]) -> Vec<String> {
    items.iter().map(|s| s.to_string()).collect()
}

#[test]
fn read_commands() {
    assert_eq!(parts(docker_ps_command()), ("docker".to_string(), strings(&["ps", "-a", "--format", "json"])));
    assert_eq!(parts(docker_inspect_command("web")), ("docker".to_string(), strings(&["inspect", "web"])));
    assert_eq!(
        parts(docker_status_command("web")),
        ("docker".to_string(), strings(&["inspect", "--format", "{{.State.Status}}", "web"]))
    );
    assert_eq!(
        parts(docker_mounts_command("web")),
        ("docker".to_string(), strings(&["inspect", "--format", "{{range .Mounts}}{{.Source}},{{end}}", "web"]))
    );
    assert_eq!(parts(brew_services_list_command()), ("brew".to_string(), strings(&["services", "list", "--json"])));
    assert_eq!(parts(brew_prefix_command("redis")), ("brew".to_string(), strings(&["--prefix", "redis"])));
    assert_eq!(parts(brew_info_command("redis")), ("brew".to_string(), strings(&["info", "--json=v2", "redis"])));
}

#[test]
fn custom_commands_run_through_zsh() {
    let c = shell_command("pgrep -f worker.py", &Some("/srv".to_string()));
    assert_eq!(parts(shell_invocation(&c)), ("/bin/zsh".to_string(), strings(&["-lc", "pgrep -f worker.py"])));
}
