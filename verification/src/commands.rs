//! What each request of the user interface asks for: the command line to
//! run, or the provider and name of the service it concerns.

use vstd::prelude::*;
use crate::custom::ShellCommand;
use crate::model::{ServiceConfig, ServiceDetails};
use crate::naming;
use crate::ports::string_views;
use crate::text;

verus! {

/// A program and its arguments.
pub struct Invocation {
    pub program: String,
    pub args: Vec<String>,
}

/// A program and its arguments, as texts.
pub struct InvocationView {
    pub program: Seq<char>,
    pub args: Seq<Seq<char>>,
}

impl View for Invocation {
    type V = InvocationView;

    open spec fn view(&self) -> InvocationView {
        InvocationView { program: self.program@, args: string_views(self.args@) }
    }
}

/// What a request runs.
pub enum Action {
    /// This command line.
    Run(Invocation),
    /// The command of the custom service with this id.
    Custom(String),
}

/// What a request runs, as texts.
pub enum ActionView {
    Run(InvocationView),
    Custom(Seq<char>),
}

impl View for Action {
    type V = ActionView;

    open spec fn view(&self) -> ActionView {
        match self {
            Action::Run(inv) => ActionView::Run(inv@),
            Action::Custom(id) => ActionView::Custom(id@),
        }
    }
}

/// The service a request concerns, by provider.
pub enum Target {
    Docker(String),
    Brew(String),
    Custom(String),
}

/// The service a request concerns, as texts.
pub enum TargetView {
    Docker(Seq<char>),
    Brew(Seq<char>),
    Custom(Seq<char>),
}

impl View for Target {
    type V = TargetView;

    open spec fn view(&self) -> TargetView {
        match self {
            Target::Docker(n) => TargetView::Docker(n@),
            Target::Brew(n) => TargetView::Brew(n@),
            Target::Custom(n) => TargetView::Custom(n@),
        }
    }
}

/// The service whose config is saved, by provider.
pub enum EditableTarget {
    Brew(String),
    Custom(String),
}

/// The service whose config is saved, as texts.
pub enum EditableTargetView {
    Brew(Seq<char>),
    Custom(Seq<char>),
}

impl View for EditableTarget {
    type V = EditableTargetView;

    open spec fn view(&self) -> EditableTargetView {
        match self {
            EditableTarget::Brew(n) => EditableTargetView::Brew(n@),
            EditableTarget::Custom(n) => EditableTargetView::Custom(n@),
        }
    }
}

/// The view of a result whose success has a view.
pub open spec fn result_view<T: View>(r: Result<T, String>) -> Result<T::V, Seq<char>> {
    match r {
        Ok(x) => Ok(x@),
        Err(e) => Err(e@),
    }
}

fn arg_list(items: &[&str]) -> (r: Vec<String>)
    ensures
        string_views(r@) == items@.map_values(|s: &str| s@),
{
    let mut r: Vec<String> = Vec::new();
    let mut i: usize = 0;
    while i < items.len()
        invariant
            i <= items@.len(),
            string_views(r@) == items@.take(i as int).map_values(|s: &str| s@),
        decreases items.len() - i,
    {
        let ghost before = r@;
        let item = text::text_of(items[i]);
        assert(item@ == items@[i as int]@);
        r.push(item);
        assert(r@ == before.push(item));
        let ghost prev = items@.take(i as int).map_values(|s: &str| s@);
        let ghost next = items@.take(i + 1).map_values(|s: &str| s@);
        assert(next.len() == prev.len() + 1);
        assert forall|k: int| 0 <= k < next.len() implies #[trigger] next[k] == string_views(
            r@,
        )[k] by {
            if k < prev.len() {
                assert(next[k] == prev[k]);
                assert(string_views(before)[k] == prev[k]);
            }
        }
        assert(string_views(r@) =~= next);
        i = i + 1;
    }
    assert(items@.take(items@.len() as int) =~= items@);
    r
}

fn invocation(program: &str, args: &[&str]) -> (r: Invocation)
    ensures
        r@ == (InvocationView { program: program@, args: args@.map_values(|s: &str| s@) }),
{
    Invocation { program: text::text_of(program), args: arg_list(args) }
}

/// `brew` with the arguments `args`.
pub fn brew(args: &[&str]) -> (r: Invocation)
    ensures
        r@ == (InvocationView { program: "brew"@, args: args@.map_values(|s: &str| s@) }),
{
    invocation("brew", args)
}

/// `docker` with the arguments `args`.
pub fn docker(args: &[&str]) -> (r: Invocation)
    ensures
        r@ == (InvocationView { program: "docker"@, args: args@.map_values(|s: &str| s@) }),
{
    invocation("docker", args)
}

/// `open` for the path `path`.
pub fn open_command(path: &str) -> (r: Invocation)
    ensures
        r@ == (InvocationView { program: "open"@, args: seq![path@] }),
{
    let args = [path];
    let r = invocation("open", &args);
    assert(args@.map_values(|s: &str| s@) =~= seq![path@]);
    r
}

/// `docker ps -a --format json`: every container, one JSON object per line.
pub fn docker_ps_command() -> (r: Invocation)
    ensures
        r@ == (InvocationView {
            program: "docker"@,
            args: seq!["ps"@, "-a"@, "--format"@, "json"@],
        }),
{
    let args = ["ps", "-a", "--format", "json"];
    assert(args@.map_values(|s: &str| s@) =~= seq!["ps"@, "-a"@, "--format"@, "json"@]);
    docker(&args)
}

/// `docker inspect <name>`: the full configuration of a container.
pub fn docker_inspect_command(name: &str) -> (r: Invocation)
    ensures
        r@ == (InvocationView { program: "docker"@, args: seq!["inspect"@, name@] }),
{
    let args = ["inspect", name];
    assert(args@.map_values(|s: &str| s@) =~= seq!["inspect"@, name@]);
    docker(&args)
}

/// `docker inspect --format {{.State.Status}} <name>`: the state of a
/// container.
pub fn docker_status_command(name: &str) -> (r: Invocation)
    ensures
        r@ == (InvocationView {
            program: "docker"@,
            args: seq!["inspect"@, "--format"@, "{{.State.Status}}"@, name@],
        }),
{
    let args = ["inspect", "--format", "{{.State.Status}}", name];
    assert(args@.map_values(|s: &str| s@) =~= seq![
        "inspect"@,
        "--format"@,
        "{{.State.Status}}"@,
        name@,
    ]);
    docker(&args)
}

/// `docker inspect --format {{range .Mounts}}{{.Source}},{{end}} <name>`:
/// the mount sources of a container, each followed by a comma.
pub fn docker_mounts_command(name: &str) -> (r: Invocation)
    ensures
        r@ == (InvocationView {
            program: "docker"@,
            args: seq!["inspect"@, "--format"@, "{{range .Mounts}}{{.Source}},{{end}}"@, name@],
        }),
{
    let args = ["inspect", "--format", "{{range .Mounts}}{{.Source}},{{end}}", name];
    assert(args@.map_values(|s: &str| s@) =~= seq![
        "inspect"@,
        "--format"@,
        "{{range .Mounts}}{{.Source}},{{end}}"@,
        name@,
    ]);
    docker(&args)
}

/// `brew services list --json`: every Homebrew service.
pub fn brew_services_list_command() -> (r: Invocation)
    ensures
        r@ == (InvocationView { program: "brew"@, args: seq!["services"@, "list"@, "--json"@] }),
{
    let args = ["services", "list", "--json"];
    assert(args@.map_values(|s: &str| s@) =~= seq!["services"@, "list"@, "--json"@]);
    brew(&args)
}

/// `brew --prefix <name>`: the install path of a formula.
pub fn brew_prefix_command(name: &str) -> (r: Invocation)
    ensures
        r@ == (InvocationView { program: "brew"@, args: seq!["--prefix"@, name@] }),
{
    let args = ["--prefix", name];
    assert(args@.map_values(|s: &str| s@) =~= seq!["--prefix"@, name@]);
    brew(&args)
}

/// `brew info --json=v2 <name>`: the versions of a formula.
pub fn brew_info_command(name: &str) -> (r: Invocation)
    ensures
        r@ == (InvocationView { program: "brew"@, args: seq!["info"@, "--json=v2"@, name@] }),
{
    let args = ["info", "--json=v2", name];
    assert(args@.map_values(|s: &str| s@) =~= seq!["info"@, "--json=v2"@, name@]);
    brew(&args)
}

/// The program that runs custom commands: `/bin/zsh -lc <command>`, in the
/// working directory of `command` when it has one.
pub fn shell_invocation(command: &ShellCommand) -> (r: Invocation)
    ensures
        r@ == (InvocationView { program: "/bin/zsh"@, args: seq!["-lc"@, command.text@] }),
{
    let args = ["-lc", command.text.as_str()];
    assert(args@.map_values(|s: &str| s@) =~= seq!["-lc"@, command.text@]);
    invocation("/bin/zsh", &args)
}

/// The message for a provider that a request does not support.
pub open spec fn unsupported_message(provider: Seq<char>) -> Seq<char> {
    "Unsupported provider: "@ + provider
}

/// Starting, stopping or restarting (`verb`) the service `service`: `docker
/// <verb> <name>`, `brew services <verb> <name>`, or the custom service's
/// command.
pub open spec fn spec_lifecycle(service: Seq<char>, verb: Seq<char>) -> Result<ActionView, Seq<char>> {
    match naming::spec_parse_service_id(service) {
        None => Err(naming::invalid_service_id_message(service)),
        Some((provider, name)) => if provider == "docker"@ {
            Ok(ActionView::Run(InvocationView { program: "docker"@, args: seq![verb, name] }))
        } else if provider == "brew"@ {
            Ok(
                ActionView::Run(
                    InvocationView { program: "brew"@, args: seq!["services"@, verb, name] },
                ),
            )
        } else if provider == "custom"@ {
            Ok(ActionView::Custom(name))
        } else {
            Err(unsupported_message(provider))
        },
    }
}

fn lifecycle(service: &str, verb: &str) -> (r: Result<Action, String>)
    ensures
        result_view(r) == spec_lifecycle(service@, verb@),
{
    let sr = naming::parse_service_id(service)?;
    let name = sr.name.as_str();
    if text::same_text(sr.provider.as_str(), "docker") {
        let args = [verb, name];
        assert(args@.map_values(|s: &str| s@) =~= seq![verb@, name@]);
        Ok(Action::Run(docker(&args)))
    } else if text::same_text(sr.provider.as_str(), "brew") {
        let args = ["services", verb, name];
        assert(args@.map_values(|s: &str| s@) =~= seq!["services"@, verb@, name@]);
        Ok(Action::Run(brew(&args)))
    } else if text::same_text(sr.provider.as_str(), "custom") {
        Ok(Action::Custom(sr.name))
    } else {
        Err(text::concat_str("Unsupported provider: ", sr.provider.as_str()))
    }
}

/// What starting the service `service` runs.
pub fn start_service(service: &str) -> (r: Result<Action, String>)
    ensures
        result_view(r) == spec_lifecycle(service@, "start"@),
{
    lifecycle(service, "start")
}

/// What stopping the service `service` runs.
pub fn stop_service(service: &str) -> (r: Result<Action, String>)
    ensures
        result_view(r) == spec_lifecycle(service@, "stop"@),
{
    lifecycle(service, "stop")
}

/// What restarting the service `service` runs.
pub fn restart_service(service: &str) -> (r: Result<Action, String>)
    ensures
        result_view(r) == spec_lifecycle(service@, "restart"@),
{
    lifecycle(service, "restart")
}

/// The logs of the service `service`: `docker logs --tail 160 <name>`,
/// `brew services info <name>`, or the custom service's logs.
pub open spec fn spec_service_logs(service: Seq<char>) -> Result<ActionView, Seq<char>> {
    match naming::spec_parse_service_id(service) {
        None => Err(naming::invalid_service_id_message(service)),
        Some((provider, name)) => if provider == "docker"@ {
            Ok(
                ActionView::Run(
                    InvocationView {
                        program: "docker"@,
                        args: seq!["logs"@, "--tail"@, "160"@, name],
                    },
                ),
            )
        } else if provider == "brew"@ {
            Ok(
                ActionView::Run(
                    InvocationView { program: "brew"@, args: seq!["services"@, "info"@, name] },
                ),
            )
        } else if provider == "custom"@ {
            Ok(ActionView::Custom(name))
        } else {
            Err(unsupported_message(provider))
        },
    }
}

/// What reading the logs of the service `service` runs.
pub fn service_logs(service: &str) -> (r: Result<Action, String>)
    ensures
        result_view(r) == spec_service_logs(service@),
{
    let sr = naming::parse_service_id(service)?;
    let name = sr.name.as_str();
    if text::same_text(sr.provider.as_str(), "docker") {
        let args = ["logs", "--tail", "160", name];
        assert(args@.map_values(|s: &str| s@) =~= seq!["logs"@, "--tail"@, "160"@, name@]);
        Ok(Action::Run(docker(&args)))
    } else if text::same_text(sr.provider.as_str(), "brew") {
        let args = ["services", "info", name];
        assert(args@.map_values(|s: &str| s@) =~= seq!["services"@, "info"@, name@]);
        Ok(Action::Run(brew(&args)))
    } else if text::same_text(sr.provider.as_str(), "custom") {
        Ok(Action::Custom(sr.name))
    } else {
        Err(text::concat_str("Unsupported provider: ", sr.provider.as_str()))
    }
}

/// Updating the service `service`: `brew upgrade <name>` for a Homebrew
/// service; other providers cannot update.
pub open spec fn spec_update_service(service: Seq<char>) -> Result<InvocationView, Seq<char>> {
    match naming::spec_parse_service_id(service) {
        None => Err(naming::invalid_service_id_message(service)),
        Some((provider, name)) => if provider == "brew"@ {
            Ok(InvocationView { program: "brew"@, args: seq!["upgrade"@, name] })
        } else {
            Err("Update is not supported for provider: "@ + provider)
        },
    }
}

/// What updating the service `service` runs.
pub fn update_service(service: &str) -> (r: Result<Invocation, String>)
    ensures
        result_view(r) == spec_update_service(service@),
{
    let sr = naming::parse_service_id(service)?;
    if text::same_text(sr.provider.as_str(), "brew") {
        let args = ["upgrade", sr.name.as_str()];
        assert(args@.map_values(|s: &str| s@) =~= seq!["upgrade"@, sr.name@]);
        Ok(brew(&args))
    } else {
        Err(text::concat_str("Update is not supported for provider: ", sr.provider.as_str()))
    }
}

/// The service `service` for a request that every provider supports.
pub open spec fn spec_target(service: Seq<char>) -> Result<TargetView, Seq<char>> {
    match naming::spec_parse_service_id(service) {
        None => Err(naming::invalid_service_id_message(service)),
        Some((provider, name)) => if provider == "docker"@ {
            Ok(TargetView::Docker(name))
        } else if provider == "brew"@ {
            Ok(TargetView::Brew(name))
        } else if provider == "custom"@ {
            Ok(TargetView::Custom(name))
        } else {
            Err(unsupported_message(provider))
        },
    }
}

fn target(service: &str) -> (r: Result<Target, String>)
    ensures
        result_view(r) == spec_target(service@),
{
    let sr = naming::parse_service_id(service)?;
    if text::same_text(sr.provider.as_str(), "docker") {
        Ok(Target::Docker(sr.name))
    } else if text::same_text(sr.provider.as_str(), "brew") {
        Ok(Target::Brew(sr.name))
    } else if text::same_text(sr.provider.as_str(), "custom") {
        Ok(Target::Custom(sr.name))
    } else {
        Err(text::concat_str("Unsupported provider: ", sr.provider.as_str()))
    }
}

/// The service whose status is asked for.
pub fn service_status(service: &str) -> (r: Result<Target, String>)
    ensures
        result_view(r) == spec_target(service@),
{
    target(service)
}

/// The service whose details are asked for.
pub fn service_details(service: &str) -> (r: Result<Target, String>)
    ensures
        result_view(r) == spec_target(service@),
{
    target(service)
}

/// The service whose path is to be opened.
pub fn open_service_path(service: &str) -> (r: Result<Target, String>)
    ensures
        result_view(r) == spec_target(service@),
{
    target(service)
}

/// The service whose config is read: a Docker container, a custom service,
/// and for any other provider a Homebrew service.
pub open spec fn spec_read_service_config(service: Seq<char>) -> Result<TargetView, Seq<char>> {
    match naming::spec_parse_service_id(service) {
        None => Err(naming::invalid_service_id_message(service)),
        Some((provider, name)) => if provider == "docker"@ {
            Ok(TargetView::Docker(name))
        } else if provider == "custom"@ {
            Ok(TargetView::Custom(name))
        } else {
            Ok(TargetView::Brew(name))
        },
    }
}

/// The service whose config is to be read.
pub fn read_service_config(service: &str) -> (r: Result<Target, String>)
    ensures
        result_view(r) == spec_read_service_config(service@),
{
    let sr = naming::parse_service_id(service)?;
    if text::same_text(sr.provider.as_str(), "docker") {
        Ok(Target::Docker(sr.name))
    } else if text::same_text(sr.provider.as_str(), "custom") {
        Ok(Target::Custom(sr.name))
    } else {
        Ok(Target::Brew(sr.name))
    }
}

/// The message for a config that cannot be saved.
pub open spec fn read_only_message() -> Seq<char> {
    "This service config is read-only."@
}

/// The service whose config is saved: a custom service, and for any provider
/// but Docker, whose config is read-only, a Homebrew service.
pub open spec fn spec_save_service_config(service: Seq<char>) -> Result<EditableTargetView, Seq<char>> {
    match naming::spec_parse_service_id(service) {
        None => Err(naming::invalid_service_id_message(service)),
        Some((provider, name)) => if provider == "docker"@ {
            Err(read_only_message())
        } else if provider == "custom"@ {
            Ok(EditableTargetView::Custom(name))
        } else {
            Ok(EditableTargetView::Brew(name))
        },
    }
}

/// The service whose config is to be saved.
pub fn save_service_config(service: &str) -> (r: Result<EditableTarget, String>)
    ensures
        result_view(r) == spec_save_service_config(service@),
{
    let sr = naming::parse_service_id(service)?;
    if text::same_text(sr.provider.as_str(), "docker") {
        Err(text::text_of("This service config is read-only."))
    } else if text::same_text(sr.provider.as_str(), "custom") {
        Ok(EditableTarget::Custom(sr.name))
    } else {
        Ok(EditableTarget::Brew(sr.name))
    }
}

/// The message for a service without an editable config file.
pub open spec fn no_editable_config_message() -> Seq<char> {
    "No editable config file was discovered for this service."@
}

/// The config file to save a Homebrew service's config to, given the file
/// found for it, if any.
pub fn editable_config_path(path: Option<String>) -> (r: Result<String, String>)
    ensures
        match path {
            Some(p) => r matches Ok(q) && q@ == p@,
            None => r matches Err(e) && e@ == no_editable_config_message(),
        },
{
    match path {
        Some(p) => Ok(p),
        None => Err(text::text_of("No editable config file was discovered for this service.")),
    }
}

/// The command that opens the path found for a service, or why there is none.
pub fn open_path_command(path: Option<String>) -> (r: Result<Invocation, String>)
    ensures
        match path {
            Some(p) => r matches Ok(inv) && inv@ == (InvocationView {
                program: "open"@,
                args: seq![p@],
            }),
            None => r matches Err(e) && e@ == "No path discovered for this service."@,
        },
{
    match path {
        Some(p) => Ok(open_command(p.as_str())),
        None => Err(text::text_of("No path discovered for this service.")),
    }
}

/// The config shown for a Docker container: the output `content` of `docker
/// inspect <name>`, read-only.
pub fn docker_inspect_config(name: &str, content: String) -> (c: ServiceConfig)
    ensures
        c.path@ == "docker inspect "@ + name@,
        c.content@ == content@,
        c.readonly,
        c.message@ == "Docker container configuration is shown from docker inspect and is read-only."@,
{
    ServiceConfig {
        path: text::concat_str("docker inspect ", name),
        content,
        readonly: true,
        message: text::text_of(
            "Docker container configuration is shown from docker inspect and is read-only.",
        ),
    }
}

/// The config shown for a service without an editable config file: empty and
/// read-only.
pub fn missing_config() -> (c: ServiceConfig)
    ensures
        c.path@.len() == 0,
        c.content@.len() == 0,
        c.readonly,
        c.message@ == "No editable config file was discovered for this service."@,
{
    ServiceConfig {
        path: String::new(),
        content: String::new(),
        readonly: true,
        message: text::text_of("No editable config file was discovered for this service."),
    }
}

fn or_empty(o: Option<String>) -> (r: String)
    ensures
        r@ == crate::model::text_or_empty(o),
{
    match o {
        Some(s) => s,
        None => String::new(),
    }
}

/// The details of a Homebrew service: its versions, config file and install
/// path, each empty where unknown.
pub fn brew_details(
    versions: Option<(String, String)>,
    config_path: Option<String>,
    path: Option<String>,
) -> (d: ServiceDetails)
    ensures
        match versions {
            Some((v, l)) => d.version@ == v@ && d.latest_version@ == l@,
            None => d.version@.len() == 0 && d.latest_version@.len() == 0,
        },
        d.config_path@ == crate::model::text_or_empty(config_path),
        d.path@ == crate::model::text_or_empty(path),
{
    let (version, latest_version) = match versions {
        Some((v, l)) => (v, l),
        None => (String::new(), String::new()),
    };
    ServiceDetails {
        version,
        latest_version,
        config_path: or_empty(config_path),
        path: or_empty(path),
    }
}

/// The details of a Docker container: its mounts, when `docker inspect`
/// gave them; no versions and no config file.
pub fn docker_details(mounts: Result<String, String>) -> (d: ServiceDetails)
    ensures
        d.version@.len() == 0,
        d.latest_version@.len() == 0,
        d.config_path@.len() == 0,
        d.path@ == match mounts {
            Ok(m) => m@,
            Err(_) => Seq::<char>::empty(),
        },
{
    ServiceDetails {
        version: String::new(),
        latest_version: String::new(),
        config_path: String::new(),
        path: match mounts {
            Ok(m) => m,
            Err(_) => String::new(),
        },
    }
}

/// The details of a custom service: its config file and path, each empty
/// where unknown; no versions.
pub fn custom_details(config_path: Option<String>, path: Option<String>) -> (d: ServiceDetails)
    ensures
        d.version@.len() == 0,
        d.latest_version@.len() == 0,
        d.config_path@ == crate::model::text_or_empty(config_path),
        d.path@ == crate::model::text_or_empty(path),
{
    ServiceDetails {
        version: String::new(),
        latest_version: String::new(),
        config_path: or_empty(config_path),
        path: or_empty(path),
    }
}


/// What a program that ran gives: its output when it succeeded, otherwise
/// its error output trimmed.
pub open spec fn spec_command_output(succeeded: bool, stdout: Seq<char>, stderr: Seq<char>) -> Result<
    Seq<char>,
    Seq<char>,
> {
    if succeeded {
        Ok(stdout)
    } else {
        Err(text::trim(stderr))
    }
}

/// The result of a program, given whether it succeeded and what it wrote.
pub fn command_output(succeeded: bool, stdout: String, stderr: String) -> (r: Result<String, String>)
    ensures
        crate::brew::result_text(r) == spec_command_output(succeeded, stdout@, stderr@),
{
    if succeeded {
        Ok(stdout)
    } else {
        Err(text::trim_str(stderr.as_str()))
    }
}

/// Every service that can be started, stopped or restarted also has logs: the
/// same ids are accepted, a custom service's logs are its own, and an id that
/// is refused gets the same answer.
pub proof fn lemma_logs_for_controllable_services(service: Seq<char>, verb: Seq<char>)
    ensures
        spec_lifecycle(service, verb) is Ok <==> spec_service_logs(service) is Ok,
        spec_lifecycle(service, verb) matches Ok(ActionView::Custom(n)) ==> spec_service_logs(
            service,
        ) == Ok::<ActionView, Seq<char>>(ActionView::Custom(n)),
        spec_lifecycle(service, verb) is Err ==> spec_service_logs(service) == spec_lifecycle(
            service,
            verb,
        ),
{
}

/// The logs of the custom service `name` (the id `custom:<name>`) are that
/// service's own.
pub proof fn lemma_custom_logs(name: Seq<char>)
    requires
        name.len() > 0,
    ensures
        spec_service_logs("custom"@ + seq![':'] + name) == Ok::<ActionView, Seq<char>>(
            ActionView::Custom(name),
        ),
{
    reveal_strlit("custom");
    reveal_strlit("docker");
    reveal_strlit("brew");
    assert("custom"@ != "docker"@ && "custom"@ != "brew"@) by {
        assert("custom"@[0] != "docker"@[0]);
        assert("custom"@[0] != "brew"@[0]);
    }
    assert(!"custom"@.contains(':')) by {
        if "custom"@.contains(':') {
            let k = choose|k: int| 0 <= k < "custom"@.len() && "custom"@[k] == ':';
        }
    }
    naming::lemma_service_id_round_trip("custom"@, name);
}

} // verus!
