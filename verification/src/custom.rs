//! User-defined command services: lookup by id, the commands that control
//! them, their status, and the records written for new ones.

use vstd::prelude::*;
use crate::model::{opt_text, CustomService, CustomServiceInput, ServiceConfig, ServiceDefinition};
use crate::naming;
use crate::ports;
use crate::text;

verus! {

/// A command line for `/bin/zsh -lc`, with the directory to run it in.
pub struct ShellCommand {
    pub text: String,
    pub cwd: Option<String>,
}

/// What restarting a custom service runs.
pub enum RestartPlan {
    /// Its restart command.
    Run(ShellCommand),
    /// Its stop command, then its start command in the background.
    StopThenStart { stop: ShellCommand, start: ShellCommand },
}

/// Where the logs of a custom service come from.
pub enum LogsSource {
    /// The output of its logs command.
    Run(ShellCommand),
    /// Its own definition, shown as JSON.
    Definition(CustomService),
}

/// Where the config of a custom service comes from.
pub enum ConfigSource {
    /// The file at this path.
    File(String),
    /// Its own definition, shown read-only as JSON.
    Definition(CustomService),
}

/// The working directory a command runs in: `cwd` unless it is blank.
pub open spec fn spec_working_dir(cwd: Option<Seq<char>>) -> Option<Seq<char>> {
    match cwd {
        Some(d) => if text::is_blank(d) {
            None
        } else {
            Some(d)
        },
        None => None,
    }
}

/// Whether `c` runs `command` in the working directory given by `cwd`.
pub open spec fn runs(c: ShellCommand, command: Seq<char>, cwd: Option<String>) -> bool {
    c.text@ == command && opt_text(c.cwd) == spec_working_dir(opt_text(cwd))
}

/// The command `command` run in `cwd`, unless `cwd` is blank.
pub fn shell_command(command: &str, cwd: &Option<String>) -> (c: ShellCommand)
    ensures
        runs(c, command@, *cwd),
{
    let dir = match cwd {
        Some(d) => {
            let t = text::trim_str(d.as_str());
            if t.as_str().is_empty() {
                None
            } else {
                Some(text::text_of(d.as_str()))
            }
        },
        None => None,
    };
    ShellCommand { text: text::text_of(command), cwd: dir }
}

/// The first service of `services` whose id is `id`.
pub open spec fn spec_custom_service(services: Seq<CustomService>, id: Seq<char>) -> Option<
    CustomService,
>
    decreases services.len(),
{
    if services.len() == 0 {
        None
    } else if naming::spec_custom_service_id(services[0]) == id {
        Some(services[0])
    } else {
        spec_custom_service(services.drop_first(), id)
    }
}

/// The message for an id that no custom service has.
pub open spec fn not_found_message(id: Seq<char>) -> Seq<char> {
    "Custom service not found: "@ + id
}

/// The first custom service whose id is `id`.
pub fn custom_service(services: Vec<CustomService>, id: &str) -> (r: Result<CustomService, String>)
    ensures
        match r {
            Ok(s) => spec_custom_service(services@, id@) == Some(s),
            Err(e) => spec_custom_service(services@, id@).is_none() && e@ == not_found_message(id@),
        },
{
    let mut list = services;
    let ghost all = list@;
    let mut i: usize = 0;
    assert(all.skip(0) =~= all);
    while i < list.len()
        invariant
            i <= list@.len(),
            list@ == all,
            all == services@,
            spec_custom_service(all, id@) == spec_custom_service(all.skip(i as int), id@),
        decreases list.len() - i,
    {
        let sid = naming::custom_service_id(&list[i]);
        assert(all.skip(i as int)[0] == all[i as int]);
        if text::same_text(sid.as_str(), id) {
            assert(spec_custom_service(all.skip(i as int), id@) == Some(all[i as int]));
            let s = list.swap_remove(i);
            assert(s == all[i as int]);
            return Ok(s);
        }
        assert(all.skip(i as int).drop_first() =~= all.skip(i + 1));
        i = i + 1;
    }
    assert(all.skip(list@.len() as int) =~= Seq::<CustomService>::empty());
    Err(text::concat_str("Custom service not found: ", id))
}

/// The status shown for a custom service: `unknown` without a status
/// command, otherwise `running` when that command succeeded and `stopped`
/// when it did not.
pub open spec fn spec_custom_service_status(service: CustomService, succeeded: bool) -> Seq<char> {
    match service.status {
        None => "unknown"@,
        Some(_) => if succeeded {
            "running"@
        } else {
            "stopped"@
        },
    }
}

/// The status of a custom service, given whether its status command
/// succeeded (which only matters when it has one).
pub fn custom_service_status(service: &CustomService, succeeded: bool) -> (r: String)
    ensures
        r@ == spec_custom_service_status(*service, succeeded),
{
    match &service.status {
        None => text::text_of("unknown"),
        Some(_) => if succeeded {
            text::text_of("running")
        } else {
            text::text_of("stopped")
        },
    }
}

/// The command that tells whether a custom service runs: its status command,
/// if it has one.
pub fn status_probe(service: &CustomService) -> (r: Option<ShellCommand>)
    ensures
        match r {
            Some(c) => service.status.is_some() && runs(c, service.status.unwrap()@, service.cwd),
            None => service.status.is_none(),
        },
{
    match &service.status {
        Some(command) => Some(shell_command(command.as_str(), &service.cwd)),
        None => None,
    }
}

/// The command that starts the custom service `id` in the background: its
/// start command.
pub fn run_custom_start(services: Vec<CustomService>, id: &str) -> (r: Result<ShellCommand, String>)
    ensures
        match r {
            Ok(c) => match spec_custom_service(services@, id@) {
                Some(s) => runs(c, s.start@, s.cwd),
                None => false,
            },
            Err(e) => spec_custom_service(services@, id@).is_none() && e@ == not_found_message(id@),
        },
{
    let service = custom_service(services, id)?;
    Ok(shell_command(service.start.as_str(), &service.cwd))
}

/// The command that stops the custom service `id`: its stop command.
pub fn run_custom_stop(services: Vec<CustomService>, id: &str) -> (r: Result<ShellCommand, String>)
    ensures
        match r {
            Ok(c) => match spec_custom_service(services@, id@) {
                Some(s) => runs(c, s.stop@, s.cwd),
                None => false,
            },
            Err(e) => spec_custom_service(services@, id@).is_none() && e@ == not_found_message(id@),
        },
{
    let service = custom_service(services, id)?;
    Ok(shell_command(service.stop.as_str(), &service.cwd))
}

/// Whether `p` restarts `s`: with its restart command when it has a
/// non-blank one, otherwise by its stop command and then its start command.
pub open spec fn restarts(p: RestartPlan, s: CustomService) -> bool {
    match s.restart {
        Some(r) if !text::is_blank(r@) => p matches RestartPlan::Run(c) && runs(c, r@, s.cwd),
        _ => match p {
            RestartPlan::StopThenStart { stop, start } => runs(stop, s.stop@, s.cwd) && runs(
                start,
                s.start@,
                s.cwd,
            ),
            _ => false,
        },
    }
}

/// What restarting the custom service `id` runs.
pub fn run_custom_restart(services: Vec<CustomService>, id: &str) -> (r: Result<RestartPlan, String>)
    ensures
        match r {
            Ok(p) => match spec_custom_service(services@, id@) {
                Some(s) => restarts(p, s),
                None => false,
            },
            Err(e) => spec_custom_service(services@, id@).is_none() && e@ == not_found_message(id@),
        },
{
    let service = custom_service(services, id)?;
    if let Some(restart) = &service.restart {
        let t = text::trim_str(restart.as_str());
        if !t.as_str().is_empty() {
            return Ok(RestartPlan::Run(shell_command(restart.as_str(), &service.cwd)));
        }
    }
    Ok(
        RestartPlan::StopThenStart {
            stop: shell_command(service.stop.as_str(), &service.cwd),
            start: shell_command(service.start.as_str(), &service.cwd),
        },
    )
}

/// Where the logs of the custom service `id` come from: its logs command
/// when it has a non-blank one, otherwise its definition.
pub fn custom_service_logs(services: Vec<CustomService>, id: &str) -> (r: Result<LogsSource, String>)
    ensures
        match r {
            Ok(src) => match spec_custom_service(services@, id@) {
                Some(s) => match s.logs {
                    Some(l) if !text::is_blank(l@) => src matches LogsSource::Run(c) && runs(
                        c,
                        l@,
                        s.cwd,
                    ),
                    _ => src == LogsSource::Definition(s),
                },
                None => false,
            },
            Err(e) => spec_custom_service(services@, id@).is_none() && e@ == not_found_message(id@),
        },
{
    let service = custom_service(services, id)?;
    if let Some(logs) = &service.logs {
        let t = text::trim_str(logs.as_str());
        if !t.as_str().is_empty() {
            return Ok(LogsSource::Run(shell_command(logs.as_str(), &service.cwd)));
        }
    }
    Ok(LogsSource::Definition(service))
}

/// Where the config of the custom service `id` comes from: its config file
/// when it names one, otherwise its definition.
pub fn read_custom_service_config(services: Vec<CustomService>, id: &str) -> (r: Result<
    ConfigSource,
    String,
>)
    ensures
        match r {
            Ok(src) => match spec_custom_service(services@, id@) {
                Some(s) => match s.config {
                    Some(p) => src matches ConfigSource::File(f) && f@ == p@,
                    None => src == ConfigSource::Definition(s),
                },
                None => false,
            },
            Err(e) => spec_custom_service(services@, id@).is_none() && e@ == not_found_message(id@),
        },
{
    let service = custom_service(services, id)?;
    match service.config {
        Some(path) => Ok(ConfigSource::File(path)),
        None => Ok(ConfigSource::Definition(service)),
    }
}

/// The message for a custom service without a config path.
pub open spec fn no_config_message() -> Seq<char> {
    "No config path was configured for this custom service."@
}

/// The config file to which the config of the custom service `id` is saved.
pub fn save_custom_service_config(services: Vec<CustomService>, id: &str) -> (r: Result<
    String,
    String,
>)
    ensures
        match r {
            Ok(path) => match spec_custom_service(services@, id@) {
                Some(s) => s.config.is_some() && path@ == s.config.unwrap()@,
                None => false,
            },
            Err(e) => match spec_custom_service(services@, id@) {
                Some(s) => s.config.is_none() && e@ == no_config_message(),
                None => e@ == not_found_message(id@),
            },
        },
{
    let service = custom_service(services, id)?;
    match service.config {
        Some(path) => Ok(path),
        None => Err(text::text_of("No config path was configured for this custom service.")),
    }
}

/// The config path of the custom service `id`, if there is such a service
/// and it names one.
pub fn custom_service_config_path(services: Vec<CustomService>, id: &str) -> (r: Option<String>)
    ensures
        opt_text(r) == match spec_custom_service(services@, id@) {
            Some(s) => opt_text(s.config),
            None => None,
        },
{
    match custom_service(services, id) {
        Ok(service) => service.config,
        Err(_) => None,
    }
}

/// The path of the custom service `id`: its `path`, else its `cwd`.
pub fn custom_service_path(services: Vec<CustomService>, id: &str) -> (r: Option<String>)
    ensures
        opt_text(r) == match spec_custom_service(services@, id@) {
            Some(s) => if s.path.is_some() {
                opt_text(s.path)
            } else {
                opt_text(s.cwd)
            },
            None => None,
        },
{
    match custom_service(services, id) {
        Ok(service) => match service.path {
            Some(p) => Some(p),
            None => service.cwd,
        },
        Err(_) => None,
    }
}

/// The config shown for a custom service without a config file: its
/// definition `content`, read-only, located at the directory `dir` of the
/// definition files.
pub fn definition_config(dir: String, content: String) -> (c: ServiceConfig)
    ensures
        c.path@ == dir@,
        c.content@ == content@,
        c.readonly,
        c.message@ == no_config_message(),
{
    ServiceConfig {
        path: dir,
        content,
        readonly: true,
        message: text::text_of("No config path was configured for this custom service."),
    }
}

/// The config shown for a config file that was read: editable.
pub fn loaded_config(path: String, content: String) -> (c: ServiceConfig)
    ensures
        c.path@ == path@,
        c.content@ == content@,
        !c.readonly,
        c.message@ == "Config file loaded."@,
{
    ServiceConfig { path, content, readonly: false, message: text::text_of("Config file loaded.") }
}

/// `PathBuf::join` of a relative part: `part` alone after an empty base,
/// otherwise `base` and `part` with one `/` between them.
pub open spec fn path_join(base: Seq<char>, part: Seq<char>) -> Seq<char> {
    if base.len() == 0 {
        part
    } else if base.last() == '/' {
        base + part
    } else {
        base + seq!['/'] + part
    }
}

/// The directory that holds one definition file per custom service.
pub open spec fn spec_custom_services_config_dir(home: Seq<char>) -> Seq<char> {
    path_join(path_join(home, "servicepilot"@), "customservices"@)
}

fn join_path(base: &str, part: &str) -> (r: String)
    ensures
        r@ == path_join(base@, part@),
{
    let b = text::chars_of(base);
    if b.len() == 0 {
        text::text_of(part)
    } else if b[b.len() - 1] == '/' {
        text::concat_str(base, part)
    } else {
        let with_sep = text::concat_str(base, "/");
        proof {
            reveal_strlit("/");
        }
        assert(with_sep@ =~= base@ + seq!['/']);
        text::concat_str(with_sep.as_str(), part)
    }
}

/// `$HOME/servicepilot/customservices` for the home directory `home`.
pub fn custom_services_config_dir(home: &str) -> (r: String)
    ensures
        r@ == spec_custom_services_config_dir(home@),
{
    let first = join_path(home, "servicepilot");
    join_path(first.as_str(), "customservices")
}

/// The file in which earlier versions kept all custom services.
pub open spec fn spec_legacy_custom_services_config_path(home: Seq<char>) -> Seq<char> {
    path_join(
        path_join(
            path_join(path_join(home, "Library"@), "Application Support"@),
            "Service Pilot"@,
        ),
        "custom-services.json"@,
    )
}

/// `$HOME/Library/Application Support/Service Pilot/custom-services.json`
/// for the home directory `home`.
pub fn legacy_custom_services_config_path(home: &str) -> (r: String)
    ensures
        r@ == spec_legacy_custom_services_config_path(home@),
{
    let a = join_path(home, "Library");
    let b = join_path(a.as_str(), "Application Support");
    let c = join_path(b.as_str(), "Service Pilot");
    join_path(c.as_str(), "custom-services.json")
}

/// The extension of a file name: the part after its last `.`, unless
/// nothing stands before that `.`.
pub open spec fn spec_extension(file_name: Seq<char>) -> Option<Seq<char>> {
    match text::last_occurrence(file_name, seq!['.']) {
        Some(i) => if i == 0 {
            None
        } else {
            Some(file_name.skip(i + 1))
        },
        None => None,
    }
}

/// Whether a directory entry named `file_name` holds a custom service
/// definition: its extension is `json`.
pub fn has_json_extension(file_name: &str) -> (r: bool)
    ensures
        r == (spec_extension(file_name@) == Some("json"@)),
{
    let chars = text::chars_of(file_name);
    let n = chars.len();
    match text::find_last_char(chars.as_slice(), '.') {
        Some(i) => {
            if i == 0 {
                return false;
            }
            let ext = text::slice_chars(chars.as_slice(), i + 1, n);
            assert(ext@ =~= file_name@.skip(i + 1));
            let e = text::string_of(ext.as_slice());
            text::same_text(e.as_str(), "json")
        },
        None => false,
    }
}

/// The name of the definition file of the custom service `id`:
/// `<safe id>.json`.
pub open spec fn definition_file_name(id: Seq<char>) -> Seq<char> {
    naming::spec_safe_file_name(id) + ".json"@
}

/// The definition file of the custom service `id`, in the directory of
/// definition files.
pub open spec fn spec_custom_service_file_path(home: Seq<char>, id: Seq<char>) -> Seq<char> {
    path_join(spec_custom_services_config_dir(home), definition_file_name(id))
}

/// The definition file of the custom service `id` under the home directory `home`.
pub fn custom_service_file_path(home: &str, id: &str) -> (r: String)
    ensures
        r@ == spec_custom_service_file_path(home@, id@),
{
    let dir = custom_services_config_dir(home);
    let name = naming::safe_file_name(id);
    let file = text::concat_str(name.as_str(), ".json");
    join_path(dir.as_str(), file.as_str())
}


/// The ports listed by a custom service: its `ports`, then its `port` unless
/// already listed.
pub open spec fn spec_custom_ports(s: CustomService) -> Seq<u16> {
    let listed = match s.ports {
        Some(p) => p@,
        None => Seq::<u16>::empty(),
    };
    match s.port {
        Some(p) => ports::push_unique(listed, p),
        None => listed,
    }
}

/// Whether `d` is the definition shown for the custom service `s`, whose
/// status command succeeded or not as `succeeded` says.
pub open spec fn is_custom_definition(d: ServiceDefinition, s: CustomService, succeeded: bool) -> bool {
    &&& d.key@ == "custom:"@ + naming::spec_custom_service_id(s)
    &&& d.provider@ == "custom"@
    &&& d.name@ == s.name@
    &&& d.status@ == spec_custom_service_status(s, succeeded)
    &&& d.ports@ == spec_custom_ports(s)
    &&& d.port_mappings@.len() == 0
    &&& opt_text(d.path) == (if s.path.is_some() {
        opt_text(s.path)
    } else {
        opt_text(s.cwd)
    })
    &&& opt_text(d.image) == Some(s.start@)
    &&& d.version.is_none()
    &&& d.latest_version.is_none()
    &&& d.user.is_none()
    &&& opt_text(d.config_path) == opt_text(s.config)
}

fn copy_ports(ports: &Option<Vec<u16>>) -> (r: Vec<u16>)
    ensures
        r@ == match ports {
            Some(p) => p@,
            None => Seq::<u16>::empty(),
        },
{
    let mut r: Vec<u16> = Vec::new();
    if let Some(p) = ports {
        let mut i: usize = 0;
        while i < p.len()
            invariant
                i <= p@.len(),
                r@ == p@.take(i as int),
            decreases p.len() - i,
        {
            r.push(p[i]);
            i = i + 1;
            assert(r@ =~= p@.take(i as int));
        }
        assert(p@.take(p@.len() as int) =~= p@);
    }
    r
}

/// The definition shown for a custom service, given whether its status
/// command succeeded.
pub fn custom_definition(service: CustomService, succeeded: bool) -> (d: ServiceDefinition)
    ensures
        is_custom_definition(d, service, succeeded),
{
    let id = naming::custom_service_id(&service);
    let status = custom_service_status(&service, succeeded);
    let mut listed = copy_ports(&service.ports);
    if let Some(port) = service.port {
        ports::push_unique_port(&mut listed, port);
    }
    let ghost s = service;
    let path = match service.path {
        Some(p) => Some(p),
        None => service.cwd,
    };
    ServiceDefinition {
        key: text::concat_str("custom:", id.as_str()),
        provider: text::text_of("custom"),
        name: service.name,
        status,
        ports: listed,
        port_mappings: Vec::new(),
        path,
        image: Some(service.start),
        version: None,
        latest_version: None,
        user: None,
        config_path: service.config,
    }
}

/// The definitions of custom services, each paired with whether its status
/// command succeeded, in the same order.
pub fn discover_custom_services(services: Vec<(CustomService, bool)>) -> (r: Vec<ServiceDefinition>)
    ensures
        r@.len() == services@.len(),
        forall|i: int|
            0 <= i < r@.len() ==> is_custom_definition(
                #[trigger] r@[i],
                services@[i].0,
                services@[i].1,
            ),
{
    let mut rest = services;
    let ghost all = rest@;
    let mut out: Vec<ServiceDefinition> = Vec::new();
    while rest.len() > 0
        invariant
            all == services@,
            out@.len() + rest@.len() == all.len(),
            rest@ == all.skip(out@.len() as int),
            forall|i: int|
                0 <= i < out@.len() ==> is_custom_definition(#[trigger] out@[i], all[i].0, all[i].1),
        decreases rest.len(),
    {
        let ghost before = rest@;
        let (service, succeeded) = rest.remove(0);
        assert(before[0] == all[out@.len() as int]);
        assert(rest@ =~= all.skip(out@.len() + 1 as int));
        out.push(custom_definition(service, succeeded));
    }
    out
}

/// The message for a custom service without a name.
pub open spec fn name_required_message() -> Seq<char> {
    "Custom service name is required."@
}

/// The message for a custom service without a start command.
pub open spec fn start_required_message() -> Seq<char> {
    "Custom service start command is required."@
}

/// The message for a custom service without a stop command.
pub open spec fn stop_required_message() -> Seq<char> {
    "Custom service stop command is required."@
}

/// Why a custom service input is refused: a blank name, else a blank start
/// command, else a blank stop command.
pub open spec fn spec_input_error(input: CustomServiceInput) -> Option<Seq<char>> {
    if text::is_blank(input.name@) {
        Some(name_required_message())
    } else if text::is_blank(input.start@) {
        Some(start_required_message())
    } else if text::is_blank(input.stop@) {
        Some(stop_required_message())
    } else {
        None
    }
}

/// Whether `s` is the record written for the input `input`: its id when
/// not blank, its name and its start and stop commands trimmed, its port, no
/// port list, and its optional texts trimmed and dropped when blank.
pub open spec fn is_new_custom_service(s: CustomService, input: CustomServiceInput) -> bool {
    &&& opt_text(s.id) == match input.id {
        Some(id) => if text::is_blank(id@) {
            None
        } else {
            Some(id@)
        },
        None => None,
    }
    &&& s.name@ == text::trim(input.name@)
    &&& s.port == input.port
    &&& s.ports.is_none()
    &&& opt_text(s.cwd) == naming::spec_clean_optional_string(opt_text(input.cwd))
    &&& opt_text(s.path) == naming::spec_clean_optional_string(opt_text(input.path))
    &&& s.start@ == text::trim(input.start@)
    &&& s.stop@ == text::trim(input.stop@)
    &&& opt_text(s.restart) == naming::spec_clean_optional_string(opt_text(input.restart))
    &&& opt_text(s.status) == naming::spec_clean_optional_string(opt_text(input.status))
    &&& opt_text(s.logs) == naming::spec_clean_optional_string(opt_text(input.logs))
    &&& opt_text(s.config) == naming::spec_clean_optional_string(opt_text(input.config))
}

/// The record written for a new custom service, or why the input is
/// refused: a blank name, then a blank start command, then a blank stop
/// command.
pub fn add_custom_service(service: CustomServiceInput) -> (r: Result<CustomService, String>)
    ensures
        match r {
            Ok(s) => spec_input_error(service).is_none() && is_new_custom_service(s, service),
            Err(e) => spec_input_error(service) == Some(e@),
        },
{
    let name = text::trim_str(service.name.as_str());
    if name.as_str().is_empty() {
        return Err(text::text_of("Custom service name is required."));
    }
    let start = text::trim_str(service.start.as_str());
    if start.as_str().is_empty() {
        return Err(text::text_of("Custom service start command is required."));
    }
    let stop = text::trim_str(service.stop.as_str());
    if stop.as_str().is_empty() {
        return Err(text::text_of("Custom service stop command is required."));
    }
    let ghost input = service;
    let id = match service.id {
        Some(v) => {
            let t = text::trim_str(v.as_str());
            if t.as_str().is_empty() {
                None
            } else {
                Some(v)
            }
        },
        None => None,
    };
    Ok(
        CustomService {
            id,
            name,
            port: service.port,
            ports: None,
            cwd: naming::clean_optional_string(service.cwd),
            path: naming::clean_optional_string(service.path),
            start,
            stop,
            restart: naming::clean_optional_string(service.restart),
            status: naming::clean_optional_string(service.status),
            logs: naming::clean_optional_string(service.logs),
            config: naming::clean_optional_string(service.config),
        },
    )
}


/// The message for a custom service whose definition file already exists.
pub open spec fn already_exists_message(id: Seq<char>) -> Seq<char> {
    "Custom service already exists: "@ + id
}

/// Whether a new custom service with the id `id` may be written, given
/// whether its definition file already exists: an existing one is never
/// overwritten.
pub fn check_new_custom_service(id: &str, file_exists: bool) -> (r: Result<(), String>)
    ensures
        r is Err <==> file_exists,
        r matches Err(e) ==> e@ == already_exists_message(id@),
{
    if file_exists {
        Err(text::concat_str("Custom service already exists: ", id))
    } else {
        Ok(())
    }
}

/// What a custom command that ran gives: its output when it succeeded,
/// otherwise its error output trimmed, or a message naming the command when
/// that is blank.
pub open spec fn spec_shell_output(
    command: Seq<char>,
    succeeded: bool,
    stdout: Seq<char>,
    stderr: Seq<char>,
) -> Result<Seq<char>, Seq<char>> {
    if succeeded {
        Ok(stdout)
    } else if text::trim(stderr).len() == 0 {
        Err("Custom command failed: "@ + command)
    } else {
        Err(text::trim(stderr))
    }
}

/// The result of the custom command `command`, given whether it succeeded
/// and what it wrote.
pub fn shell_output(command: &str, succeeded: bool, stdout: String, stderr: String) -> (r: Result<
    String,
    String,
>)
    ensures
        crate::brew::result_text(r) == spec_shell_output(command@, succeeded, stdout@, stderr@),
{
    if succeeded {
        return Ok(stdout);
    }
    let t = text::trim_str(stderr.as_str());
    if t.as_str().is_empty() {
        Err(text::concat_str("Custom command failed: ", command))
    } else {
        Err(t)
    }
}


/// The service found for an id has that id.
pub proof fn lemma_custom_service_has_id(services: Seq<CustomService>, id: Seq<char>)
    ensures
        spec_custom_service(services, id) matches Some(s) ==> naming::spec_custom_service_id(s)
            == id,
        spec_custom_service(services, id).is_none() ==> forall|i: int|
            0 <= i < services.len() ==> naming::spec_custom_service_id(#[trigger] services[i])
                != id,
    decreases services.len(),
{
    if services.len() > 0 {
        lemma_custom_service_has_id(services.drop_first(), id);
        if spec_custom_service(services, id).is_none() {
            assert forall|i: int| 0 <= i < services.len() implies naming::spec_custom_service_id(
                #[trigger] services[i],
            ) != id by {
                if i > 0 {
                    assert(services[i] == services.drop_first()[i - 1]);
                }
            }
        }
    }
}

/// A service is found by its id when no service before it has that id:
/// a record written under its id is what a lookup of that id gives back.
pub proof fn lemma_custom_service_finds_first(services: Seq<CustomService>, i: int)
    requires
        0 <= i < services.len(),
        forall|j: int|
            0 <= j < i ==> naming::spec_custom_service_id(#[trigger] services[j])
                != naming::spec_custom_service_id(services[i]),
    ensures
        spec_custom_service(services, naming::spec_custom_service_id(services[i])) == Some(
            services[i],
        ),
    decreases i,
{
    if i > 0 {
        let rest = services.drop_first();
        assert(naming::spec_custom_service_id(services[0]) != naming::spec_custom_service_id(
            services[i],
        ));
        assert(rest[i - 1] == services[i]);
        assert forall|j: int| 0 <= j < i - 1 implies naming::spec_custom_service_id(
            #[trigger] rest[j],
        ) != naming::spec_custom_service_id(rest[i - 1]) by {
            assert(rest[j] == services[j + 1]);
        }
        lemma_custom_service_finds_first(rest, i - 1);
    }
}

/// The definition file of a custom service with a non-empty id lies directly
/// in the directory of definition files, and reading that directory picks it
/// up as a definition file.
pub proof fn lemma_definition_file_is_read_back(home: Seq<char>, id: Seq<char>)
    requires
        id.len() > 0,
    ensures
        spec_custom_service_file_path(home, id) == spec_custom_services_config_dir(home) + seq![
            '/',
        ] + definition_file_name(id),
        !definition_file_name(id).contains('/'),
        spec_extension(definition_file_name(id)) == Some("json"@),
{
    reveal_strlit("servicepilot");
    reveal_strlit("customservices");
    reveal_strlit(".json");
    reveal_strlit("json");
    let dir = spec_custom_services_config_dir(home);
    let base = path_join(home, "servicepilot"@);
    assert(dir == path_join(base, "customservices"@));
    assert(dir.len() > 0 && dir.last() == 's') by {
        if base.len() == 0 {
            assert(dir == "customservices"@);
        } else if base.last() == '/' {
            assert(dir == base + "customservices"@);
        } else {
            assert(dir == base + seq!['/'] + "customservices"@);
        }
    }
    let safe = naming::spec_safe_file_name(id);
    let name = definition_file_name(id);
    naming::lemma_safe_file_name(id);
    assert(name.len() == safe.len() + 5);
    assert forall|k: int| 0 <= k < name.len() implies name[k] != '/' by {
        if k < safe.len() {
            assert(name[k] == safe[k]);
            assert(naming::is_file_name_char(safe[k]));
        } else {
            assert(name[k] == ".json"@[k - safe.len()]);
        }
    }
    let n = safe.len() as int;
    assert(text::occurs_at(name, seq!['.'], n)) by {
        assert(name.subrange(n, n + 1) =~= seq!['.']);
    }
    assert forall|k: int| n < k implies !text::occurs_at(name, seq!['.'], k) by {
        if text::occurs_at(name, seq!['.'], k) {
            assert(name.subrange(k, k + 1)[0] == name[k]);
            assert(name[k] == ".json"@[k - n]);
        }
    }
    text::lemma_last_occurrence_unique(name, seq!['.'], n);
    assert(name.skip(n + 1) =~= "json"@);
}

/// A record written for an accepted input, read back among services none of
/// which before it has its id, is what a lookup of its id gives: a record
/// with the input's fields, trimmed and cleaned.
pub proof fn lemma_added_service_is_found(
    input: CustomServiceInput,
    s: CustomService,
    services: Seq<CustomService>,
    i: int,
)
    requires
        spec_input_error(input).is_none(),
        is_new_custom_service(s, input),
        0 <= i < services.len(),
        services[i] == s,
        forall|j: int|
            0 <= j < i ==> naming::spec_custom_service_id(#[trigger] services[j])
                != naming::spec_custom_service_id(s),
    ensures
        spec_custom_service(services, naming::spec_custom_service_id(s)) matches Some(found)
            && found == s && is_new_custom_service(found, input),
{
    lemma_custom_service_finds_first(services, i);
}

/// Restarting a custom service whose restart command is absent or blank runs
/// its stop command and then its start command; a single command is run only
/// when it is the service's non-blank restart command.
pub proof fn lemma_restart_stops_then_starts(p: RestartPlan, s: CustomService)
    requires
        restarts(p, s),
    ensures
        (s.restart is None || text::trim(s.restart->0@).len() == 0) ==> (
        p matches RestartPlan::StopThenStart { stop, start } && stop.text@ == s.stop@
            && start.text@ == s.start@ && runs_in_service_dir(stop, s) && runs_in_service_dir(
            start,
            s,
        )),
        p matches RestartPlan::Run(c) ==> (s.restart matches Some(r) && text::trim(r@).len() > 0
            && c.text@ == r@ && runs_in_service_dir(c, s)),
{
}

/// Whether `c` runs in the working directory of `s`: its `cwd` when that is
/// given and not blank, otherwise wherever the application runs.
pub open spec fn runs_in_service_dir(c: ShellCommand, s: CustomService) -> bool {
    match s.cwd {
        Some(d) => if text::trim(d@).len() > 0 {
            c.cwd matches Some(e) && e@ == d@
        } else {
            c.cwd is None
        },
        None => c.cwd is None,
    }
}

/// Whether the optional text `out` is `input` trimmed, and absent when
/// `input` is absent or blank.
pub open spec fn is_cleaned_from(out: Option<Seq<char>>, input: Option<Seq<char>>) -> bool {
    match out {
        Some(x) => input matches Some(y) && x == text::trim(y) && x.len() > 0,
        None => input is None || text::trim(input->0).len() == 0,
    }
}

/// The record written for an accepted input holds its name and its start and
/// stop commands trimmed and non-blank, its port, and each optional text
/// (working directory, path, restart, status, logs and config commands)
/// trimmed, or absent when the input left it blank: a stored command is never
/// blank.
pub proof fn lemma_new_record_fields(s: CustomService, input: CustomServiceInput)
    requires
        spec_input_error(input).is_none(),
        is_new_custom_service(s, input),
    ensures
        s.name@ == text::trim(input.name@) && s.name@.len() > 0,
        s.start@ == text::trim(input.start@) && s.start@.len() > 0,
        s.stop@ == text::trim(input.stop@) && s.stop@.len() > 0,
        s.port == input.port,
        s.ports is None,
        s.id matches Some(i) ==> (input.id matches Some(j) && i@ == j@ && text::trim(j@).len()
            > 0),
        s.id is None ==> (input.id is None || text::trim(input.id->0@).len() == 0),
        is_cleaned_from(opt_text(s.cwd), opt_text(input.cwd)),
        is_cleaned_from(opt_text(s.path), opt_text(input.path)),
        is_cleaned_from(opt_text(s.restart), opt_text(input.restart)),
        is_cleaned_from(opt_text(s.status), opt_text(input.status)),
        is_cleaned_from(opt_text(s.logs), opt_text(input.logs)),
        is_cleaned_from(opt_text(s.config), opt_text(input.config)),
        s.status matches Some(c) ==> text::trim(c@).len() > 0,
{
    text::lemma_trim_idempotent(input.status->0@);
}

/// The ports shown for a custom service are its listed ports, in order,
/// followed by its own port unless that is already listed: its own port is
/// always shown, and nothing else is.
pub proof fn lemma_custom_ports_shown(d: ServiceDefinition, s: CustomService, succeeded: bool)
    requires
        is_custom_definition(d, s, succeeded),
    ensures
        s.ports matches Some(ps) ==> d.ports@.len() >= ps@.len() && d.ports@.take(ps@.len() as int)
            == ps@,
        s.port matches Some(p) ==> d.ports@.contains(p),
        s.ports is None ==> d.ports@ == match s.port {
            Some(p) => seq![p],
            None => Seq::<u16>::empty(),
        },
        forall|i: int|
            0 <= i < d.ports@.len() ==> (s.ports matches Some(ps) && ps@.contains(
                #[trigger] d.ports@[i],
            )) || s.port == Some(d.ports@[i]),
        d.ports@.len() <= (match s.ports {
            Some(ps) => ps@.len(),
            None => 0,
        }) + (if s.port is Some {
            1int
        } else {
            0
        }),
{
    let listed = match s.ports {
        Some(p) => p@,
        None => Seq::<u16>::empty(),
    };
    assert(listed.take(listed.len() as int) =~= listed);
    if let Some(p) = s.port {
        ports::lemma_push_unique(listed, p);
        if !listed.contains(p) {
            assert(listed.push(p).take(listed.len() as int) =~= listed);
            assert(listed.push(p)[listed.len() as int] == p);
        }
        assert forall|i: int| 0 <= i < d.ports@.len() implies (s.ports matches Some(ps)
            && ps@.contains(#[trigger] d.ports@[i])) || s.port == Some(d.ports@[i]) by {
            if i < listed.len() {
                assert(d.ports@[i] == listed[i]);
            }
        }
    } else {
        assert forall|i: int| 0 <= i < d.ports@.len() implies (s.ports matches Some(ps)
            && ps@.contains(#[trigger] d.ports@[i])) || s.port == Some(d.ports@[i]) by {
            assert(d.ports@[i] == listed[i]);
        }
    }
    if s.ports is None {
        if let Some(p) = s.port {
            assert(d.ports@ =~= seq![p]);
        }
    }
}

/// The input that enters the fields of an existing record again.
pub open spec fn input_of(s: CustomService) -> CustomServiceInput {
    CustomServiceInput {
        id: s.id,
        name: s.name,
        port: s.port,
        cwd: s.cwd,
        path: s.path,
        start: s.start,
        stop: s.stop,
        restart: s.restart,
        status: s.status,
        logs: s.logs,
        config: s.config,
    }
}

/// Entering again the fields of a record written for an accepted input is
/// accepted, and writes a record with the same fields.
pub proof fn lemma_add_custom_service_idempotent(s: CustomService, input: CustomServiceInput)
    requires
        spec_input_error(input).is_none(),
        is_new_custom_service(s, input),
    ensures
        spec_input_error(input_of(s)).is_none(),
        is_new_custom_service(s, input_of(s)),
{
    text::lemma_trim_idempotent(input.name@);
    text::lemma_trim_idempotent(input.start@);
    text::lemma_trim_idempotent(input.stop@);
    naming::lemma_clean_optional_string_idempotent(opt_text(input.cwd));
    naming::lemma_clean_optional_string_idempotent(opt_text(input.path));
    naming::lemma_clean_optional_string_idempotent(opt_text(input.restart));
    naming::lemma_clean_optional_string_idempotent(opt_text(input.status));
    naming::lemma_clean_optional_string_idempotent(opt_text(input.logs));
    naming::lemma_clean_optional_string_idempotent(opt_text(input.config));
}

} // verus!
