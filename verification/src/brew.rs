//! Homebrew services: their definitions, known ports and config files, and
//! the details read from `brew`.

use vstd::prelude::*;
use crate::model::{opt_text, BrewInfo, BrewService, ServiceDefinition};
use crate::naming;
use crate::text;

verus! {

/// The port a well-known Homebrew service listens on by default.
pub open spec fn spec_known_brew_port(service: Seq<char>) -> Option<u16> {
    if service == "grafana"@ {
        Some(3000)
    } else if service == "jupyterlab"@ {
        Some(8888)
    } else if service == "mysql@5.7"@ {
        Some(3306)
    } else if service == "nginx"@ {
        Some(8080)
    } else if service == "prometheus"@ {
        Some(9090)
    } else if service == "redis"@ {
        Some(6379)
    } else {
        None
    }
}

/// The default port of a well-known Homebrew service.
pub fn known_brew_port(service: &str) -> (r: Option<u16>)
    ensures
        r == spec_known_brew_port(service@),
{
    if text::same_text(service, "grafana") {
        Some(3000)
    } else if text::same_text(service, "jupyterlab") {
        Some(8888)
    } else if text::same_text(service, "mysql@5.7") {
        Some(3306)
    } else if text::same_text(service, "nginx") {
        Some(8080)
    } else if text::same_text(service, "prometheus") {
        Some(9090)
    } else if text::same_text(service, "redis") {
        Some(6379)
    } else {
        None
    }
}

/// Where under the Homebrew prefix the config file of a well-known service
/// lives.
pub open spec fn spec_brew_config_file(service: Seq<char>) -> Option<Seq<char>> {
    if service == "grafana"@ {
        Some("/etc/grafana/grafana.ini"@)
    } else if service == "nginx"@ {
        Some("/etc/nginx/nginx.conf"@)
    } else if service == "prometheus"@ {
        Some("/etc/prometheus.yml"@)
    } else if service == "redis"@ {
        Some("/etc/redis.conf"@)
    } else if service == "mysql@5.7"@ {
        Some("/etc/my.cnf"@)
    } else {
        None
    }
}

/// The editable config file of a well-known Homebrew service: its known
/// location under the prefix `homebrew_prefix`.
pub open spec fn spec_brew_config_path(homebrew_prefix: Seq<char>, service: Seq<char>) -> Option<
    Seq<char>,
> {
    match spec_brew_config_file(service) {
        Some(f) => Some(homebrew_prefix + f),
        None => None,
    }
}

/// The config file of a well-known Homebrew service under the prefix
/// `homebrew_prefix`. It is editable where it exists on disk, which the
/// caller checks.
pub fn brew_config_path(homebrew_prefix: &str, service: &str) -> (r: Option<String>)
    ensures
        opt_text(r) == spec_brew_config_path(homebrew_prefix@, service@),
{
    let file = if text::same_text(service, "grafana") {
        "/etc/grafana/grafana.ini"
    } else if text::same_text(service, "nginx") {
        "/etc/nginx/nginx.conf"
    } else if text::same_text(service, "prometheus") {
        "/etc/prometheus.yml"
    } else if text::same_text(service, "redis") {
        "/etc/redis.conf"
    } else if text::same_text(service, "mysql@5.7") {
        "/etc/my.cnf"
    } else {
        return None;
    };
    Some(text::concat_str(homebrew_prefix, file))
}

/// The Homebrew prefix: the `HOMEBREW_PREFIX` setting, or `/opt/homebrew`.
pub fn homebrew_prefix(setting: Option<String>) -> (r: String)
    ensures
        r@ == match setting {
            Some(s) => s@,
            None => "/opt/homebrew"@,
        },
{
    match setting {
        Some(s) => s,
        None => text::text_of("/opt/homebrew"),
    }
}

/// The install path of a formula from the output of `brew --prefix <name>`:
/// the output trimmed, when the command succeeded and printed something.
pub open spec fn spec_brew_install_path(output: Result<Seq<char>, Seq<char>>) -> Option<Seq<char>> {
    match output {
        Ok(o) => if text::trim(o).len() == 0 {
            None
        } else {
            Some(text::trim(o))
        },
        Err(_) => None,
    }
}

/// The view of a command result.
pub open spec fn result_text(r: Result<String, String>) -> Result<Seq<char>, Seq<char>> {
    match r {
        Ok(o) => Ok(o@),
        Err(e) => Err(e@),
    }
}

/// The install path of a formula, given what `brew --prefix <name>` gave.
pub fn brew_install_path(output: Result<String, String>) -> (r: Option<String>)
    ensures
        opt_text(r) == spec_brew_install_path(result_text(output)),
{
    match output {
        Ok(o) => {
            let t = text::trim_str(o.as_str());
            if t.as_str().is_empty() {
                None
            } else {
                Some(t)
            }
        },
        Err(_) => None,
    }
}

/// The installed and the latest version of a formula in `brew info --json=v2`:
/// the first installed version (else the stable one), and the stable version
/// (else the installed one); none without a formula or any version.
pub open spec fn spec_brew_versions(info: BrewInfo) -> Option<(Seq<char>, Seq<char>)> {
    if info.formulae@.len() == 0 {
        None
    } else {
        let f = info.formulae@[0];
        let version = if f.installed@.len() > 0 {
            Some(f.installed@[0].version@)
        } else {
            opt_text(f.versions.stable)
        };
        match version {
            Some(v) => Some(
                (
                    v,
                    match f.versions.stable {
                        Some(s) => s@,
                        None => v,
                    },
                ),
            ),
            None => None,
        }
    }
}

/// The installed and latest version of a formula.
pub fn brew_versions(info: &BrewInfo) -> (r: Option<(String, String)>)
    ensures
        match r {
            Some((v, l)) => spec_brew_versions(*info) == Some((v@, l@)),
            None => spec_brew_versions(*info).is_none(),
        },
{
    if info.formulae.len() == 0 {
        return None;
    }
    let f = &info.formulae[0];
    let version = if f.installed.len() > 0 {
        text::text_of(f.installed[0].version.as_str())
    } else {
        match &f.versions.stable {
            Some(s) => text::text_of(s.as_str()),
            None => return None,
        }
    };
    let latest = match &f.versions.stable {
        Some(s) => text::text_of(s.as_str()),
        None => text::text_of(version.as_str()),
    };
    Some((version, latest))
}

/// The installed and the latest version differ only when the formula has a
/// stable version: that version is then the latest, and the installed one is
/// the first installed version.
pub proof fn lemma_versions_differ_only_with_stable(info: BrewInfo)
    requires
        spec_brew_versions(info) matches Some((v, l)) && v != l,
    ensures
        info.formulae@.len() > 0,
        info.formulae@[0].versions.stable is Some,
        spec_brew_versions(info) matches Some((v, l)) && l == info.formulae@[0].versions.stable->0@
            && info.formulae@[0].installed@.len() > 0 && v == info.formulae@[0].installed@[0].version@,
{
}

/// Whether `d` is the definition shown for the Homebrew service `s`.
pub open spec fn is_brew_definition(d: ServiceDefinition, s: BrewService) -> bool {
    &&& d.key@ == "brew:"@ + s.name@
    &&& d.provider@ == "brew"@
    &&& d.name@ == naming::spec_title_case(s.name@)
    &&& d.status@ == s.status@
    &&& d.ports@ == match spec_known_brew_port(s.name@) {
        Some(p) => seq![p],
        None => Seq::<u16>::empty(),
    }
    &&& d.port_mappings@.len() == 0
    &&& d.path.is_none()
    &&& d.image.is_none()
    &&& d.version.is_none()
    &&& d.latest_version.is_none()
    &&& opt_text(d.user) == opt_text(s.user)
    &&& opt_text(d.config_path) == opt_text(s.file)
}

/// The definition shown for a Homebrew service.
pub fn brew_definition(service: BrewService) -> (d: ServiceDefinition)
    ensures
        is_brew_definition(d, service),
{
    let mut ports: Vec<u16> = Vec::new();
    if let Some(p) = known_brew_port(service.name.as_str()) {
        ports.push(p);
    }
    assert(ports@ =~= match spec_known_brew_port(service.name@) {
        Some(p) => seq![p],
        None => Seq::<u16>::empty(),
    });
    ServiceDefinition {
        key: text::concat_str("brew:", service.name.as_str()),
        provider: text::text_of("brew"),
        name: naming::title_case(service.name.as_str()),
        status: service.status,
        ports,
        port_mappings: Vec::new(),
        path: None,
        image: None,
        version: None,
        latest_version: None,
        user: service.user,
        config_path: service.file,
    }
}

/// The definitions of the rows of `brew services list --json`, in order.
pub fn brew_service_definitions(services: Vec<BrewService>) -> (r: Vec<ServiceDefinition>)
    ensures
        r@.len() == services@.len(),
        forall|i: int| 0 <= i < r@.len() ==> is_brew_definition(#[trigger] r@[i], services@[i]),
{
    let mut rest = services;
    let ghost all = rest@;
    let mut out: Vec<ServiceDefinition> = Vec::new();
    while rest.len() > 0
        invariant
            all == services@,
            out@.len() + rest@.len() == all.len(),
            rest@ == all.skip(out@.len() as int),
            forall|i: int| 0 <= i < out@.len() ==> is_brew_definition(#[trigger] out@[i], all[i]),
        decreases rest.len(),
    {
        let ghost before = rest@;
        let service = rest.remove(0);
        assert(before[0] == all[out@.len() as int]);
        assert(rest@ =~= all.skip(out@.len() + 1 as int));
        out.push(brew_definition(service));
    }
    out
}

/// The first definition of `definitions` whose key is `key`.
pub open spec fn first_with_key(definitions: Seq<ServiceDefinition>, key: Seq<char>) -> Option<
    ServiceDefinition,
>
    decreases definitions.len(),
{
    if definitions.len() == 0 {
        None
    } else if definitions[0].key@ == key {
        Some(definitions[0])
    } else {
        first_with_key(definitions.drop_first(), key)
    }
}

/// The status of the Homebrew service `service` among the definitions read
/// from `brew services list --json`.
pub fn brew_status(service: &str, definitions: Vec<ServiceDefinition>) -> (r: Result<String, String>)
    ensures
        match first_with_key(definitions@, "brew:"@ + service@) {
            Some(d) => r matches Ok(s) && s@ == d.status@,
            None => r matches Err(e) && e@ == "Homebrew service not found: "@ + service@,
        },
{
    let key = text::concat_str("brew:", service);
    let mut list = definitions;
    let ghost all = list@;
    let mut i: usize = 0;
    assert(all.skip(0) =~= all);
    while i < list.len()
        invariant
            i <= list@.len(),
            list@ == all,
            all == definitions@,
            key@ == "brew:"@ + service@,
            first_with_key(all, key@) == first_with_key(all.skip(i as int), key@),
        decreases list.len() - i,
    {
        assert(all.skip(i as int)[0] == all[i as int]);
        if list[i].key == key {
            let d = list.swap_remove(i);
            return Ok(d.status);
        }
        assert(all.skip(i as int).drop_first() =~= all.skip(i + 1));
        i = i + 1;
    }
    assert(all.skip(list@.len() as int) =~= Seq::<ServiceDefinition>::empty());
    Err(text::concat_str("Homebrew service not found: ", service))
}

} // verus!
