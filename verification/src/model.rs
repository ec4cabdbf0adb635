//! The records that the library reads and produces.

use vstd::prelude::*;

verus! {

/// A service as discovered from one of the providers.
#[derive(Clone, Debug, PartialEq, Eq)]
pub struct ServiceDefinition {
    pub key: String,
    pub provider: String,
    pub name: String,
    pub status: String,
    pub ports: Vec<u16>,
    pub port_mappings: Vec<String>,
    pub path: Option<String>,
    pub image: Option<String>,
    pub version: Option<String>,
    pub latest_version: Option<String>,
    pub user: Option<String>,
    pub config_path: Option<String>,
}

/// A service as the user interface shows it.
#[derive(Clone, Debug, PartialEq, Eq)]
pub struct ServiceState {
    pub id: String,
    pub provider: String,
    pub name: String,
    pub status: String,
    pub port: u16,
    pub ports: Vec<u16>,
    pub port_mappings: Vec<String>,
    pub path: String,
    pub image: String,
    pub version: String,
    pub latest_version: String,
    pub user: String,
    pub config_path: String,
}

/// One row of `brew services list --json`.
#[derive(Clone, Debug, PartialEq, Eq)]
pub struct BrewService {
    pub name: String,
    pub status: String,
    pub user: Option<String>,
    pub file: Option<String>,
}

/// One line of `docker ps -a --format json`.
#[derive(Clone, Debug, PartialEq, Eq)]
pub struct DockerContainer {
    pub names: String,
    pub state: String,
    pub ports: String,
    pub image: String,
    pub labels: String,
    pub mounts: String,
}

/// A user-defined command service, as stored in its definition file.
#[derive(Clone, Debug, PartialEq, Eq)]
pub struct CustomService {
    pub id: Option<String>,
    pub name: String,
    pub port: Option<u16>,
    pub ports: Option<Vec<u16>>,
    pub cwd: Option<String>,
    pub path: Option<String>,
    pub start: String,
    pub stop: String,
    pub restart: Option<String>,
    pub status: Option<String>,
    pub logs: Option<String>,
    pub config: Option<String>,
}

/// A custom service as the user enters it.
#[derive(Clone, Debug, PartialEq, Eq)]
pub struct CustomServiceInput {
    pub id: Option<String>,
    pub name: String,
    pub port: Option<u16>,
    pub cwd: Option<String>,
    pub path: Option<String>,
    pub start: String,
    pub stop: String,
    pub restart: Option<String>,
    pub status: Option<String>,
    pub logs: Option<String>,
    pub config: Option<String>,
}

/// A config file and what the editor may do with it.
#[derive(Clone, Debug, PartialEq, Eq)]
pub struct ServiceConfig {
    pub path: String,
    pub content: String,
    pub readonly: bool,
    pub message: String,
}

/// Version and location details of a service.
#[derive(Clone, Debug, PartialEq, Eq)]
pub struct ServiceDetails {
    pub version: String,
    pub latest_version: String,
    pub config_path: String,
    pub path: String,
}

/// A service id split into provider and name.
#[derive(Clone, Debug, PartialEq, Eq)]
pub struct ServiceRef {
    pub provider: String,
    pub name: String,
}

/// The output of `brew info --json=v2`.
#[derive(Clone, Debug, PartialEq, Eq)]
pub struct BrewInfo {
    pub formulae: Vec<BrewFormula>,
}

/// One formula of `brew info --json=v2`.
#[derive(Clone, Debug, PartialEq, Eq)]
pub struct BrewFormula {
    pub installed: Vec<BrewInstalled>,
    pub versions: BrewVersions,
}

/// One installed version of a formula.
#[derive(Clone, Debug, PartialEq, Eq)]
pub struct BrewInstalled {
    pub version: String,
}

/// The published versions of a formula.
#[derive(Clone, Debug, PartialEq, Eq)]
pub struct BrewVersions {
    pub stable: Option<String>,
}

/// The characters of an optional string.
pub open spec fn opt_text(o: Option<String>) -> Option<Seq<char>> {
    match o {
        Some(s) => Some(s@),
        None => None,
    }
}

/// The characters of an optional string, or nothing.
pub open spec fn text_or_empty(o: Option<String>) -> Seq<char> {
    match o {
        Some(s) => s@,
        None => Seq::<char>::empty(),
    }
}

/// The port that the user interface shows: the first of `ports`, or 0.
pub open spec fn first_port(ports: Seq<u16>) -> u16 {
    if ports.len() > 0 {
        ports[0]
    } else {
        0
    }
}

fn string_or_empty(o: Option<String>) -> (r: String)
    ensures
        r@ == text_or_empty(o),
{
    match o {
        Some(s) => s,
        None => String::new(),
    }
}

/// Whether `st` is the state shown for the definition `d`: its fields,
/// absent ones as empty strings, and its first port (0 when it has none) as
/// the main port.
pub open spec fn is_state_of(st: ServiceState, d: ServiceDefinition) -> bool {
    &&& st.id@ == d.key@
    &&& st.provider@ == d.provider@
    &&& st.name@ == d.name@
    &&& st.status@ == d.status@
    &&& st.port == first_port(d.ports@)
    &&& st.ports@ == d.ports@
    &&& st.port_mappings@ == d.port_mappings@
    &&& st.path@ == text_or_empty(d.path)
    &&& st.image@ == text_or_empty(d.image)
    &&& st.version@ == text_or_empty(d.version)
    &&& st.latest_version@ == text_or_empty(d.latest_version)
    &&& st.user@ == text_or_empty(d.user)
    &&& st.config_path@ == text_or_empty(d.config_path)
}

impl ServiceDefinition {
    /// The state shown for this service: its fields, absent ones as empty
    /// strings, and its first port (0 when it has none) as the main port.
    pub fn into_state(self) -> (st: ServiceState)
        ensures
            is_state_of(st, self),
    {
        let port = if self.ports.len() > 0 {
            self.ports[0]
        } else {
            0
        };
        ServiceState {
            id: self.key,
            provider: self.provider,
            name: self.name,
            status: self.status,
            port,
            ports: self.ports,
            port_mappings: self.port_mappings,
            path: string_or_empty(self.path),
            image: string_or_empty(self.image),
            version: string_or_empty(self.version),
            latest_version: string_or_empty(self.latest_version),
            user: string_or_empty(self.user),
            config_path: string_or_empty(self.config_path),
        }
    }
}

/// The main port shown for a service is the first of its ports, or 0 when it
/// has none; its ports are shown all, in their order.
pub proof fn lemma_main_port_is_first(st: ServiceState, d: ServiceDefinition)
    requires
        is_state_of(st, d),
    ensures
        d.ports@.len() > 0 ==> st.port == d.ports@[0],
        d.ports@.len() == 0 ==> st.port == 0,
        st.ports@ == d.ports@,
{
}

} // verus!
