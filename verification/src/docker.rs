//! Docker containers: their definitions from `docker ps` and `docker
//! inspect`, their status and their mounts.

use vstd::prelude::*;
use crate::brew::result_text;
use crate::json::{self, JsonValue};
use crate::model::{opt_text, DockerContainer, ServiceDefinition};
use crate::naming;
use crate::ports;
use crate::text;

verus! {

/// The status of a container from the output of
/// `docker inspect --format {{.State.Status}}`: the output trimmed, an error
/// when it is blank, and the command's error when it failed.
pub open spec fn spec_docker_status(container: Seq<char>, output: Result<Seq<char>, Seq<char>>) -> Result<
    Seq<char>,
    Seq<char>,
> {
    match output {
        Ok(o) => if text::trim(o).len() == 0 {
            Err("Docker container status is empty: "@ + container)
        } else {
            Ok(text::trim(o))
        },
        Err(e) => Err(e),
    }
}

/// The status of the container `container`, given what
/// `docker inspect --format {{.State.Status}} <container>` gave.
pub fn docker_status(container: &str, output: Result<String, String>) -> (r: Result<String, String>)
    ensures
        result_text(r) == spec_docker_status(container@, result_text(output)),
{
    match output {
        Ok(o) => {
            let t = text::trim_str(o.as_str());
            if t.as_str().is_empty() {
                Err(text::concat_str("Docker container status is empty: ", container))
            } else {
                Ok(t)
            }
        },
        Err(e) => Err(e),
    }
}

/// The mount sources of a container from the output of
/// `docker inspect --format {{range .Mounts}}{{.Source}},{{end}}`: the output
/// trimmed and without its trailing commas.
pub open spec fn spec_docker_mounts(output: Result<Seq<char>, Seq<char>>) -> Result<
    Seq<char>,
    Seq<char>,
> {
    match output {
        Ok(o) => Ok(text::drop_trailing(text::trim(o), ',')),
        Err(e) => Err(e),
    }
}

/// The comma-separated mount sources of a container, given what `docker
/// inspect` gave.
pub fn docker_mounts(output: Result<String, String>) -> (r: Result<String, String>)
    ensures
        result_text(r) == spec_docker_mounts(result_text(output)),
{
    match output {
        Ok(o) => {
            let chars = text::chars_of(o.as_str());
            let t = text::trim_chars(chars.as_slice());
            let m = text::drop_trailing_chars(t.as_slice(), ',');
            Ok(text::string_of(m.as_slice()))
        },
        Err(e) => Err(e),
    }
}

/// A line without the carriage return that ends it.
pub open spec fn strip_cr(line: Seq<char>) -> Seq<char> {
    if line.len() > 0 && line.last() == '\r' {
        line.drop_last()
    } else {
        line
    }
}

/// The lines of `s` as `str::lines` yields them: split at `\n`, a `\r`
/// before the `\n` removed, and no empty line after a final `\n`.
pub open spec fn lines(s: Seq<char>) -> Seq<Seq<char>> {
    let parts = text::split_by(s, seq!['\n']);
    parts.take(parts.len() - 1).map_values(|l: Seq<char>| strip_cr(l)) + if parts.last().len()
        == 0 {
        Seq::<Seq<char>>::empty()
    } else {
        seq![parts.last()]
    }
}

/// The items of `s` that are not blank, in order.
pub open spec fn non_blank(s: Seq<Seq<char>>) -> Seq<Seq<char>>
    decreases s.len(),
{
    if s.len() == 0 {
        s
    } else if text::is_blank(s.last()) {
        non_blank(s.drop_last())
    } else {
        non_blank(s.drop_last()).push(s.last())
    }
}

/// The non-blank lines of the output of `docker ps -a --format json`, one
/// container each.
pub fn docker_ps_lines(output: &str) -> (r: Vec<String>)
    ensures
        ports::string_views(r@) == non_blank(lines(output@)),
{
    let chars = text::chars_of(output);
    let nl = ['\n'];
    assert(nl@ =~= seq!['\n']);
    let parts = text::split_by_chars(chars.as_slice(), &nl);
    let ghost all = text::split_by(output@, seq!['\n']);
    proof {
        text::lemma_split_by_nonempty(output@, seq!['\n']);
    }
    let ghost ls = lines(output@);
    let n = parts.len();
    let mut result: Vec<String> = Vec::new();
    let mut i: usize = 0;
    assert(ls.take(0) =~= Seq::<Seq<char>>::empty());
    assert(ports::string_views(result@) =~= Seq::<Seq<char>>::empty());
    let last_empty = parts[n - 1].len() == 0;
    let count: usize = if last_empty {
        n - 1
    } else {
        n
    };
    assert(ls.len() == count);
    while i < count
        invariant
            i <= count,
            count <= n,
            n == parts@.len(),
            n >= 1,
            count == ls.len(),
            text::char_views(parts@) == all,
            all == text::split_by(output@, seq!['\n']),
            ls == lines(output@),
            ports::string_views(result@) == non_blank(ls.take(i as int)),
        decreases count - i,
    {
        let part = parts[i].as_slice();
        let line: Vec<char> = if i + 1 < n && part.len() > 0 && part[part.len() - 1] == '\r' {
            text::slice_chars(part, 0, part.len() - 1)
        } else {
            text::slice_chars(part, 0, part.len())
        };
        assert(all[i as int] == parts@[i as int]@);
        if i + 1 < n {
            assert(ls[i as int] == strip_cr(all[i as int]));
            assert(line@ =~= strip_cr(all[i as int]));
        } else {
            assert(ls[i as int] == all.last());
            assert(line@ =~= all[i as int]);
        }
        assert(ls.take(i + 1).drop_last() =~= ls.take(i as int));
        assert(ls.take(i + 1).last() == line@);
        let t = text::trim_chars(line.as_slice());
        if t.len() > 0 {
            let ghost before = result@;
            result.push(text::string_of(line.as_slice()));
            assert(ports::string_views(result@) =~= ports::string_views(before).push(line@));
        }
        i = i + 1;
    }
    assert(ls.take(count as int) =~= ls);
    result
}

/// The name of a container: the first of its comma-separated names, trimmed.
pub open spec fn spec_container_name(names: Seq<char>) -> Seq<char> {
    text::trim(text::before_first(names, ','))
}

/// The name under which a container is listed.
pub fn docker_container_name(names: &str) -> (r: String)
    ensures
        r@ == spec_container_name(names@),
{
    let chars = text::chars_of(names);
    let first = text::before_first_chars(chars.as_slice(), ',');
    let t = text::trim_chars(first.as_slice());
    text::string_of(t.as_slice())
}

/// The mappings a container publishes by its `Ports` column, else by its
/// labels.
pub open spec fn local_port_mappings(c: DockerContainer) -> Option<Seq<Seq<char>>> {
    match ports::spec_docker_port_mappings(c.ports@) {
        Some(m) => Some(m),
        None => ports::spec_docker_label_port_mappings(c.labels@),
    }
}

/// The host ports a container publishes by its `Ports` column, else by its
/// labels.
pub open spec fn local_ports(c: DockerContainer) -> Option<Seq<u16>> {
    match ports::spec_docker_ports(c.ports@) {
        Some(p) => Some(p),
        None => ports::spec_docker_label_ports(c.labels@),
    }
}

/// The mappings shown for a container: those of `docker ps`, else those of
/// `docker inspect` when its output `inspect` is at hand.
pub open spec fn container_port_mappings(c: DockerContainer, inspect: Option<JsonValue>) -> Seq<
    Seq<char>,
> {
    match local_port_mappings(c) {
        Some(m) => m,
        None => match inspect {
            Some(v) => json::spec_docker_inspect_port_mappings(v),
            None => Seq::<Seq<char>>::empty(),
        },
    }
}

/// The ports shown for a container: the host ports of its mappings, or,
/// without mappings, those of `docker ps`, else those of `docker inspect`.
pub open spec fn container_ports(c: DockerContainer, inspect: Option<JsonValue>) -> Seq<u16> {
    let m = container_port_mappings(c, inspect);
    if m.len() == 0 {
        match local_ports(c) {
            Some(p) => p,
            None => match inspect {
                Some(v) => json::spec_docker_inspect_ports(v),
                None => Seq::<u16>::empty(),
            },
        }
    } else {
        ports::spec_mapping_host_ports(m)
    }
}

/// Whether `d` is the definition shown for the container `c`, given the
/// output of `docker inspect` for it when that was at hand.
pub open spec fn is_docker_definition(d: ServiceDefinition, c: DockerContainer, inspect: Option<JsonValue>) -> bool {
    let name = spec_container_name(c.names@);
    &&& d.key@ == "docker:"@ + name
    &&& d.provider@ == "docker"@
    &&& d.name@ == naming::spec_title_case(name)
    &&& d.status@ == c.state@
    &&& d.ports@ == container_ports(c, inspect)
    &&& ports::string_views(d.port_mappings@) == container_port_mappings(c, inspect)
    &&& opt_text(d.path) == Some(c.mounts@)
    &&& opt_text(d.image) == Some(c.image@)
    &&& d.version.is_none()
    &&& d.latest_version.is_none()
    &&& d.user.is_none()
    &&& d.config_path.is_none()
}

/// Whether the ports of a listed container must be read from `docker
/// inspect`: it has a name and `docker ps` shows no mapping for it.
pub open spec fn spec_needs_inspect(c: DockerContainer) -> bool {
    spec_container_name(c.names@).len() > 0 && local_port_mappings(c).is_none()
}

/// Whether `docker inspect` must be run for the container `container`.
pub fn needs_inspect(container: &DockerContainer) -> (b: bool)
    ensures
        b == spec_needs_inspect(*container),
{
    let name = docker_container_name(container.names.as_str());
    if name.as_str().is_empty() {
        return false;
    }
    ports::docker_port_mappings(container.ports.as_str()).is_none()
        && ports::docker_label_port_mappings(container.labels.as_str()).is_none()
}

fn strings_of(v: Option<Vec<String>>) -> (r: Vec<String>)
    ensures
        ports::string_views(r@) == match ports::opt_strings(v) {
            Some(s) => s,
            None => Seq::<Seq<char>>::empty(),
        },
{
    match v {
        Some(s) => s,
        None => {
            let r: Vec<String> = Vec::new();
            assert(ports::string_views(r@) =~= Seq::<Seq<char>>::empty());
            r
        },
    }
}

/// The definition shown for a container listed by `docker ps`, given the
/// parsed output of `docker inspect` for it when that was needed and
/// succeeded; none for a container without a name.
pub fn docker_definition(container: DockerContainer, inspect: Option<JsonValue>) -> (r: Option<
    ServiceDefinition,
>)
    ensures
        match r {
            Some(d) => spec_container_name(container.names@).len() > 0 && is_docker_definition(
                d,
                container,
                inspect,
            ),
            None => spec_container_name(container.names@).len() == 0,
        },
{
    let name = docker_container_name(container.names.as_str());
    if name.as_str().is_empty() {
        return None;
    }
    let local = match ports::docker_port_mappings(container.ports.as_str()) {
        Some(m) => Some(m),
        None => ports::docker_label_port_mappings(container.labels.as_str()),
    };
    let mappings = match local {
        Some(m) => m,
        None => match &inspect {
            Some(v) => json::docker_inspect_port_mappings(v),
            None => strings_of(None),
        },
    };
    let ports = if mappings.len() == 0 {
        let local_ports = match ports::docker_ports(container.ports.as_str()) {
            Some(p) => Some(p),
            None => ports::docker_label_ports(container.labels.as_str()),
        };
        match local_ports {
            Some(p) => p,
            None => match &inspect {
                Some(v) => json::docker_inspect_ports(v),
                None => Vec::new(),
            },
        }
    } else {
        ports::mapping_host_ports(&mappings)
    };
    Some(
        ServiceDefinition {
            key: text::concat_str("docker:", name.as_str()),
            provider: text::text_of("docker"),
            name: naming::title_case(name.as_str()),
            status: container.state,
            ports,
            port_mappings: mappings,
            path: Some(container.mounts),
            image: Some(container.image),
            version: None,
            latest_version: None,
            user: None,
            config_path: None,
        },
    )
}


proof fn lemma_drop_trailing_last(s: Seq<char>, c: char)
    ensures
        text::drop_trailing(s, c).len() == 0 || text::drop_trailing(s, c).last() != c,
    decreases s.len(),
{
    if s.len() > 0 && s.last() == c {
        lemma_drop_trailing_last(s.drop_last(), c);
    }
}

/// The mount list read from `docker inspect` never ends with a comma.
pub proof fn lemma_docker_mounts_no_trailing_comma(output: Seq<char>)
    ensures
        spec_docker_mounts(Ok(output)) matches Ok(m) && (m.len() == 0 || m.last() != ','),
{
    lemma_drop_trailing_last(text::trim(output), ',');
}

/// A container that publishes mappings shows as its ports the host ports of
/// those mappings, one per mapping and in the same order.
pub proof fn lemma_container_ports_follow_mappings(c: DockerContainer, inspect: Option<JsonValue>)
    requires
        local_port_mappings(c).is_some(),
    ensures
        container_ports(c, inspect).len() == container_port_mappings(c, inspect).len(),
        forall|i: int|
            0 <= i < container_port_mappings(c, inspect).len() ==> ports::mapping_host_port(
                #[trigger] container_port_mappings(c, inspect)[i],
            ) == Some(container_ports(c, inspect)[i]),
{
    ports::lemma_docker_mappings_well_formed(c.ports@, c.labels@);
    ports::lemma_docker_lists_distinct(c.ports@, c.labels@);
    ports::lemma_host_ports_of_mappings(container_port_mappings(c, inspect));
}

} // verus!
