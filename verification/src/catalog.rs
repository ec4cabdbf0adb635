//! The service list: definitions of all providers in display order, and
//! custom services newest first.

use vstd::prelude::*;
use crate::model::{is_state_of, CustomService, ServiceDefinition, ServiceState};
use crate::order::{self, SortOrder};
use crate::text;
use crate::naming;
use crate::brew;
use crate::custom;
use crate::docker;
use crate::json::JsonValue;
use crate::model::{BrewService, DockerContainer};

verus! {

/// Whether services of the provider `provider` are listed in the order in
/// which they were discovered (custom services, newest first) rather than by
/// name.
pub open spec fn keeps_discovery_order(provider: Seq<char>) -> bool {
    provider == "custom"@
}

impl SortOrder for ServiceDefinition {
    /// By provider; within a provider by name, except custom services, which
    /// keep the order in which they were discovered.
    open spec fn before_or_same(a: Self, b: Self) -> bool {
        order::text_lt(a.provider@, b.provider@) || (a.provider@ == b.provider@ && (
        keeps_discovery_order(a.provider@) || order::text_le(a.name@, b.name@)))
    }

    proof fn lemma_total(a: Self, b: Self) {
        order::lemma_text_le_total(a.provider@, b.provider@);
        order::lemma_text_le_total(a.name@, b.name@);
    }

    proof fn lemma_transitive(a: Self, b: Self, c: Self) {
        if a.provider@ != b.provider@ || b.provider@ != c.provider@ {
            if order::text_le(a.provider@, b.provider@) && order::text_le(b.provider@, c.provider@) {
                order::lemma_text_le_transitive(a.provider@, b.provider@, c.provider@);
            }
            if a.provider@ == c.provider@ {
                if a.provider@ != b.provider@ {
                    order::lemma_text_le_antisymmetric(a.provider@, b.provider@);
                } else {
                    order::lemma_text_le_antisymmetric(b.provider@, c.provider@);
                }
            }
        } else if !keeps_discovery_order(a.provider@) {
            order::lemma_text_le_transitive(a.name@, b.name@, c.name@);
        }
    }

    fn is_before_or_same(&self, other: &Self) -> (r: bool) {
        if text::same_text(self.provider.as_str(), other.provider.as_str()) {
            if text::same_text(self.provider.as_str(), "custom") {
                true
            } else {
                order::text_le_exec(self.name.as_str(), other.name.as_str())
            }
        } else {
            order::text_le_exec(self.provider.as_str(), other.provider.as_str())
        }
    }
}

/// All discovered services, ordered by provider; Docker containers and
/// Homebrew services by name, custom services in the order given (newest
/// first, as `order_custom_services` reads them). Services that tie keep the
/// order of Docker, then Homebrew, then custom services.
pub fn discover_services(
    docker: Vec<ServiceDefinition>,
    brew: Vec<ServiceDefinition>,
    custom: Vec<ServiceDefinition>,
) -> (r: Vec<ServiceDefinition>)
    ensures
        order::is_stable_sort_of(r@, docker@ + brew@ + custom@),
        exists|p: Seq<int>|
            order::is_permutation_by(r@, docker@ + brew@ + custom@, p) && forall|i: int, j: int|
                0 <= i < j < r@.len() && keeps_discovery_order(#[trigger] r@[i].provider@)
                    && #[trigger] r@[j].provider@ == r@[i].provider@ ==> p[i] < p[j],
{
    let mut all = docker;
    let mut b = brew;
    let mut c = custom;
    all.append(&mut b);
    all.append(&mut c);
    let r = order::stable_sort(all);
    proof {
        let input = docker@ + brew@ + custom@;
        let p = choose|p: Seq<int>|
            order::is_permutation_by(r@, input, p) && order::keeps_ties_in_order(r@, p);
        assert forall|i: int, j: int|
            0 <= i < j < r@.len() && keeps_discovery_order(#[trigger] r@[i].provider@)
                && #[trigger] r@[j].provider@ == r@[i].provider@ implies p[i] < p[j] by {
            assert(<ServiceDefinition as SortOrder>::before_or_same(r@[j], r@[i]));
        }
    }
    r
}

/// A custom service with the creation time of its definition file, in
/// nanoseconds from the Unix epoch, when the file system reports one.
pub struct DatedService {
    pub created: Option<i128>,
    pub service: CustomService,
}

/// Whether creation time `a` is later than `b`; a known time is later than
/// an unknown one.
pub open spec fn later(a: Option<i128>, b: Option<i128>) -> bool {
    match (a, b) {
        (Some(x), Some(y)) => x > y,
        (Some(_), None) => true,
        _ => false,
    }
}

impl SortOrder for DatedService {
    /// Newest first, then by name in reverse order.
    open spec fn before_or_same(a: Self, b: Self) -> bool {
        later(a.created, b.created) || (a.created == b.created && order::text_le(
            b.service.name@,
            a.service.name@,
        ))
    }

    proof fn lemma_total(a: Self, b: Self) {
        order::lemma_text_le_total(a.service.name@, b.service.name@);
    }

    proof fn lemma_transitive(a: Self, b: Self, c: Self) {
        if a.created == b.created && b.created == c.created {
            order::lemma_text_le_transitive(c.service.name@, b.service.name@, a.service.name@);
        }
    }

    fn is_before_or_same(&self, other: &Self) -> (r: bool) {
        let later_time = match (self.created, other.created) {
            (Some(x), Some(y)) => x > y,
            (Some(_), None) => true,
            _ => false,
        };
        if later_time {
            return true;
        }
        let same_time = match (self.created, other.created) {
            (Some(x), Some(y)) => x == y,
            (None, None) => true,
            _ => false,
        };
        same_time && order::text_le_exec(other.service.name.as_str(), self.service.name.as_str())
    }
}

/// The services of `dated`, in the given order.
pub open spec fn services_of(dated: Seq<DatedService>) -> Seq<CustomService> {
    dated.map_values(|d: DatedService| d.service)
}

/// Custom services newest first, those created at the same time (or of
/// unknown time) by name in reverse order.
pub fn order_custom_services(entries: Vec<DatedService>) -> (r: Vec<CustomService>)
    ensures
        exists|sorted: Seq<DatedService>|
            order::is_stable_sort_of(sorted, entries@) && r@ == services_of(sorted),
{
    let mut sorted = order::stable_sort(entries);
    let ghost all = sorted@;
    let mut out: Vec<CustomService> = Vec::new();
    while sorted.len() > 0
        invariant
            out@.len() + sorted@.len() == all.len(),
            sorted@ == all.skip(out@.len() as int),
            out@ == services_of(all.take(out@.len() as int)),
        decreases sorted.len(),
    {
        let ghost k: int = out@.len() as int;
        let d = sorted.remove(0);
        assert(d == all[k]);
        assert(sorted@ =~= all.skip(k + 1));
        out.push(d.service);
        assert(out@ =~= services_of(all.take(k + 1)));
    }
    assert(all.take(all.len() as int) =~= all);
    out
}


/// The states shown for `definitions`, in the same order.
pub fn list_services(definitions: Vec<ServiceDefinition>) -> (r: Vec<ServiceState>)
    ensures
        r@.len() == definitions@.len(),
        forall|i: int| 0 <= i < r@.len() ==> is_state_of(#[trigger] r@[i], definitions@[i]),
{
    let mut rest = definitions;
    let ghost all = rest@;
    let mut out: Vec<ServiceState> = Vec::new();
    while rest.len() > 0
        invariant
            all == definitions@,
            out@.len() + rest@.len() == all.len(),
            rest@ == all.skip(out@.len() as int),
            forall|i: int| 0 <= i < out@.len() ==> is_state_of(#[trigger] out@[i], all[i]),
        decreases rest.len(),
    {
        let ghost k: int = out@.len() as int;
        let d = rest.remove(0);
        assert(d == all[k]);
        assert(rest@ =~= all.skip(k + 1));
        out.push(d.into_state());
    }
    out
}


/// The id of every listed service names its provider and its name: the
/// requests of the user interface reach the service they were made for.
pub proof fn lemma_listed_ids_parse(
    d: ServiceDefinition,
    b: BrewService,
    c: DockerContainer,
    inspect: Option<JsonValue>,
    s: CustomService,
    succeeded: bool,
)
    ensures
        brew::is_brew_definition(d, b) && b.name@.len() > 0 ==> naming::spec_parse_service_id(
            d.key@,
        ) == Some(("brew"@, b.name@)),
        docker::is_docker_definition(d, c, inspect) && docker::spec_container_name(c.names@).len()
            > 0 ==> naming::spec_parse_service_id(d.key@) == Some(
            ("docker"@, docker::spec_container_name(c.names@)),
        ),
        custom::is_custom_definition(d, s, succeeded) && naming::spec_custom_service_id(s).len()
            > 0 ==> naming::spec_parse_service_id(d.key@) == Some(
            ("custom"@, naming::spec_custom_service_id(s)),
        ),
{
    reveal_strlit("brew");
    reveal_strlit("brew:");
    reveal_strlit("docker");
    reveal_strlit("docker:");
    reveal_strlit("custom");
    reveal_strlit("custom:");
    assert("brew:"@ =~= "brew"@ + seq![':']);
    assert("docker:"@ =~= "docker"@ + seq![':']);
    assert("custom:"@ =~= "custom"@ + seq![':']);
    if b.name@.len() > 0 {
        naming::lemma_service_id_round_trip("brew"@, b.name@);
        assert("brew:"@ + b.name@ =~= "brew"@ + seq![':'] + b.name@);
    }
    let n = docker::spec_container_name(c.names@);
    if n.len() > 0 {
        naming::lemma_service_id_round_trip("docker"@, n);
        assert("docker:"@ + n =~= "docker"@ + seq![':'] + n);
    }
    let id = naming::spec_custom_service_id(s);
    if id.len() > 0 {
        naming::lemma_service_id_round_trip("custom"@, id);
        assert("custom:"@ + id =~= "custom"@ + seq![':'] + id);
    }
}

} // verus!
