//! Published ports of Docker containers, read from the `Ports` and `Labels`
//! columns of `docker ps`.

use vstd::prelude::*;
use crate::text;

verus! {

/// `s` with `x` appended unless it already holds `x`.
pub open spec fn push_unique<T>(s: Seq<T>, x: T) -> Seq<T> {
    if s.contains(x) {
        s
    } else {
        s.push(x)
    }
}

/// The values inside the `Some` items of `s`, in order, each kept only at its
/// first appearance.
pub open spec fn distinct_somes<T>(s: Seq<Option<T>>) -> Seq<T>
    decreases s.len(),
{
    if s.len() == 0 {
        Seq::<T>::empty()
    } else {
        let acc = distinct_somes(s.drop_last());
        match s.last() {
            Some(x) => push_unique(acc, x),
            None => acc,
        }
    }
}

/// The values inside the `Some` items of `s`, in order.
pub open spec fn somes<T>(s: Seq<Option<T>>) -> Seq<T>
    decreases s.len(),
{
    if s.len() == 0 {
        Seq::<T>::empty()
    } else {
        match s.last() {
            Some(x) => somes(s.drop_last()).push(x),
            None => somes(s.drop_last()),
        }
    }
}

/// `None` for an empty sequence, `Some(s)` otherwise.
pub open spec fn non_empty<T>(s: Seq<T>) -> Option<Seq<T>> {
    if s.len() == 0 {
        None
    } else {
        Some(s)
    }
}

/// The character sequences held by a list of strings.
pub open spec fn string_views(v: Seq<String>) -> Seq<Seq<char>> {
    v.map_values(|x: String| x@)
}

/// The view of an optional list.
pub open spec fn opt_seq<T>(o: Option<Vec<T>>) -> Option<Seq<T>> {
    match o {
        Some(v) => Some(v@),
        None => None,
    }
}

/// The view of an optional list of strings.
pub open spec fn opt_strings(o: Option<Vec<String>>) -> Option<Seq<Seq<char>>> {
    match o {
        Some(v) => Some(string_views(v@)),
        None => None,
    }
}

/// The pieces of a comma-separated list.
pub open spec fn comma_parts(s: Seq<char>) -> Seq<Seq<char>> {
    text::split_by(s, seq![','])
}

/// The arrow between host and container side of a published port.
pub open spec fn arrow() -> Seq<char> {
    seq!['-', '>']
}

/// A mapping written `host:container`.
pub open spec fn mapping_text(host: Seq<char>, container: Seq<char>) -> Seq<char> {
    host + seq![':'] + container
}

/// The host port of one entry of the `Ports` column, such as
/// `0.0.0.0:8080->80/tcp`: the number after the last `:` before the arrow.
pub open spec fn published_host_port(part: Seq<char>) -> Option<u16> {
    match text::split_once(text::trim(part), arrow()) {
        Some((host, _container)) => text::parse_u16(text::after_last(host, ':')),
        None => None,
    }
}

/// The `host:container` mapping of one entry of the `Ports` column, present
/// when both sides are port numbers.
pub open spec fn published_mapping(part: Seq<char>) -> Option<Seq<char>> {
    match text::split_once(text::trim(part), arrow()) {
        Some((host, container)) => {
            let h = text::after_last(host, ':');
            let c = text::before_first(container, '/');
            if text::parse_u16(h).is_some() && text::parse_u16(c).is_some() {
                Some(mapping_text(h, c))
            } else {
                None
            }
        },
        None => None,
    }
}

/// The key prefix of the labels in which Docker Desktop records published ports.
pub open spec fn port_label_prefix() -> Seq<char> {
    "desktop.docker.io/ports/"@
}

/// The `host:container` mapping of one label such as
/// `desktop.docker.io/ports/80/tcp=:8080`, present when both sides are port
/// numbers.
pub open spec fn label_mapping(label: Seq<char>) -> Option<Seq<char>> {
    match text::split_once(text::trim(label), seq!['=']) {
        Some((key, value)) => match text::strip_prefix(key, port_label_prefix()) {
            Some(rest) => {
                let c = text::before_first(rest, '/');
                let h = text::drop_leading(value, ':');
                if text::parse_u16(h).is_some() && text::parse_u16(c).is_some() {
                    Some(mapping_text(h, c))
                } else {
                    None
                }
            },
            None => None,
        },
        None => None,
    }
}

/// The host port of a `host:container` mapping.
pub open spec fn mapping_host_port(mapping: Seq<char>) -> Option<u16> {
    match text::split_once(mapping, seq![':']) {
        Some((host, _container)) => text::parse_u16(host),
        None => None,
    }
}

/// The distinct host ports published in a `Ports` column, in order.
pub open spec fn spec_docker_ports(ports: Seq<char>) -> Option<Seq<u16>> {
    non_empty(distinct_somes(comma_parts(ports).map_values(|p: Seq<char>| published_host_port(p))))
}

/// The distinct `host:container` mappings published in a `Ports` column, in order.
pub open spec fn spec_docker_port_mappings(ports: Seq<char>) -> Option<Seq<Seq<char>>> {
    non_empty(distinct_somes(comma_parts(ports).map_values(|p: Seq<char>| published_mapping(p))))
}

/// The distinct `host:container` mappings recorded in a `Labels` column, in order.
pub open spec fn spec_docker_label_port_mappings(labels: Seq<char>) -> Option<Seq<Seq<char>>> {
    non_empty(distinct_somes(comma_parts(labels).map_values(|l: Seq<char>| label_mapping(l))))
}

/// The host ports of a list of mappings, in order.
pub open spec fn spec_mapping_host_ports(mappings: Seq<Seq<char>>) -> Seq<u16> {
    somes(mappings.map_values(|m: Seq<char>| mapping_host_port(m)))
}

/// The host ports of the mappings recorded in a `Labels` column.
pub open spec fn spec_docker_label_ports(labels: Seq<char>) -> Option<Seq<u16>> {
    match spec_docker_label_port_mappings(labels) {
        Some(ms) => Some(spec_mapping_host_ports(ms)),
        None => None,
    }
}

/// Appends `port` unless `ports` already holds it.
pub fn push_unique_port(ports: &mut Vec<u16>, port: u16)
    ensures
        final(ports)@ == push_unique(old(ports)@, port),
{
    let mut i: usize = 0;
    while i < ports.len()
        invariant
            i <= ports@.len(),
            forall|k: int| 0 <= k < i ==> ports@[k] != port,
        decreases ports.len() - i,
    {
        if ports[i] == port {
            assert(ports@.contains(port));
            return;
        }
        i = i + 1;
    }
    ports.push(port);
}

/// Appends `mapping` unless `mappings` already holds an equal string.
pub fn push_unique_mapping(mappings: &mut Vec<String>, mapping: String)
    ensures
        string_views(final(mappings)@) == push_unique(string_views(old(mappings)@), mapping@),
{
    let mut i: usize = 0;
    while i < mappings.len()
        invariant
            i <= mappings@.len(),
            forall|k: int| 0 <= k < i ==> mappings@[k]@ != mapping@,
        decreases mappings.len() - i,
    {
        if mappings[i] == mapping {
            assert(string_views(mappings@)[i as int] == mapping@);
            return;
        }
        i = i + 1;
    }
    let ghost before = mappings@;
    mappings.push(mapping);
    assert(!string_views(before).contains(mapping@)) by {
        if string_views(before).contains(mapping@) {
            let k = choose|k: int| 0 <= k < string_views(before).len() && string_views(before)[k] == mapping@;
            assert(before[k]@ == mapping@);
        }
    }
    assert(string_views(mappings@) =~= string_views(before).push(mapping@));
}

/// The host port of one entry of the `Ports` column.
fn published_host_port_chars(part: &[char]) -> (r: Option<u16>)
    ensures
        r == published_host_port(part@),
{
    let t = text::trim_chars(part);
    let arrow_pat = ['-', '>'];
    assert(arrow_pat@ =~= arrow());
    match text::split_once_chars(t.as_slice(), &arrow_pat) {
        Some((host, _container)) => {
            let h = text::after_last_chars(host.as_slice(), ':');
            text::parse_u16_chars(h.as_slice())
        },
        None => None,
    }
}

/// Joins a host and a container port as `host:container`.
pub fn mapping_of(host: &[char], container: &[char]) -> (r: String)
    ensures
        r@ == mapping_text(host@, container@),
{
    let mut v: Vec<char> = Vec::new();
    let mut i: usize = 0;
    while i < host.len()
        invariant
            i <= host@.len(),
            v@ == host@.take(i as int),
        decreases host.len() - i,
    {
        v.push(host[i]);
        i = i + 1;
        assert(v@ =~= host@.take(i as int));
    }
    v.push(':');
    let mut j: usize = 0;
    assert(host@.take(host@.len() as int) =~= host@);
    while j < container.len()
        invariant
            j <= container@.len(),
            v@ == host@ + seq![':'] + container@.take(j as int),
        decreases container.len() - j,
    {
        v.push(container[j]);
        j = j + 1;
        assert(v@ =~= host@ + seq![':'] + container@.take(j as int));
    }
    assert(container@.take(container@.len() as int) =~= container@);
    text::string_of(v.as_slice())
}

/// The `host:container` mapping of one entry of the `Ports` column.
fn published_mapping_chars(part: &[char]) -> (r: Option<String>)
    ensures
        match r {
            Some(m) => published_mapping(part@) == Some(m@),
            None => published_mapping(part@).is_none(),
        },
{
    let t = text::trim_chars(part);
    let arrow_pat = ['-', '>'];
    assert(arrow_pat@ =~= arrow());
    match text::split_once_chars(t.as_slice(), &arrow_pat) {
        Some((host, container)) => {
            let h = text::after_last_chars(host.as_slice(), ':');
            let c = text::before_first_chars(container.as_slice(), '/');
            if text::parse_u16_chars(h.as_slice()).is_some() && text::parse_u16_chars(c.as_slice()).is_some() {
                Some(mapping_of(h.as_slice(), c.as_slice()))
            } else {
                None
            }
        },
        None => None,
    }
}

/// The `host:container` mapping of one entry of the `Labels` column.
fn label_mapping_chars(label: &[char], prefix: &[char]) -> (r: Option<String>)
    requires
        prefix@ == port_label_prefix(),
    ensures
        match r {
            Some(m) => label_mapping(label@) == Some(m@),
            None => label_mapping(label@).is_none(),
        },
{
    let t = text::trim_chars(label);
    let eq = ['='];
    assert(eq@ =~= seq!['=']);
    match text::split_once_chars(t.as_slice(), &eq) {
        Some((key, value)) => match text::strip_prefix_chars(key.as_slice(), prefix) {
            Some(rest) => {
                let c = text::before_first_chars(rest.as_slice(), '/');
                let h = text::drop_leading_chars(value.as_slice(), ':');
                if text::parse_u16_chars(h.as_slice()).is_some() && text::parse_u16_chars(c.as_slice()).is_some() {
                    Some(mapping_of(h.as_slice(), c.as_slice()))
                } else {
                    None
                }
            },
            None => None,
        },
        None => None,
    }
}

/// The pieces of a comma-separated list.
fn comma_parts_of(s: &str) -> (r: Vec<Vec<char>>)
    ensures
        text::char_views(r@) == comma_parts(s@),
{
    let chars = text::chars_of(s);
    let comma = [','];
    assert(comma@ =~= seq![',']);
    text::split_by_chars(chars.as_slice(), &comma)
}

/// The distinct host ports published in the `Ports` column of `docker ps`,
/// in order of appearance; `None` when there is none.
pub fn docker_ports(ports: &str) -> (r: Option<Vec<u16>>)
    ensures
        opt_seq(r) == spec_docker_ports(ports@),
{
    let parts = comma_parts_of(ports);
    let ghost mapped = comma_parts(ports@).map_values(|p: Seq<char>| published_host_port(p));
    let mut result: Vec<u16> = Vec::new();
    let mut i: usize = 0;
    assert(mapped.take(0) =~= Seq::<Option<u16>>::empty());
    while i < parts.len()
        invariant
            i <= parts@.len(),
            text::char_views(parts@) == comma_parts(ports@),
            mapped == comma_parts(ports@).map_values(|p: Seq<char>| published_host_port(p)),
            result@ == distinct_somes(mapped.take(i as int)),
        decreases parts.len() - i,
    {
        let p = published_host_port_chars(parts[i].as_slice());
        assert(text::char_views(parts@)[i as int] == parts@[i as int]@);
        assert(mapped.take(i + 1).drop_last() =~= mapped.take(i as int));
        assert(mapped.take(i + 1).last() == p);
        if let Some(port) = p {
            push_unique_port(&mut result, port);
        }
        i = i + 1;
    }
    assert(mapped.take(parts@.len() as int) =~= mapped);
    if result.len() == 0 {
        None
    } else {
        Some(result)
    }
}

/// The distinct `host:container` mappings published in the `Ports` column of
/// `docker ps`, in order of appearance; `None` when there is none.
pub fn docker_port_mappings(ports: &str) -> (r: Option<Vec<String>>)
    ensures
        opt_strings(r) == spec_docker_port_mappings(ports@),
{
    let parts = comma_parts_of(ports);
    let ghost mapped = comma_parts(ports@).map_values(|p: Seq<char>| published_mapping(p));
    let mut result: Vec<String> = Vec::new();
    let mut i: usize = 0;
    assert(mapped.take(0) =~= Seq::<Option<Seq<char>>>::empty());
    assert(string_views(result@) =~= Seq::<Seq<char>>::empty());
    while i < parts.len()
        invariant
            i <= parts@.len(),
            text::char_views(parts@) == comma_parts(ports@),
            mapped == comma_parts(ports@).map_values(|p: Seq<char>| published_mapping(p)),
            string_views(result@) == distinct_somes(mapped.take(i as int)),
        decreases parts.len() - i,
    {
        let p = published_mapping_chars(parts[i].as_slice());
        assert(text::char_views(parts@)[i as int] == parts@[i as int]@);
        assert(mapped.take(i + 1).drop_last() =~= mapped.take(i as int));
        if let Some(m) = p {
            assert(mapped.take(i + 1).last() == Some(m@));
            push_unique_mapping(&mut result, m);
        } else {
            assert(mapped.take(i + 1).last().is_none());
        }
        i = i + 1;
    }
    assert(mapped.take(parts@.len() as int) =~= mapped);
    if result.len() == 0 {
        None
    } else {
        Some(result)
    }
}

/// The distinct `host:container` mappings that Docker Desktop records in the
/// `Labels` column of `docker ps`, in order of appearance; `None` when there
/// is none.
pub fn docker_label_port_mappings(labels: &str) -> (r: Option<Vec<String>>)
    ensures
        opt_strings(r) == spec_docker_label_port_mappings(labels@),
{
    let parts = comma_parts_of(labels);
    let prefix = text::chars_of("desktop.docker.io/ports/");
    let ghost mapped = comma_parts(labels@).map_values(|l: Seq<char>| label_mapping(l));
    let mut result: Vec<String> = Vec::new();
    let mut i: usize = 0;
    assert(mapped.take(0) =~= Seq::<Option<Seq<char>>>::empty());
    assert(string_views(result@) =~= Seq::<Seq<char>>::empty());
    while i < parts.len()
        invariant
            i <= parts@.len(),
            prefix@ == port_label_prefix(),
            text::char_views(parts@) == comma_parts(labels@),
            mapped == comma_parts(labels@).map_values(|l: Seq<char>| label_mapping(l)),
            string_views(result@) == distinct_somes(mapped.take(i as int)),
        decreases parts.len() - i,
    {
        let p = label_mapping_chars(parts[i].as_slice(), prefix.as_slice());
        assert(text::char_views(parts@)[i as int] == parts@[i as int]@);
        assert(mapped.take(i + 1).drop_last() =~= mapped.take(i as int));
        if let Some(m) = p {
            assert(mapped.take(i + 1).last() == Some(m@));
            push_unique_mapping(&mut result, m);
        } else {
            assert(mapped.take(i + 1).last().is_none());
        }
        i = i + 1;
    }
    assert(mapped.take(parts@.len() as int) =~= mapped);
    if result.len() == 0 {
        None
    } else {
        Some(result)
    }
}

/// The host ports of a list of `host:container` mappings, in order.
pub fn mapping_host_ports(mappings: &Vec<String>) -> (r: Vec<u16>)
    ensures
        r@ == spec_mapping_host_ports(string_views(mappings@)),
{
    let ghost mapped = string_views(mappings@).map_values(|m: Seq<char>| mapping_host_port(m));
    let mut result: Vec<u16> = Vec::new();
    let mut i: usize = 0;
    let colon = [':'];
    assert(colon@ =~= seq![':']);
    assert(mapped.take(0) =~= Seq::<Option<u16>>::empty());
    while i < mappings.len()
        invariant
            i <= mappings@.len(),
            colon@ == seq![':'],
            mapped == string_views(mappings@).map_values(|m: Seq<char>| mapping_host_port(m)),
            result@ == somes(mapped.take(i as int)),
        decreases mappings.len() - i,
    {
        let m = text::chars_of(mappings[i].as_str());
        let p = match text::split_once_chars(m.as_slice(), &colon) {
            Some((host, _container)) => text::parse_u16_chars(host.as_slice()),
            None => None,
        };
        assert(mapped.take(i + 1).drop_last() =~= mapped.take(i as int));
        assert(mapped.take(i + 1).last() == p);
        if let Some(port) = p {
            result.push(port);
        }
        i = i + 1;
    }
    assert(mapped.take(mappings@.len() as int) =~= mapped);
    result
}

/// The host ports of the mappings that Docker Desktop records in the `Labels`
/// column of `docker ps`; `None` when there is no such mapping.
pub fn docker_label_ports(labels: &str) -> (r: Option<Vec<u16>>)
    ensures
        opt_seq(r) == spec_docker_label_ports(labels@),
{
    match docker_label_port_mappings(labels) {
        Some(mappings) => Some(mapping_host_ports(&mappings)),
        None => None,
    }
}


/// Appending a value uniquely keeps a list free of duplicates and leaves the
/// value in the list.
pub proof fn lemma_push_unique<T>(s: Seq<T>, x: T)
    ensures
        push_unique(s, x).contains(x),
        s.no_duplicates() ==> push_unique(s, x).no_duplicates(),
        s.contains(x) ==> push_unique(s, x) == s,
{
    if !s.contains(x) {
        assert(s.push(x)[s.len() as int] == x);
        assert forall|i: int, j: int|
            0 <= i < s.push(x).len() && 0 <= j < s.push(x).len() && i != j && s.no_duplicates()
                implies s.push(x)[i] != s.push(x)[j] by {
            if i < s.len() && j == s.len() {
                assert(s.push(x)[i] == s[i]);
            }
            if j < s.len() && i == s.len() {
                assert(s.push(x)[j] == s[j]);
            }
        }
    }
}

/// The distinct values of a list hold no duplicates, and each of them comes
/// from the list.
pub proof fn lemma_distinct_somes<T>(s: Seq<Option<T>>)
    ensures
        distinct_somes(s).no_duplicates(),
        forall|k: int|
            0 <= k < distinct_somes(s).len() ==> #[trigger] s.contains(Some(distinct_somes(s)[k])),
    decreases s.len(),
{
    if s.len() > 0 {
        let rest = s.drop_last();
        lemma_distinct_somes(rest);
        let acc = distinct_somes(rest);
        assert forall|k: int| 0 <= k < acc.len() implies s.contains(Some(acc[k])) by {
            assert(rest.contains(Some(acc[k])));
            let i = choose|i: int| 0 <= i < rest.len() && rest[i] == Some(acc[k]);
            assert(s[i] == rest[i]);
        }
        match s.last() {
            Some(x) => {
                lemma_push_unique(acc, x);
                assert(s[s.len() - 1] == Some(x));
            },
            None => {},
        }
    }
}

/// The distinct host ports and mappings that `docker ps` shows are never
/// empty lists and never hold a value twice.
pub proof fn lemma_docker_lists_distinct(ports: Seq<char>, labels: Seq<char>)
    ensures
        spec_docker_ports(ports) matches Some(p) ==> p.len() > 0 && p.no_duplicates(),
        spec_docker_port_mappings(ports) matches Some(m) ==> m.len() > 0 && m.no_duplicates(),
        spec_docker_label_port_mappings(labels) matches Some(m) ==> m.len() > 0
            && m.no_duplicates(),
{
    lemma_distinct_somes(comma_parts(ports).map_values(|p: Seq<char>| published_host_port(p)));
    lemma_distinct_somes(comma_parts(ports).map_values(|p: Seq<char>| published_mapping(p)));
    lemma_distinct_somes(comma_parts(labels).map_values(|l: Seq<char>| label_mapping(l)));
}

/// Whether `m` is written `host:container` with two port numbers.
pub open spec fn is_port_mapping(m: Seq<char>) -> bool {
    exists|h: Seq<char>, c: Seq<char>|
        #![trigger mapping_text(h, c)]
        m == mapping_text(h, c) && text::parse_u16(h).is_some() && text::parse_u16(c).is_some()
}

/// The host port of a mapping `host:container` is the number `host`.
pub proof fn lemma_mapping_host_port(h: Seq<char>, c: Seq<char>)
    requires
        text::parse_u16(h).is_some(),
    ensures
        mapping_host_port(mapping_text(h, c)) == text::parse_u16(h),
{
    let m = mapping_text(h, c);
    let d = text::unsigned_digits(h);
    assert forall|k: int| 0 <= k < h.len() implies h[k] != ':' by {
        if h.len() > 0 && h[0] == '+' {
            if k > 0 {
                assert(d[k - 1] == h[k]);
                assert(text::is_digit(d[k - 1]));
            }
        } else {
            assert(d[k] == h[k]);
            assert(text::is_digit(d[k]));
        }
    }
    assert(m.subrange(h.len() as int, h.len() + 1 as int) =~= seq![':']);
    assert forall|k: int| 0 <= k < h.len() implies !text::occurs_at(m, seq![':'], k) by {
        assert(m.subrange(k, k + 1)[0] == h[k]);
    }
    text::lemma_first_occurrence_unique(m, seq![':'], h.len() as int);
    assert(m.take(h.len() as int) =~= h);
}

proof fn lemma_somes_all<T>(s: Seq<Option<T>>)
    requires
        forall|i: int| 0 <= i < s.len() ==> (#[trigger] s[i]).is_some(),
    ensures
        somes(s) == s.map_values(|o: Option<T>| o.unwrap()),
    decreases s.len(),
{
    if s.len() > 0 {
        let rest = s.drop_last();
        assert forall|i: int| 0 <= i < rest.len() implies (#[trigger] rest[i]).is_some() by {
            assert(rest[i] == s[i]);
        }
        lemma_somes_all(rest);
        assert(s[s.len() - 1].is_some());
        assert(s.map_values(|o: Option<T>| o.unwrap()) =~= rest.map_values(
            |o: Option<T>| o.unwrap(),
        ).push(s.last().unwrap()));
    } else {
        assert(s.map_values(|o: Option<T>| o.unwrap()) =~= Seq::<T>::empty());
    }
}

/// Every mapping of a list of port mappings has a host port, so the host
/// ports of the list are one per mapping, in order.
pub proof fn lemma_host_ports_of_mappings(ms: Seq<Seq<char>>)
    requires
        forall|i: int| 0 <= i < ms.len() ==> is_port_mapping(#[trigger] ms[i]),
    ensures
        spec_mapping_host_ports(ms).len() == ms.len(),
        forall|i: int|
            0 <= i < ms.len() ==> mapping_host_port(#[trigger] ms[i]) == Some(
                spec_mapping_host_ports(ms)[i],
            ),
{
    let hp = ms.map_values(|m: Seq<char>| mapping_host_port(m));
    assert forall|i: int| 0 <= i < hp.len() implies (#[trigger] hp[i]).is_some() by {
        let (h, c) = choose|h: Seq<char>, c: Seq<char>|
            #![trigger mapping_text(h, c)]
            ms[i] == mapping_text(h, c) && text::parse_u16(h).is_some() && text::parse_u16(
                c,
            ).is_some();
        lemma_mapping_host_port(h, c);
    }
    lemma_somes_all(hp);
}

/// The mappings that `docker ps` shows, in its `Ports` column or in its
/// labels, are all written `host:container` with two port numbers.
pub proof fn lemma_docker_mappings_well_formed(ports: Seq<char>, labels: Seq<char>)
    ensures
        spec_docker_port_mappings(ports) matches Some(m) ==> forall|i: int|
            0 <= i < m.len() ==> is_port_mapping(#[trigger] m[i]),
        spec_docker_label_port_mappings(labels) matches Some(m) ==> forall|i: int|
            0 <= i < m.len() ==> is_port_mapping(#[trigger] m[i]),
{
    let a = comma_parts(ports).map_values(|p: Seq<char>| published_mapping(p));
    lemma_distinct_somes(a);
    assert forall|i: int| 0 <= i < distinct_somes(a).len() implies is_port_mapping(
        #[trigger] distinct_somes(a)[i],
    ) by {
        let x = distinct_somes(a)[i];
        assert(a.contains(Some(x)));
        let j = choose|j: int| 0 <= j < a.len() && a[j] == Some(x);
        let part = comma_parts(ports)[j];
        let (host, container) = text::split_once(text::trim(part), arrow()).unwrap();
        let h = text::after_last(host, ':');
        let c = text::before_first(container, '/');
        assert(x == mapping_text(h, c));
    }
    let b = comma_parts(labels).map_values(|l: Seq<char>| label_mapping(l));
    lemma_distinct_somes(b);
    assert forall|i: int| 0 <= i < distinct_somes(b).len() implies is_port_mapping(
        #[trigger] distinct_somes(b)[i],
    ) by {
        let x = distinct_somes(b)[i];
        assert(b.contains(Some(x)));
        let j = choose|j: int| 0 <= j < b.len() && b[j] == Some(x);
        let label = comma_parts(labels)[j];
        let (key, value) = text::split_once(text::trim(label), seq!['=']).unwrap();
        let rest = text::strip_prefix(key, port_label_prefix()).unwrap();
        let c = text::before_first(rest, '/');
        let h = text::drop_leading(value, ':');
        assert(x == mapping_text(h, c));
    }
}

/// The host ports read from Docker Desktop's labels are those of the label
/// mappings, one per mapping and in the same order.
pub proof fn lemma_label_ports_follow_mappings(labels: Seq<char>)
    ensures
        match spec_docker_label_port_mappings(labels) {
            Some(ms) => spec_docker_label_ports(labels) == Some(spec_mapping_host_ports(ms))
                && spec_mapping_host_ports(ms).len() == ms.len() && forall|i: int|
                0 <= i < ms.len() ==> mapping_host_port(#[trigger] ms[i]) == Some(
                    spec_mapping_host_ports(ms)[i],
                ),
            None => spec_docker_label_ports(labels).is_none(),
        },
{
    lemma_docker_mappings_well_formed(Seq::<char>::empty(), labels);
    if let Some(ms) = spec_docker_label_port_mappings(labels) {
        lemma_host_ports_of_mappings(ms);
    }
}

proof fn lemma_distinct_somes_has<T>(s: Seq<Option<T>>, i: int, x: T)
    requires
        0 <= i < s.len(),
        s[i] == Some(x),
    ensures
        distinct_somes(s).contains(x),
    decreases s.len(),
{
    let rest = s.drop_last();
    let acc = distinct_somes(rest);
    if i == s.len() - 1 {
        lemma_push_unique(acc, x);
    } else {
        assert(rest[i] == s[i]);
        lemma_distinct_somes_has(rest, i, x);
        let k = choose|k: int| 0 <= k < acc.len() && acc[k] == x;
        match s.last() {
            Some(y) => {
                if !acc.contains(y) {
                    assert(acc.push(y)[k] == x);
                }
            },
            None => {},
        }
    }
}

/// Every mapping that the `Ports` column shows has a host port, and that port
/// is among the host ports the column shows.
pub proof fn lemma_mapping_ports_are_published(ports: Seq<char>)
    ensures
        spec_docker_port_mappings(ports) matches Some(ms) ==> (spec_docker_ports(ports) matches Some(
            ps,
        ) && forall|i: int|
            0 <= i < ms.len() ==> ((#[trigger] mapping_host_port(ms[i])) matches Some(p)
                && ps.contains(p))),
{
    let parts = comma_parts(ports);
    let a = parts.map_values(|p: Seq<char>| published_mapping(p));
    let b = parts.map_values(|p: Seq<char>| published_host_port(p));
    lemma_distinct_somes(a);
    if let Some(ms) = spec_docker_port_mappings(ports) {
        assert(ms == distinct_somes(a));
        assert forall|i: int| 0 <= i < ms.len() implies ((#[trigger] mapping_host_port(ms[i])) matches Some(
            p,
        ) && distinct_somes(b).contains(p)) by {
            let x = ms[i];
            assert(a.contains(Some(x)));
            let j = choose|j: int| 0 <= j < a.len() && a[j] == Some(x);
            let part = parts[j];
            let (host, container) = text::split_once(text::trim(part), arrow()).unwrap();
            let h = text::after_last(host, ':');
            let c = text::before_first(container, '/');
            assert(x == mapping_text(h, c));
            lemma_mapping_host_port(h, c);
            let p = text::parse_u16(h).unwrap();
            assert(b[j] == Some(p));
            lemma_distinct_somes_has(b, j, p);
        }
        if ms.len() > 0 {
            let x = ms[0];
            assert(mapping_host_port(x) is Some);
            let p = mapping_host_port(x).unwrap();
            assert(distinct_somes(b).contains(p));
            assert(distinct_somes(b).len() > 0);
        }
        assert(ms.len() > 0);
    }
}

} // verus!
