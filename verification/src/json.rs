//! JSON documents as plain values, and the port bindings that
//! `docker inspect` reports in them.

use vstd::prelude::*;
use crate::ports;
use crate::text;

verus! {

/// A JSON value. Numbers are kept as their text; object fields keep their
/// order.
pub enum JsonValue {
    Null,
    Bool(bool),
    Number(String),
    Text(String),
    Array(Vec<JsonValue>),
    Object(Vec<(String, JsonValue)>),
}

/// The value of the first field named `key`.
pub open spec fn field_value(fields: Seq<(String, JsonValue)>, key: Seq<char>) -> Option<JsonValue>
    decreases fields.len(),
{
    if fields.len() == 0 {
        None
    } else if fields[0].0@ == key {
        Some(fields[0].1)
    } else {
        field_value(fields.drop_first(), key)
    }
}

/// `Value::get` with a field name: the field `key` of an object, none for
/// any other value.
pub open spec fn get(v: JsonValue, key: Seq<char>) -> Option<JsonValue> {
    match v {
        JsonValue::Object(fields) => field_value(fields@, key),
        _ => None,
    }
}

/// The port bindings of the first container in `docker inspect` output:
/// `[0].HostConfig.PortBindings`, when that is an object.
pub open spec fn port_bindings(v: JsonValue) -> Option<Seq<(String, JsonValue)>> {
    match v {
        JsonValue::Array(items) => if items@.len() == 0 {
            None
        } else {
            match get(items@[0], "HostConfig"@) {
                Some(hc) => match get(hc, "PortBindings"@) {
                    Some(JsonValue::Object(fields)) => Some(fields@),
                    _ => None,
                },
                None => None,
            }
        },
        _ => None,
    }
}

/// The `HostPort` text of one binding entry.
pub open spec fn host_port_text(entry: JsonValue) -> Option<Seq<char>> {
    match get(entry, "HostPort"@) {
        Some(JsonValue::Text(s)) => Some(s@),
        _ => None,
    }
}

/// The host port of one binding entry, when its `HostPort` is a port number.
pub open spec fn entry_host_port(entry: JsonValue) -> Option<u16> {
    match host_port_text(entry) {
        Some(h) => text::parse_u16(h),
        None => None,
    }
}

/// The host ports of the entries of one binding, when it is an array.
pub open spec fn binding_host_ports(binding: JsonValue) -> Seq<Option<u16>> {
    match binding {
        JsonValue::Array(entries) => entries@.map_values(|e: JsonValue| entry_host_port(e)),
        _ => Seq::<Option<u16>>::empty(),
    }
}

/// The host ports of the entries of all bindings, in order.
pub open spec fn all_host_ports(fields: Seq<(String, JsonValue)>) -> Seq<Option<u16>>
    decreases fields.len(),
{
    if fields.len() == 0 {
        Seq::<Option<u16>>::empty()
    } else {
        all_host_ports(fields.drop_last()) + binding_host_ports(fields.last().1)
    }
}

/// The `host:container` mapping of one binding entry of the container port
/// `container`, when both are port numbers.
pub open spec fn entry_mapping(entry: JsonValue, container: Seq<char>) -> Option<Seq<char>> {
    match host_port_text(entry) {
        Some(h) => if text::parse_u16(h).is_some() && text::parse_u16(container).is_some() {
            Some(ports::mapping_text(h, container))
        } else {
            None
        },
        None => None,
    }
}

/// The mappings of the entries of one binding whose key is `key`, such as
/// `80/tcp`.
pub open spec fn binding_mappings(key: Seq<char>, binding: JsonValue) -> Seq<Option<Seq<char>>> {
    match binding {
        JsonValue::Array(entries) => entries@.map_values(
            |e: JsonValue| entry_mapping(e, text::before_first(key, '/')),
        ),
        _ => Seq::<Option<Seq<char>>>::empty(),
    }
}

/// The mappings of the entries of all bindings, in order.
pub open spec fn all_mappings(fields: Seq<(String, JsonValue)>) -> Seq<Option<Seq<char>>>
    decreases fields.len(),
{
    if fields.len() == 0 {
        Seq::<Option<Seq<char>>>::empty()
    } else {
        all_mappings(fields.drop_last()) + binding_mappings(fields.last().0@, fields.last().1)
    }
}

/// The distinct host ports bound in `docker inspect` output, in order.
pub open spec fn spec_docker_inspect_ports(v: JsonValue) -> Seq<u16> {
    match port_bindings(v) {
        Some(fields) => ports::distinct_somes(all_host_ports(fields)),
        None => Seq::<u16>::empty(),
    }
}

/// The distinct `host:container` mappings bound in `docker inspect` output,
/// in order.
pub open spec fn spec_docker_inspect_port_mappings(v: JsonValue) -> Seq<Seq<char>> {
    match port_bindings(v) {
        Some(fields) => ports::distinct_somes(all_mappings(fields)),
        None => Seq::<Seq<char>>::empty(),
    }
}

/// The value of the field `key` of `v`, when `v` is an object that has one.
pub fn get_field<'a>(v: &'a JsonValue, key: &str) -> (r: Option<&'a JsonValue>)
    ensures
        match r {
            Some(x) => get(*v, key@) == Some(*x),
            None => get(*v, key@).is_none(),
        },
{
    match v {
        JsonValue::Object(fields) => {
            let mut i: usize = 0;
            assert(fields@.skip(0) =~= fields@);
            while i < fields.len()
                invariant
                    i <= fields@.len(),
                    get(*v, key@) == field_value(fields@, key@),
                    field_value(fields@, key@) == field_value(fields@.skip(i as int), key@),
                decreases fields.len() - i,
            {
                assert(fields@.skip(i as int)[0] == fields@[i as int]);
                if text::same_text(fields[i].0.as_str(), key) {
                    return Some(&fields[i].1);
                }
                assert(fields@.skip(i as int).drop_first() =~= fields@.skip(i + 1));
                i = i + 1;
            }
            assert(fields@.skip(fields@.len() as int) =~= Seq::<(String, JsonValue)>::empty());
            None
        },
        _ => None,
    }
}

/// The port bindings of the first container in `docker inspect` output.
fn port_bindings_of(v: &JsonValue) -> (r: Option<&Vec<(String, JsonValue)>>)
    ensures
        match r {
            Some(fields) => port_bindings(*v) == Some(fields@),
            None => port_bindings(*v).is_none(),
        },
{
    match v {
        JsonValue::Array(items) => {
            if items.len() == 0 {
                return None;
            }
            match get_field(&items[0], "HostConfig") {
                Some(hc) => match get_field(hc, "PortBindings") {
                    Some(JsonValue::Object(fields)) => Some(fields),
                    _ => None,
                },
                None => None,
            }
        },
        _ => None,
    }
}

/// The `HostPort` text of one binding entry.
fn host_port_text_of(entry: &JsonValue) -> (r: Option<&String>)
    ensures
        match r {
            Some(s) => host_port_text(*entry) == Some(s@),
            None => host_port_text(*entry).is_none(),
        },
{
    match get_field(entry, "HostPort") {
        Some(JsonValue::Text(s)) => Some(s),
        _ => None,
    }
}

/// The distinct host ports bound in `docker inspect` output, in order.
pub fn docker_inspect_ports(value: &JsonValue) -> (r: Vec<u16>)
    ensures
        r@ == spec_docker_inspect_ports(*value),
{
    let mut result: Vec<u16> = Vec::new();
    let fields = match port_bindings_of(value) {
        Some(f) => f,
        None => return result,
    };
    let mut i: usize = 0;
    assert(fields@.take(0) =~= Seq::<(String, JsonValue)>::empty());
    while i < fields.len()
        invariant
            i <= fields@.len(),
            port_bindings(*value) == Some(fields@),
            result@ == ports::distinct_somes(all_host_ports(fields@.take(i as int))),
        decreases fields.len() - i,
    {
        let ghost before = all_host_ports(fields@.take(i as int));
        assert(fields@.take(i + 1).drop_last() =~= fields@.take(i as int));
        assert(fields@.take(i + 1).last() == fields@[i as int]);
        let ghost items = binding_host_ports(fields@[i as int].1);
        assert(all_host_ports(fields@.take(i + 1)) == before + items);
        match &fields[i].1 {
            JsonValue::Array(entries) => {
                let mut j: usize = 0;
                assert(before + items.take(0) =~= before);
                while j < entries.len()
                    invariant
                        j <= entries@.len(),
                        items == entries@.map_values(|e: JsonValue| entry_host_port(e)),
                        result@ == ports::distinct_somes(before + items.take(j as int)),
                    decreases entries.len() - j,
                {
                    let p = match host_port_text_of(&entries[j]) {
                        Some(h) => {
                            let hc = text::chars_of(h.as_str());
                            text::parse_u16_chars(hc.as_slice())
                        },
                        None => None,
                    };
                    assert((before + items.take(j + 1)).drop_last() =~= before + items.take(
                        j as int,
                    ));
                    assert((before + items.take(j + 1)).last() == p);
                    if let Some(port) = p {
                        ports::push_unique_port(&mut result, port);
                    }
                    j = j + 1;
                }
                assert(items.take(entries@.len() as int) =~= items);
            },
            _ => {
                assert(before + items =~= before);
            },
        }
        i = i + 1;
    }
    assert(fields@.take(fields@.len() as int) =~= fields@);
    result
}

/// The distinct `host:container` mappings bound in `docker inspect` output,
/// in order.
pub fn docker_inspect_port_mappings(value: &JsonValue) -> (r: Vec<String>)
    ensures
        ports::string_views(r@) == spec_docker_inspect_port_mappings(*value),
{
    let mut result: Vec<String> = Vec::new();
    assert(ports::string_views(result@) =~= Seq::<Seq<char>>::empty());
    let fields = match port_bindings_of(value) {
        Some(f) => f,
        None => return result,
    };
    let mut i: usize = 0;
    assert(fields@.take(0) =~= Seq::<(String, JsonValue)>::empty());
    while i < fields.len()
        invariant
            i <= fields@.len(),
            port_bindings(*value) == Some(fields@),
            ports::string_views(result@) == ports::distinct_somes(
                all_mappings(fields@.take(i as int)),
            ),
        decreases fields.len() - i,
    {
        let ghost before = all_mappings(fields@.take(i as int));
        assert(fields@.take(i + 1).drop_last() =~= fields@.take(i as int));
        assert(fields@.take(i + 1).last() == fields@[i as int]);
        let ghost key = fields@[i as int].0@;
        let ghost items = binding_mappings(key, fields@[i as int].1);
        assert(all_mappings(fields@.take(i + 1)) == before + items);
        let key_chars = text::chars_of(fields[i].0.as_str());
        let container = text::before_first_chars(key_chars.as_slice(), '/');
        match &fields[i].1 {
            JsonValue::Array(entries) => {
                let mut j: usize = 0;
                assert(before + items.take(0) =~= before);
                while j < entries.len()
                    invariant
                        j <= entries@.len(),
                        container@ == text::before_first(key, '/'),
                        items == entries@.map_values(
                            |e: JsonValue| entry_mapping(e, text::before_first(key, '/')),
                        ),
                        ports::string_views(result@) == ports::distinct_somes(
                            before + items.take(j as int),
                        ),
                    decreases entries.len() - j,
                {
                    assert((before + items.take(j + 1)).drop_last() =~= before + items.take(
                        j as int,
                    ));
                    match host_port_text_of(&entries[j]) {
                        Some(h) => {
                            let hc = text::chars_of(h.as_str());
                            if text::parse_u16_chars(hc.as_slice()).is_some()
                                && text::parse_u16_chars(container.as_slice()).is_some() {
                                let m = ports::mapping_of(hc.as_slice(), container.as_slice());
                                assert((before + items.take(j + 1)).last() == Some(m@));
                                ports::push_unique_mapping(&mut result, m);
                            } else {
                                assert((before + items.take(j + 1)).last().is_none());
                            }
                        },
                        None => {
                            assert((before + items.take(j + 1)).last().is_none());
                        },
                    }
                    j = j + 1;
                }
                assert(items.take(entries@.len() as int) =~= items);
            },
            _ => {
                assert(before + items =~= before);
            },
        }
        i = i + 1;
    }
    assert(fields@.take(fields@.len() as int) =~= fields@);
    result
}

} // verus!
