use vstd::prelude::*;

use crate::json::{
    as_array, as_text, as_u64, deref_opt, field_of, field_of_opt, field_opt, is_null_or_missing,
    is_true, json_is_true, null_or_missing, text_of, u64_of, JsonValue,
};
use crate::string_map::StringMap;
use crate::tts::string_views;

verus! {

// ---------------------------------------------------------------------------
// Settings
// ---------------------------------------------------------------------------

/// The Home Assistant WebSocket endpoint (`HOME_ASSISTANT_ENDPOINT`).
pub fn ha_url(conf: &StringMap) -> (r: Option<&str>)
    ensures
        r matches Some(v) ==> conf@.contains_key("HOME_ASSISTANT_ENDPOINT"@) && v@
            == conf@["HOME_ASSISTANT_ENDPOINT"@],
        r is None ==> !conf@.contains_key("HOME_ASSISTANT_ENDPOINT"@),
{
    conf.get("HOME_ASSISTANT_ENDPOINT")
}

/// The Home Assistant access token (`HOME_ASSISTANT_TOKEN`).
pub fn ha_token(conf: &StringMap) -> (r: Option<&str>)
    ensures
        r matches Some(v) ==> conf@.contains_key("HOME_ASSISTANT_TOKEN"@) && v@
            == conf@["HOME_ASSISTANT_TOKEN"@],
        r is None ==> !conf@.contains_key("HOME_ASSISTANT_TOKEN"@),
{
    conf.get("HOME_ASSISTANT_TOKEN")
}

// ---------------------------------------------------------------------------
// Devices
// ---------------------------------------------------------------------------

/// An area of the home.
#[derive(Debug)]
pub struct HaArea {
    pub id: String,
    pub name: String,
    pub aliases: Vec<String>,
}

/// An entity that Home Assistant exposes to conversation agents.
#[derive(Debug)]
pub struct HaDevice {
    pub entity_id: String,
    pub friendly_name: String,
    pub aliases: Vec<String>,
    /// The name of the entity's area.
    pub area: Option<String>,
    pub state: String,
}

/// Id, name and aliases of an area.
pub type AreaView = (Seq<char>, Seq<char>, Seq<Seq<char>>);

/// Entity id, friendly name, aliases, area name and state of a device.
pub type DeviceView = (Seq<char>, Seq<char>, Seq<Seq<char>>, Option<Seq<char>>, Seq<char>);

impl View for HaArea {
    type V = AreaView;

    open spec fn view(&self) -> AreaView {
        (self.id@, self.name@, string_views(self.aliases@))
    }
}

impl View for HaDevice {
    type V = DeviceView;

    open spec fn view(&self) -> DeviceView {
        (
            self.entity_id@,
            self.friendly_name@,
            string_views(self.aliases@),
            match self.area {
                Some(a) => Some(a@),
                None => None,
            },
            self.state@,
        )
    }
}

/// The items of a JSON array; nothing for any other value.
pub open spec fn items_opt(v: Option<JsonValue>) -> Seq<JsonValue> {
    match v {
        Some(JsonValue::Array(items)) => items@,
        _ => Seq::empty(),
    }
}

/// The strings among `items`, in order.
pub open spec fn texts_of(items: Seq<JsonValue>) -> Seq<Seq<char>>
    decreases items.len(),
{
    if items.len() == 0 {
        Seq::empty()
    } else {
        let rest = texts_of(items.drop_last());
        match items.last() {
            JsonValue::Text(s) => rest.push(s@),
            _ => rest,
        }
    }
}

/// An entry of the area registry, if it has an id and a name.
pub open spec fn area_entry(a: JsonValue) -> Option<AreaView> {
    match (text_of(field_of(a, "area_id"@)), text_of(field_of(a, "name"@))) {
        (Some(id), Some(name)) => Some((id, name, texts_of(items_opt(field_of(a, "aliases"@))))),
        _ => None,
    }
}

/// The area with id `id`; of several, the last.
pub open spec fn area_lookup(areas: Seq<JsonValue>, id: Seq<char>) -> Option<AreaView>
    decreases areas.len(),
{
    if areas.len() == 0 {
        None
    } else {
        match area_entry(areas.last()) {
            Some(a) if a.0 == id => Some(a),
            _ => area_lookup(areas.drop_last(), id),
        }
    }
}

/// The state of entity `id`; of several, the last.
pub open spec fn state_lookup(states: Seq<JsonValue>, id: Seq<char>) -> Option<Seq<char>>
    decreases states.len(),
{
    if states.len() == 0 {
        None
    } else {
        let s = states.last();
        match (text_of(field_of(s, "entity_id"@)), text_of(field_of(s, "state"@))) {
            (Some(eid), Some(st)) if eid == id => Some(st),
            _ => state_lookup(states.drop_last(), id),
        }
    }
}

/// The device that an entity registry entry describes: only enabled entities exposed
/// to conversation, with a friendly name falling back from `name` to `original_name` to
/// the entity id, the name of its area, and a state of `unknown` when none is reported.
pub open spec fn device_spec(e: JsonValue, states: Seq<JsonValue>, areas: Seq<JsonValue>) -> Option<
    DeviceView,
> {
    if !is_null_or_missing(field_of(e, "disabled_by"@)) {
        None
    } else if !is_true(
        field_opt(field_opt(field_of(e, "options"@), "conversation"@), "should_expose"@),
    ) {
        None
    } else {
        match text_of(field_of(e, "entity_id"@)) {
            None => None,
            Some(id) => {
                let name = match text_of(field_of(e, "name"@)) {
                    Some(n) => n,
                    None => match text_of(field_of(e, "original_name"@)) {
                        Some(n) => n,
                        None => id,
                    },
                };
                let area = match text_of(field_of(e, "area_id"@)) {
                    Some(aid) => match area_lookup(areas, aid) {
                        Some(a) => Some(a.1),
                        None => None,
                    },
                    None => None,
                };
                let state = match state_lookup(states, id) {
                    Some(s) => s,
                    None => "unknown"@,
                };
                Some((id, name, texts_of(items_opt(field_of(e, "aliases"@))), area, state))
            },
        }
    }
}

/// The devices of an entity registry, in registry order.
pub open spec fn devices_spec(
    entities: Seq<JsonValue>,
    states: Seq<JsonValue>,
    areas: Seq<JsonValue>,
) -> Seq<DeviceView>
    decreases entities.len(),
{
    if entities.len() == 0 {
        Seq::empty()
    } else {
        let rest = devices_spec(entities.drop_last(), states, areas);
        match device_spec(entities.last(), states, areas) {
            Some(d) => rest.push(d),
            None => rest,
        }
    }
}

/// Views of a vector of devices.
pub open spec fn device_views(v: Seq<HaDevice>) -> Seq<DeviceView> {
    v.map_values(|d: HaDevice| d@)
}

fn texts(items: Option<&Vec<JsonValue>>) -> (r: Vec<String>)
    ensures
        string_views(r@) == texts_of(
            match items {
                Some(v) => v@,
                None => Seq::empty(),
            },
        ),
{
    let mut out: Vec<String> = Vec::new();
    match items {
        None => {
            assert(string_views(out@) =~= Seq::<Seq<char>>::empty());
        },
        Some(v) => {
            let mut i: usize = 0;
            while i < v.len()
                invariant
                    i <= v.len(),
                    string_views(out@) == texts_of(v@.take(i as int)),
                decreases v.len() - i,
            {
                assert(v@.take(i + 1).drop_last() =~= v@.take(i as int));
                let ghost before = out@;
                match &v[i] {
                    JsonValue::Text(s) => {
                        out.push(s.clone());
                        assert(string_views(out@) =~= string_views(before).push(s@));
                    },
                    _ => {},
                }
                i = i + 1;
            }
            assert(v@.take(i as int) =~= v@);
        },
    }
    out
}

fn area_of(a: &JsonValue) -> (r: Option<HaArea>)
    ensures
        r matches Some(x) ==> area_entry(*a) == Some(x@),
        r is None ==> area_entry(*a) is None,
{
    let id = as_text(a.field("area_id"));
    let name = as_text(a.field("name"));
    match (id, name) {
        (Some(id), Some(name)) => {
            let aliases = texts(as_array(a.field("aliases")));
            Some(HaArea { id: id.clone(), name: name.clone(), aliases })
        },
        _ => None,
    }
}

fn find_area(areas: Option<&Vec<JsonValue>>, id: &String) -> (r: Option<HaArea>)
    ensures
        r matches Some(x) ==> area_lookup(
            match areas {
                Some(v) => v@,
                None => Seq::empty(),
            },
            id@,
        ) == Some(x@),
        r is None ==> area_lookup(
            match areas {
                Some(v) => v@,
                None => Seq::empty(),
            },
            id@,
        ) is None,
{
    match areas {
        None => None,
        Some(v) => {
            let mut i = v.len();
            assert(v@.take(i as int) =~= v@);
            while i > 0
                invariant
                    i <= v.len(),
                    area_lookup(v@, id@) == area_lookup(v@.take(i as int), id@),
                    areas == Some(v),
                decreases i,
            {
                assert(v@.take(i as int).drop_last() =~= v@.take(i - 1));
                assert(v@.take(i as int).last() == v@[i - 1]);
                match area_of(&v[i - 1]) {
                    Some(a) => {
                        if a.id == *id {
                            return Some(a);
                        }
                    },
                    None => {},
                }
                i = i - 1;
            }
            None
        },
    }
}

fn find_state(states: Option<&Vec<JsonValue>>, id: &String) -> (r: Option<String>)
    ensures
        r matches Some(x) ==> state_lookup(
            match states {
                Some(v) => v@,
                None => Seq::empty(),
            },
            id@,
        ) == Some(x@),
        r is None ==> state_lookup(
            match states {
                Some(v) => v@,
                None => Seq::empty(),
            },
            id@,
        ) is None,
{
    match states {
        None => None,
        Some(v) => {
            let mut i = v.len();
            assert(v@.take(i as int) =~= v@);
            while i > 0
                invariant
                    i <= v.len(),
                    state_lookup(v@, id@) == state_lookup(v@.take(i as int), id@),
                    states == Some(v),
                decreases i,
            {
                assert(v@.take(i as int).drop_last() =~= v@.take(i - 1));
                assert(v@.take(i as int).last() == v@[i - 1]);
                let s = &v[i - 1];
                match (as_text(s.field("entity_id")), as_text(s.field("state"))) {
                    (Some(eid), Some(st)) => {
                        if *eid == *id {
                            return Some(st.clone());
                        }
                    },
                    _ => {},
                }
                i = i - 1;
            }
            None
        },
    }
}

fn device_from(
    e: &JsonValue,
    states: Option<&Vec<JsonValue>>,
    areas: Option<&Vec<JsonValue>>,
) -> (r: Option<HaDevice>)
    ensures
        r matches Some(d) ==> device_spec(
            *e,
            match states {
                Some(v) => v@,
                None => Seq::empty(),
            },
            match areas {
                Some(v) => v@,
                None => Seq::empty(),
            },
        ) == Some(d@),
        r is None ==> device_spec(
            *e,
            match states {
                Some(v) => v@,
                None => Seq::empty(),
            },
            match areas {
                Some(v) => v@,
                None => Seq::empty(),
            },
        ) is None,
{
    if !null_or_missing(e.field("disabled_by")) {
        return None;
    }
    let expose = field_of_opt(field_of_opt(e.field("options"), "conversation"), "should_expose");
    if !json_is_true(expose) {
        return None;
    }
    let id = match as_text(e.field("entity_id")) {
        Some(id) => id,
        None => {
            return None;
        },
    };
    let name = match as_text(e.field("name")) {
        Some(n) => n.clone(),
        None => match as_text(e.field("original_name")) {
            Some(n) => n.clone(),
            None => id.clone(),
        },
    };
    let aliases = texts(as_array(e.field("aliases")));
    let area = match as_text(e.field("area_id")) {
        Some(aid) => match find_area(areas, aid) {
            Some(a) => Some(a.name),
            None => None,
        },
        None => None,
    };
    let state = match find_state(states, id) {
        Some(s) => s,
        None => String::from_str("unknown"),
    };
    Some(HaDevice { entity_id: id.clone(), friendly_name: name, aliases, area, state })
}

/// The devices that Home Assistant exposes, from its state list, entity registry and
/// area registry: enabled entities exposed to conversation, each with its friendly
/// name, aliases, area and current state.
pub fn build_devices(states: &JsonValue, entities: &JsonValue, areas: &JsonValue) -> (r: Vec<
    HaDevice,
>)
    ensures
        device_views(r@) == devices_spec(
            items_opt(Some(*entities)),
            items_opt(Some(*states)),
            items_opt(Some(*areas)),
        ),
{
    let st = as_array(Some(states));
    let ar = as_array(Some(areas));
    let mut out: Vec<HaDevice> = Vec::new();
    match as_array(Some(entities)) {
        None => {
            assert(device_views(out@) =~= Seq::<DeviceView>::empty());
        },
        Some(es) => {
            let mut i: usize = 0;
            while i < es.len()
                invariant
                    i <= es.len(),
                    device_views(out@) == devices_spec(
                        es@.take(i as int),
                        items_opt(Some(*states)),
                        items_opt(Some(*areas)),
                    ),
                    st matches Some(v) ==> items_opt(Some(*states)) == v@,
                    st is None ==> items_opt(Some(*states)) == Seq::<JsonValue>::empty(),
                    ar matches Some(v) ==> items_opt(Some(*areas)) == v@,
                    ar is None ==> items_opt(Some(*areas)) == Seq::<JsonValue>::empty(),
                decreases es.len() - i,
            {
                assert(es@.take(i + 1).drop_last() =~= es@.take(i as int));
                let ghost before = out@;
                match device_from(&es[i], st, ar) {
                    Some(d) => {
                        out.push(d);
                        assert(device_views(out@) =~= device_views(before).push(d@));
                    },
                    None => {},
                }
                i = i + 1;
            }
            assert(es@.take(i as int) =~= es@);
        },
    }
    out
}

} // verus!

verus! {

// ---------------------------------------------------------------------------
// The WebSocket API's messages
// ---------------------------------------------------------------------------

/// The message's `type` is `expected` (`parsed["type"] == expected`).
pub fn has_type(msg: &JsonValue, expected: &str) -> (r: bool)
    ensures
        r == (text_of(field_of(*msg, "type"@)) == Some(expected@)),
{
    match as_text(msg.field("type")) {
        Some(t) => {
            let e = String::from_str(expected);
            *t == e
        },
        None => false,
    }
}

/// The id of a command's response, as the 32-bit message id it answers.
pub fn response_id(msg: &JsonValue) -> (r: Option<u32>)
    ensures
        r == (match u64_of(field_of(*msg, "id"@)) {
            Some(n) => Some(n as u32),
            None => None,
        }),
{
    match as_u64(msg.field("id")) {
        Some(n) => Some(n as u32),
        None => None,
    }
}

/// A command's response: `Ok` with its `result` when `success` is `true`, else `Err`
/// with its `error`. A missing member is `None`.
pub fn command_result(res: &JsonValue) -> (r: Result<Option<&JsonValue>, Option<&JsonValue>>)
    ensures
        is_true(field_of(*res, "success"@)) ==> (r matches Ok(v) && deref_opt(v) == field_of(
            *res,
            "result"@,
        )),
        !is_true(field_of(*res, "success"@)) ==> (r matches Err(e) && deref_opt(e) == field_of(
            *res,
            "error"@,
        )),
{
    if json_is_true(res.field("success")) {
        Ok(res.field("result"))
    } else {
        Err(res.field("error"))
    }
}

/// An entity registry entry that is enabled and exposed to conversation.
pub open spec fn is_exposed(e: JsonValue) -> bool {
    &&& is_null_or_missing(field_of(e, "disabled_by"@))
    &&& is_true(field_opt(field_opt(field_of(e, "options"@), "conversation"@), "should_expose"@))
}

/// Some exposed entity of the registry has the entity id `id`.
pub open spec fn has_exposed_entity(entities: Seq<JsonValue>, id: Seq<char>) -> bool {
    exists|j: int|
        0 <= j < entities.len() && is_exposed(#[trigger] entities[j]) && text_of(
            field_of(entities[j], "entity_id"@),
        ) == Some(id)
}

/// Every device listed is an enabled entity of the registry that is exposed to
/// conversation, listed under its own entity id.
pub proof fn law_devices_are_exposed_entities(
    entities: Seq<JsonValue>,
    states: Seq<JsonValue>,
    areas: Seq<JsonValue>,
)
    ensures
        forall|i: int|
            0 <= i < devices_spec(entities, states, areas).len() ==> has_exposed_entity(
                entities,
                (#[trigger] devices_spec(entities, states, areas)[i]).0,
            ),
    decreases entities.len(),
{
    if entities.len() > 0 {
        let init = entities.drop_last();
        law_devices_are_exposed_entities(init, states, areas);
        let rest = devices_spec(init, states, areas);
        let all = devices_spec(entities, states, areas);
        assert forall|i: int| 0 <= i < all.len() implies has_exposed_entity(
            entities,
            (#[trigger] all[i]).0,
        ) by {
            if i < rest.len() {
                assert(all[i] == rest[i]);
                assert(has_exposed_entity(init, rest[i].0));
                let j = choose|j: int|
                    0 <= j < init.len() && is_exposed(#[trigger] init[j]) && text_of(
                        field_of(init[j], "entity_id"@),
                    ) == Some(rest[i].0);
                assert(entities[j] == init[j]);
            } else {
                let j = entities.len() - 1;
                assert(entities[j] == entities.last());
            }
        }
    }
}

} // verus!

verus! {

/// Some entry of the area registry has the area id that an entity with id `id` names,
/// and the name `name`.
pub open spec fn area_named_by_entity(
    entities: Seq<JsonValue>,
    areas: Seq<JsonValue>,
    id: Seq<char>,
    name: Seq<char>,
) -> bool {
    exists|j: int, k: int|
        0 <= j < entities.len() && 0 <= k < areas.len() && text_of(
            field_of(#[trigger] entities[j], "entity_id"@),
        ) == Some(id) && text_of(field_of(entities[j], "area_id"@)) is Some && text_of(
            field_of(#[trigger] areas[k], "area_id"@),
        ) == text_of(field_of(entities[j], "area_id"@)) && text_of(field_of(areas[k], "name"@))
            == Some(name)
}

proof fn lemma_area_lookup(areas: Seq<JsonValue>, id: Seq<char>)
    ensures
        area_lookup(areas, id) matches Some(a) ==> exists|k: int|
            0 <= k < areas.len() && text_of(field_of(#[trigger] areas[k], "area_id"@)) == Some(id)
                && text_of(field_of(areas[k], "name"@)) == Some(a.1),
    decreases areas.len(),
{
    if areas.len() > 0 {
        let init = areas.drop_last();
        lemma_area_lookup(init, id);
        match area_entry(areas.last()) {
            Some(a) if a.0 == id => {
                assert(areas[areas.len() - 1] == areas.last());
            },
            _ => {
                if let Some(a) = area_lookup(init, id) {
                    let k = choose|k: int|
                        0 <= k < init.len() && text_of(field_of(#[trigger] init[k], "area_id"@))
                            == Some(id) && text_of(field_of(init[k], "name"@)) == Some(a.1);
                    assert(areas[k] == init[k]);
                }
            },
        }
    }
}

/// A device's area is the one its entity names: when a device has an area, the area
/// registry holds an entry whose area id is the one of an entity with the device's id,
/// and whose name is the device's area.
pub proof fn law_device_areas_match_their_entities(
    entities: Seq<JsonValue>,
    states: Seq<JsonValue>,
    areas: Seq<JsonValue>,
)
    ensures
        forall|i: int|
            0 <= i < devices_spec(entities, states, areas).len() ==> ((#[trigger] devices_spec(
                entities,
                states,
                areas,
            )[i]).3 matches Some(name) ==> area_named_by_entity(
                entities,
                areas,
                devices_spec(entities, states, areas)[i].0,
                name,
            )),
    decreases entities.len(),
{
    if entities.len() > 0 {
        let init = entities.drop_last();
        law_device_areas_match_their_entities(init, states, areas);
        let rest = devices_spec(init, states, areas);
        let all = devices_spec(entities, states, areas);
        let e = entities.last();
        let last = entities.len() - 1;
        assert(entities[last] == e);
        if let Some(aid) = text_of(field_of(e, "area_id"@)) {
            lemma_area_lookup(areas, aid);
        }
        assert forall|i: int| 0 <= i < all.len() implies ((#[trigger] all[i]).3 matches Some(
            name,
        ) ==> area_named_by_entity(entities, areas, all[i].0, name)) by {
            if i < rest.len() {
                assert(all[i] == rest[i]);
                if let Some(name) = rest[i].3 {
                    assert(area_named_by_entity(init, areas, rest[i].0, name));
                    let (j, k) = choose|j: int, k: int|
                        0 <= j < init.len() && 0 <= k < areas.len() && text_of(
                            field_of(#[trigger] init[j], "entity_id"@),
                        ) == Some(rest[i].0) && text_of(field_of(init[j], "area_id"@)) is Some
                            && text_of(field_of(#[trigger] areas[k], "area_id"@)) == text_of(
                            field_of(init[j], "area_id"@),
                        ) && text_of(field_of(areas[k], "name"@)) == Some(name);
                    assert(entities[j] == init[j]);
                }
            } else {
                if let Some(name) = all[i].3 {
                    let aid = text_of(field_of(e, "area_id"@))->0;
                    let a = area_lookup(areas, aid)->0;
                    let k = choose|k: int|
                        0 <= k < areas.len() && text_of(field_of(#[trigger] areas[k], "area_id"@))
                            == Some(aid) && text_of(field_of(areas[k], "name"@)) == Some(a.1);
                    assert(text_of(field_of(entities[last], "entity_id"@)) == Some(all[i].0));
                }
            }
        }
    }
}

} // verus!
