use astra::home_assistant::{build_devices, command_result, has_type, response_id};
use astra::json::{JsonMember, JsonNumber, JsonValue};
use astra::spotify::{
    device_id_for, devices_by_name, play_request, search_results, spotify_get_devices,
    SpotifyDevice, SpotifySearchItem, SpotifySearchPage, SpotifySearchResponse,
};
use astra::tools::{
    plan_tool_call, register_tools, tool_result, without_home_assistant, ToolAction, ToolResult,
};

fn s(x: &str) -> JsonValue {
    JsonValue::Text(x.to_string())
}

fn obj(members: Vec<(&str, JsonValue)>) -> JsonValue {
    JsonValue::Object(
        members
            .into_iter()
            .map(|(k, v)| JsonMember { key: k.to_string(), value: v })
            .collect(),
    )
}

fn exposed(entity: &str, extra: Vec<(&str, JsonValue)>) -> JsonValue {
    let mut members = vec![
        ("entity_id", s(entity)),
        ("disabled_by", JsonValue::Null),
        (
            "options",
            obj(vec![("conversation", obj(vec![("should_expose", JsonValue::Bool(true))]))]),
        ),
    ];
    members.extend(extra);
    obj(members)
}

#[test]
fn build_devices_joins_states_entities_and_areas() {
    let states = JsonValue::Array(vec![
        obj(vec![("entity_id", s("light.kitchen")), ("state", s("on"))]),
        obj(vec![("entity_id", s("switch.fan")), ("state", s("off"))]),
    ]);
    let areas = JsonValue::Array(vec![obj(vec![
        ("area_id", s("kitchen")),
        ("name", s("Kitchen")),
        ("aliases", JsonValue::Array(vec![s("cookhouse")])),
    ])]);
    let entities = JsonValue::Array(vec![
        exposed(
            "light.kitchen",
            vec![
                ("name", s("Kitchen Light")),
                ("area_id", s("kitchen")),
                ("aliases", JsonValue::Array(vec![s("ceiling"), JsonValue::Null, s("main")])),
            ],
        ),
        exposed("sensor.temp", vec![("original_name", s("Temperature"))]),
        exposed("switch.fan", vec![]),
        obj(vec![("entity_id", s("light.hidden"))]),
        obj(vec![
            ("entity_id", s("light.disabled")),
            ("disabled_by", s("user")),
            (
                "options",
                obj(vec![("conversation", obj(vec![("should_expose", JsonValue::Bool(true))]))]),
            ),
        ]),
    ]);
    let devices = build_devices(&states, &entities, &areas);
    assert_eq!(devices.len(), 3);
    assert_eq!(devices[0].entity_id, "light.kitchen");
    assert_eq!(devices[0].friendly_name, "Kitchen Light");
    assert_eq!(devices[0].aliases, vec!["ceiling", "main"]);
    assert_eq!(devices[0].area, Some("Kitchen".to_string()));
    assert_eq!(devices[0].state, "on");
    assert_eq!(devices[1].friendly_name, "Temperature");
    assert_eq!(devices[1].state, "unknown");
    assert!(devices[1].area.is_none());
    assert_eq!(devices[2].friendly_name, "switch.fan");
    assert_eq!(devices[2].state, "off");
}

#[test]
fn build_devices_of_non_arrays_is_empty() {
    let devices = build_devices(&JsonValue::Null, &JsonValue::Bool(false), &JsonValue::Null);
    assert!(devices.is_empty());
}

#[test]
fn ha_messages() {
    let m = obj(vec![("type", s("auth_required"))]);
    assert!(has_type(&m, "auth_required"));
    assert!(!has_type(&m, "auth_ok"));
    assert!(!has_type(&JsonValue::Null, "auth_ok"));
    let r = obj(vec![("id", JsonValue::Number(JsonNumber::PosInt(4_294_967_297)))]);
    assert_eq!(response_id(&r), Some(1));
    let neg = obj(vec![("id", JsonValue::Number(JsonNumber::NegInt(-1)))]);
    assert_eq!(response_id(&neg), None);
}

#[test]
fn command_results() {
    let ok = obj(vec![("success", JsonValue::Bool(true)), ("result", s("done"))]);
    match command_result(&ok) {
        Ok(Some(JsonValue::Text(t))) => assert_eq!(t, "done"),
        other => panic!("unexpected {:?}", other),
    }
    let failed = obj(vec![("success", JsonValue::Bool(false)), ("error", s("bad"))]);
    match command_result(&failed) {
        Err(Some(JsonValue::Text(t))) => assert_eq!(t, "bad"),
        other => panic!("unexpected {:?}", other),
    }
    let truthy = obj(vec![("success", s("true"))]);
    assert!(matches!(command_result(&truthy), Err(None)));
}

#[test]
fn register_tools_lists_the_tools() {
    let tools = register_tools();
    let names: Vec<&str> = tools.iter().map(|t| t.function.name.as_str()).collect();
    assert_eq!(
        names,
        vec![
            "echo_hello_world",
            "list_contents",
            "spotify_get_devices",
            "spotify_search",
            "spotify_play_content",
            "spotify_pause_content",
            "spotify_resume_content",
            "ha_get_devices",
            "ha_toggle_device",
            "ha_reconnect",
        ]
    );
    assert!(tools.iter().all(|t| t.tool_type == "function"));
    assert_eq!(tools[3].function.parameters.required, vec!["query"]);
    assert_eq!(tools[4].function.parameters.properties.len(), 2);
    assert_eq!(tools[4].function.parameters.properties[1].name, "device_name");
    assert!(tools[0].function.parameters.properties.is_empty());
    assert_eq!(tools[8].function.parameters.required, vec!["entity_id"]);
    assert!(tools[7].function.parameters.properties.is_empty());
    assert!(tools[9].function.parameters.required.is_empty());
}

#[test]
fn every_registered_tool_is_dispatched() {
    for t in register_tools() {
        let action = plan_tool_call(&t.function.name, &JsonValue::Null);
        assert!(!matches!(action, ToolAction::Unknown), "{}", t.function.name);
    }
}

#[test]
fn plan_tool_call_takes_string_arguments() {
    let args = obj(vec![("uri", s("spotify:album:1")), ("device_name", JsonValue::Bool(true))]);
    match plan_tool_call("spotify_play_content", &args) {
        ToolAction::SpotifyPlayContent { device_name, uri } => {
            assert_eq!(uri, "spotify:album:1");
            assert_eq!(device_name, "");
        }
        other => panic!("unexpected {:?}", other),
    }
    match plan_tool_call("ha_toggle_device", &obj(vec![("entity_id", s("light.a"))])) {
        ToolAction::HaToggleDevice { entity_id } => assert_eq!(entity_id, "light.a"),
        other => panic!("unexpected {:?}", other),
    }
    assert!(matches!(plan_tool_call("rm_rf", &args), ToolAction::Unknown));
}

#[test]
fn tool_results_report_outcomes() {
    let search = ToolAction::SpotifySearch { query: "x".to_string() };
    assert!(matches!(tool_result(&search, Ok("[]".to_string())), ToolResult::Output(o) if o == "[]"));
    assert!(matches!(tool_result(&search, Err("boom".to_string())), ToolResult::Error(e) if e == "boom"));
    assert!(matches!(tool_result(&ToolAction::SpotifyPauseContent, Ok(String::new())), ToolResult::Output(o) if o == "Paused"));
    assert!(matches!(tool_result(&ToolAction::SpotifyResumeContent, Ok(String::new())), ToolResult::Output(o) if o == "Resumed"));
    let play = ToolAction::SpotifyPlayContent { device_name: String::new(), uri: String::new() };
    assert!(matches!(tool_result(&play, Ok(String::new())), ToolResult::Output(o) if o == "Playback started"));
    assert!(matches!(tool_result(&ToolAction::HaReconnect, Ok(String::new())), ToolResult::Output(o) if o == "reconnected to Home Assistant"));
    let toggle = ToolAction::HaToggleDevice { entity_id: String::new() };
    assert!(matches!(tool_result(&toggle, Ok(String::new())), ToolResult::Output(o) if o == "toggled"));
    assert!(matches!(tool_result(&ToolAction::Unknown, Ok("x".to_string())), ToolResult::Error(e) if e == "unknown tool"));
}

#[test]
fn home_assistant_actions_without_a_client() {
    assert!(matches!(without_home_assistant(&ToolAction::HaGetDevices), Some(ToolResult::Error(e)) if e == "Home Assistant is not connected"));
    assert!(matches!(without_home_assistant(&ToolAction::HaReconnect), Some(ToolResult::Error(e)) if e == "Home Assistant client was never initialized"));
    assert!(without_home_assistant(&ToolAction::ListContents).is_none());
}

fn item(name: &str, uri: &str) -> Option<SpotifySearchItem> {
    Some(SpotifySearchItem { name: name.to_string(), uri: uri.to_string() })
}

#[test]
fn search_results_lists_tracks_albums_then_playlists() {
    let response = SpotifySearchResponse {
        tracks: Some(SpotifySearchPage { items: vec![item("T1", "spotify:track:1"), None, item("T2", "spotify:track:2")] }),
        albums: None,
        playlists: Some(SpotifySearchPage { items: vec![item("P", "spotify:playlist:9")] }),
    };
    let results = search_results(&response);
    let expected: Vec<(String, String)> = vec![
        ("T1".to_string(), "spotify:track:1".to_string()),
        ("T2".to_string(), "spotify:track:2".to_string()),
        ("P".to_string(), "spotify:playlist:9".to_string()),
    ];
    assert_eq!(results, expected);
}

fn device(name: &str, id: &str) -> SpotifyDevice {
    SpotifyDevice {
        id: id.to_string(),
        is_active: false,
        is_private_session: false,
        is_restricted: false,
        name: name.to_string(),
        supports_volume: true,
        device_type: "Speaker".to_string(),
        volume_percent: Some(50),
    }
}

#[test]
fn spotify_devices_by_name() {
    let devices = devices_by_name(&vec![device("Kitchen", "k1"), device("Office", "o1"), device("Kitchen", "k2")]);
    assert_eq!(device_id_for(&devices, "Kitchen"), Some("k2".to_string()));
    assert_eq!(device_id_for(&devices, "Office"), Some("o1".to_string()));
    assert_eq!(device_id_for(&devices, ""), None);
    let mut names = spotify_get_devices(&devices);
    names.sort();
    assert_eq!(names, vec!["Kitchen", "Office"]);
}

#[test]
fn play_request_for_tracks_and_contexts() {
    let t = play_request("spotify:track:abc");
    assert_eq!(t.uris, Some(vec!["spotify:track:abc".to_string()]));
    assert!(t.context_uri.is_none());
    assert!(t.offset.is_none());
    assert_eq!(t.position_ms, 0);
    let a = play_request("spotify:album:xyz");
    assert_eq!(a.context_uri, Some("spotify:album:xyz".to_string()));
    assert!(a.uris.is_none());
    let short = play_request("spotify:trac");
    assert!(short.uris.is_none());
    let no_colon = play_request("spotify:trackX");
    assert_eq!(no_colon.context_uri, Some("spotify:trackX".to_string()));
    assert!(no_colon.uris.is_none());
}
