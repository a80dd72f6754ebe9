use vstd::prelude::*;

use crate::chars::str_eq;
use crate::json::{as_text, field_of, text_of, JsonValue};

verus! {

// ---------------------------------------------------------------------------
// The tool registry
// ---------------------------------------------------------------------------

/// One parameter of a tool: its name, JSON type and description.
#[derive(Debug)]
pub struct ToolProperty {
    pub name: String,
    pub kind: String,
    pub description: String,
}

/// The JSON schema of a tool's arguments: an object with these properties, of which
/// `required` must be given.
#[derive(Debug)]
pub struct ToolParameters {
    pub properties: Vec<ToolProperty>,
    pub required: Vec<String>,
}

/// The function that a tool offers the model.
#[derive(Debug)]
pub struct ToolFunction {
    pub name: String,
    pub description: String,
    pub parameters: ToolParameters,
}

/// A tool as Ollama's chat API takes it.
#[derive(Debug)]
pub struct Tool {
    pub tool_type: String,
    pub function: ToolFunction,
}

/// Name, type and description of a parameter.
pub type PropertyView = (Seq<char>, Seq<char>, Seq<char>);

/// Properties and required names of a schema.
pub type ParametersView = (Seq<PropertyView>, Seq<Seq<char>>);

/// Type, name, description and parameters of a tool.
pub type ToolView = (Seq<char>, Seq<char>, Seq<char>, ParametersView);

impl View for ToolProperty {
    type V = PropertyView;

    open spec fn view(&self) -> PropertyView {
        (self.name@, self.kind@, self.description@)
    }
}

impl View for ToolParameters {
    type V = ParametersView;

    open spec fn view(&self) -> ParametersView {
        (
            self.properties@.map_values(|p: ToolProperty| p@),
            self.required@.map_values(|s: String| s@),
        )
    }
}

impl View for Tool {
    type V = ToolView;

    open spec fn view(&self) -> ToolView {
        (self.tool_type@, self.function.name@, self.function.description@, self.function.parameters@)
    }
}

/// Views of a vector of tools.
pub open spec fn tool_views(v: Seq<Tool>) -> Seq<ToolView> {
    v.map_values(|t: Tool| t@)
}

impl ToolParameters {
    /// A schema with no parameters.
    pub fn no_args() -> (p: ToolParameters)
        ensures
            p@ == (Seq::<PropertyView>::empty(), Seq::<Seq<char>>::empty()),
    {
        let p = ToolParameters { properties: Vec::new(), required: Vec::new() };
        assert(p@.0 =~= Seq::<PropertyView>::empty());
        assert(p@.1 =~= Seq::<Seq<char>>::empty());
        p
    }

    /// Adds a parameter of JSON type `kind`, required or not.
    pub fn with(self, name: &str, kind: &str, description: &str, required: bool) -> (p:
        ToolParameters)
        ensures
            p@.0 == self@.0.push((name@, kind@, description@)),
            p@.1 == (if required {
                self@.1.push(name@)
            } else {
                self@.1
            }),
    {
        let mut p = self;
        let ghost before = p@;
        p.properties.push(
            ToolProperty {
                name: String::from_str(name),
                kind: String::from_str(kind),
                description: String::from_str(description),
            },
        );
        if required {
            p.required.push(String::from_str(name));
        }
        assert(p@.0 =~= before.0.push((name@, kind@, description@)));
        assert(p@.1 =~= (if required {
            before.1.push(name@)
        } else {
            before.1
        }));
        p
    }
}

impl Tool {
    /// A tool of type `function`.
    pub fn new(name: &str, description: &str, parameters: ToolParameters) -> (t: Tool)
        ensures
            t@ == ("function"@, name@, description@, parameters@),
    {
        Tool {
            tool_type: String::from_str("function"),
            function: ToolFunction {
                name: String::from_str(name),
                description: String::from_str(description),
                parameters,
            },
        }
    }
}

/// A schema with no parameters.
pub open spec fn no_args() -> ParametersView {
    (Seq::empty(), Seq::empty())
}

/// The tools offered to the model, in order.
pub open spec fn registered_tools() -> Seq<ToolView> {
    seq![
        ("function"@, "echo_hello_world"@, "calls a .sh script to echo hello world"@, no_args()),
        ("function"@, "list_contents"@, "lists the contents of the pwd"@, no_args()),
        ("function"@, "spotify_get_devices"@, "gets active spotify client devices"@, no_args()),
        (
            "function"@,
            "spotify_search"@,
            "searches Spotify for tracks, albums, and playlists — returns a list of (name, uri) results; call spotify_play_content with the chosen uri"@,
            (
                seq![
                    (
                        "query"@,
                        "string"@,
                        "the search term e.g. artist name, track name, album name"@,
                    ),
                ],
                seq!["query"@],
            ),
        ),
        (
            "function"@,
            "spotify_play_content"@,
            "plays spotify content by uri on target or active client"@,
            (
                seq![
                    (
                        "uri"@,
                        "string"@,
                        "the spotify uri of the content to play e.g. spotify:track:..."@,
                    ),
                    (
                        "device_name"@,
                        "string"@,
                        "the name of the device to play on — omit to use the active device"@,
                    ),
                ],
                seq!["uri"@],
            ),
        ),
        ("function"@, "spotify_pause_content"@, "pauses spotify on active client"@, no_args()),
        ("function"@, "spotify_resume_content"@, "resumes spotify on active client"@, no_args()),
        (
            "function"@,
            "ha_get_devices"@,
            "lists the Home Assistant devices exposed to conversation, with their names, aliases, areas and current states"@,
            no_args(),
        ),
        (
            "function"@,
            "ha_toggle_device"@,
            "toggles a Home Assistant device on or off by its entity_id"@,
            (
                seq![
                    (
                        "entity_id"@,
                        "string"@,
                        "the entity_id of the device to toggle e.g. light.kitchen"@,
                    ),
                ],
                seq!["entity_id"@],
            ),
        ),
        (
            "function"@,
            "ha_reconnect"@,
            "re-establishes the Home Assistant connection without restarting the server"@,
            no_args(),
        ),
    ]
}

/// The tools offered to the model.
pub fn register_tools() -> (tools: Vec<Tool>)
    ensures
        tool_views(tools@) == registered_tools(),
{
    let search_params = ToolParameters::no_args().with(
        "query",
        "string",
        "the search term e.g. artist name, track name, album name",
        true,
    );
    let play_params = ToolParameters::no_args().with(
        "uri",
        "string",
        "the spotify uri of the content to play e.g. spotify:track:...",
        true,
    ).with(
        "device_name",
        "string",
        "the name of the device to play on — omit to use the active device",
        false,
    );
    let toggle_params = ToolParameters::no_args().with(
        "entity_id",
        "string",
        "the entity_id of the device to toggle e.g. light.kitchen",
        true,
    );
    let ghost expected = registered_tools();
    assert(toggle_params@.0 =~= expected[8].3.0);
    assert(toggle_params@.1 =~= expected[8].3.1);
    assert(search_params@.0 =~= expected[3].3.0);
    assert(search_params@.1 =~= expected[3].3.1);
    assert(play_params@.0 =~= expected[4].3.0);
    assert(play_params@.1 =~= expected[4].3.1);
    let mut tools: Vec<Tool> = Vec::new();
    tools.push(
        Tool::new(
            "echo_hello_world",
            "calls a .sh script to echo hello world",
            ToolParameters::no_args(),
        ),
    );
    tools.push(
        Tool::new("list_contents", "lists the contents of the pwd", ToolParameters::no_args()),
    );
    tools.push(
        Tool::new(
            "spotify_get_devices",
            "gets active spotify client devices",
            ToolParameters::no_args(),
        ),
    );
    tools.push(
        Tool::new(
            "spotify_search",
            "searches Spotify for tracks, albums, and playlists — returns a list of (name, uri) results; call spotify_play_content with the chosen uri",
            search_params,
        ),
    );
    tools.push(
        Tool::new(
            "spotify_play_content",
            "plays spotify content by uri on target or active client",
            play_params,
        ),
    );
    tools.push(
        Tool::new(
            "spotify_pause_content",
            "pauses spotify on active client",
            ToolParameters::no_args(),
        ),
    );
    tools.push(
        Tool::new(
            "spotify_resume_content",
            "resumes spotify on active client",
            ToolParameters::no_args(),
        ),
    );
    tools.push(
        Tool::new(
            "ha_get_devices",
            "lists the Home Assistant devices exposed to conversation, with their names, aliases, areas and current states",
            ToolParameters::no_args(),
        ),
    );
    tools.push(
        Tool::new(
            "ha_toggle_device",
            "toggles a Home Assistant device on or off by its entity_id",
            toggle_params,
        ),
    );
    tools.push(
        Tool::new(
            "ha_reconnect",
            "re-establishes the Home Assistant connection without restarting the server",
            ToolParameters::no_args(),
        ),
    );
    assert(tool_views(tools@) =~= registered_tools());
    tools
}

} // verus!

verus! {

// ---------------------------------------------------------------------------
// Dispatch
// ---------------------------------------------------------------------------

/// What a tool call asks for, with the arguments it uses.
#[derive(Debug)]
pub enum ToolAction {
    EchoHelloWorld,
    ListContents,
    SpotifyGetDevices,
    SpotifySearch { query: String },
    SpotifyPlayContent { device_name: String, uri: String },
    SpotifyPauseContent,
    SpotifyResumeContent,
    HaGetDevices,
    HaToggleDevice { entity_id: String },
    HaReconnect,
    Unknown,
}

/// What a tool call yields for the model.
#[derive(Debug)]
pub enum ToolResult {
    Output(String),
    Error(String),
}

/// `args[key].as_str().unwrap_or("")`.
pub open spec fn arg_text(args: JsonValue, key: Seq<char>) -> Seq<char> {
    match text_of(field_of(args, key)) {
        Some(s) => s,
        None => Seq::empty(),
    }
}

/// The action that the call `name(args)` asks for.
pub open spec fn planned(r: ToolAction, name: Seq<char>, args: JsonValue) -> bool {
    if name == "echo_hello_world"@ {
        r is EchoHelloWorld
    } else if name == "list_contents"@ {
        r is ListContents
    } else if name == "spotify_get_devices"@ {
        r is SpotifyGetDevices
    } else if name == "spotify_search"@ {
        r matches ToolAction::SpotifySearch { query } && query@ == arg_text(args, "query"@)
    } else if name == "spotify_play_content"@ {
        r matches ToolAction::SpotifyPlayContent { device_name, uri } && device_name@ == arg_text(
            args,
            "device_name"@,
        ) && uri@ == arg_text(args, "uri"@)
    } else if name == "spotify_pause_content"@ {
        r is SpotifyPauseContent
    } else if name == "spotify_resume_content"@ {
        r is SpotifyResumeContent
    } else if name == "ha_get_devices"@ {
        r is HaGetDevices
    } else if name == "ha_toggle_device"@ {
        r matches ToolAction::HaToggleDevice { entity_id } && entity_id@ == arg_text(
            args,
            "entity_id"@,
        )
    } else if name == "ha_reconnect"@ {
        r is HaReconnect
    } else {
        r is Unknown
    }
}

fn arg(args: &JsonValue, key: &str) -> (r: String)
    ensures
        r@ == arg_text(*args, key@),
{
    match as_text(args.field(key)) {
        Some(s) => s.clone(),
        None => String::new(),
    }
}

/// Routes a tool call by name, taking the string arguments it needs (a missing or
/// non-string argument reads as empty).
pub fn plan_tool_call(tool_name: &str, args: &JsonValue) -> (r: ToolAction)
    ensures
        planned(r, tool_name@, *args),
{
    if str_eq(tool_name, "echo_hello_world") {
        ToolAction::EchoHelloWorld
    } else if str_eq(tool_name, "list_contents") {
        ToolAction::ListContents
    } else if str_eq(tool_name, "spotify_get_devices") {
        ToolAction::SpotifyGetDevices
    } else if str_eq(tool_name, "spotify_search") {
        ToolAction::SpotifySearch { query: arg(args, "query") }
    } else if str_eq(tool_name, "spotify_play_content") {
        let device_name = arg(args, "device_name");
        let uri = arg(args, "uri");
        ToolAction::SpotifyPlayContent { device_name, uri }
    } else if str_eq(tool_name, "spotify_pause_content") {
        ToolAction::SpotifyPauseContent
    } else if str_eq(tool_name, "spotify_resume_content") {
        ToolAction::SpotifyResumeContent
    } else if str_eq(tool_name, "ha_get_devices") {
        ToolAction::HaGetDevices
    } else if str_eq(tool_name, "ha_toggle_device") {
        ToolAction::HaToggleDevice { entity_id: arg(args, "entity_id") }
    } else if str_eq(tool_name, "ha_reconnect") {
        ToolAction::HaReconnect
    } else {
        ToolAction::Unknown
    }
}

/// The action needs the Home Assistant client.
pub open spec fn needs_home_assistant(a: ToolAction) -> bool {
    a is HaGetDevices || a is HaToggleDevice || a is HaReconnect
}

/// The error given for a Home Assistant action when there is no client.
pub open spec fn no_client_error(a: ToolAction) -> Seq<char> {
    if a is HaReconnect {
        "Home Assistant client was never initialized"@
    } else {
        "Home Assistant is not connected"@
    }
}

/// The result of a Home Assistant action when there is no client; `None` for any other
/// action.
pub fn without_home_assistant(action: &ToolAction) -> (r: Option<ToolResult>)
    ensures
        needs_home_assistant(*action) ==> (r matches Some(ToolResult::Error(e)) && e@
            == no_client_error(*action)),
        !needs_home_assistant(*action) ==> r is None,
{
    match action {
        ToolAction::HaGetDevices | ToolAction::HaToggleDevice { .. } => Some(
            ToolResult::Error(String::from_str("Home Assistant is not connected")),
        ),
        ToolAction::HaReconnect => Some(
            ToolResult::Error(String::from_str("Home Assistant client was never initialized")),
        ),
        _ => None,
    }
}

/// The confirmation that an action without output reports, if it is one.
pub open spec fn confirmation(a: ToolAction) -> Option<Seq<char>> {
    match a {
        ToolAction::SpotifyPlayContent { .. } => Some("Playback started"@),
        ToolAction::SpotifyPauseContent => Some("Paused"@),
        ToolAction::SpotifyResumeContent => Some("Resumed"@),
        ToolAction::HaToggleDevice { .. } => Some("toggled"@),
        ToolAction::HaReconnect => Some("reconnected to Home Assistant"@),
        _ => None,
    }
}

/// The result `r` reports `outcome` of `a`.
pub open spec fn reports(r: ToolResult, a: ToolAction, outcome: Result<Seq<char>, Seq<char>>) -> bool {
    if a is Unknown {
        r matches ToolResult::Error(e) && e@ == "unknown tool"@
    } else {
        match outcome {
            Ok(out) => match confirmation(a) {
                Some(c) => r matches ToolResult::Output(o) && o@ == c,
                None => r matches ToolResult::Output(o) && o@ == out,
            },
            Err(err) => r matches ToolResult::Error(e) && e@ == err,
        }
    }
}

/// The result of a finished action: its output (or, for actions without output, a
/// fixed confirmation), or its error; an unknown tool is an error whatever happened.
pub fn tool_result(action: &ToolAction, outcome: Result<String, String>) -> (r: ToolResult)
    ensures
        reports(
            r,
            *action,
            match outcome {
                Ok(s) => Ok(s@),
                Err(e) => Err(e@),
            },
        ),
{
    match action {
        ToolAction::Unknown => {
            return ToolResult::Error(String::from_str("unknown tool"));
        },
        _ => {},
    }
    match outcome {
        Err(e) => ToolResult::Error(e),
        Ok(out) => match action {
            ToolAction::SpotifyPlayContent { .. } => ToolResult::Output(
                String::from_str("Playback started"),
            ),
            ToolAction::SpotifyPauseContent => ToolResult::Output(String::from_str("Paused")),
            ToolAction::SpotifyResumeContent => ToolResult::Output(String::from_str("Resumed")),
            ToolAction::HaToggleDevice { .. } => ToolResult::Output(String::from_str("toggled")),
            ToolAction::HaReconnect => ToolResult::Output(
                String::from_str("reconnected to Home Assistant"),
            ),
            _ => ToolResult::Output(out),
        },
    }
}

/// The name of the tool that carries out an action (nothing for `Unknown`).
pub open spec fn tool_name_of(a: ToolAction) -> Seq<char> {
    match a {
        ToolAction::EchoHelloWorld => "echo_hello_world"@,
        ToolAction::ListContents => "list_contents"@,
        ToolAction::SpotifyGetDevices => "spotify_get_devices"@,
        ToolAction::SpotifySearch { .. } => "spotify_search"@,
        ToolAction::SpotifyPlayContent { .. } => "spotify_play_content"@,
        ToolAction::SpotifyPauseContent => "spotify_pause_content"@,
        ToolAction::SpotifyResumeContent => "spotify_resume_content"@,
        ToolAction::HaGetDevices => "ha_get_devices"@,
        ToolAction::HaToggleDevice { .. } => "ha_toggle_device"@,
        ToolAction::HaReconnect => "ha_reconnect"@,
        ToolAction::Unknown => Seq::empty(),
    }
}

/// Every tool offered to the model is routed to the action of that same tool.
pub proof fn law_registered_tools_are_dispatched(i: int, args: JsonValue, r: ToolAction)
    requires
        0 <= i < registered_tools().len(),
        planned(r, registered_tools()[i].1, args),
    ensures
        !(r is Unknown),
        tool_name_of(r) == registered_tools()[i].1,
{
}

/// A call is never routed to another tool's action: whenever a call named `name` is
/// planned as a known action, that action is the one of the tool named `name`.
pub proof fn law_calls_route_to_their_own_tool(name: Seq<char>, args: JsonValue, r: ToolAction)
    requires
        planned(r, name, args),
        !(r is Unknown),
    ensures
        tool_name_of(r) == name,
{
}

} // verus!
