//! Configuration presets: validating their identifiers and contents, and
//! summarising what a preset holds.

use vstd::prelude::*;
use crate::json::Json;
use crate::text::chars_of;
use vstd::string::StringSliceAdditionalSpecFns;

verus! {

/// What a preset holds, for display.
#[derive(Clone, Debug)]
pub struct UnifiedPresetSummary {
    pub settings_count: usize,
    pub model: Option<String>,
    pub mcp_server_count: usize,
    pub mcp_server_names: Vec<String>,
    pub has_permissions: bool,
    pub has_hooks: bool,
    pub has_env_vars: bool,
}

/// A stored preset: settings and server configuration as JSON text.
#[derive(Clone, Debug)]
pub struct UnifiedPresetData {
    pub id: String,
    pub name: String,
    pub description: Option<String>,
    pub created_at: String,
    pub updated_at: String,
    pub settings: String,
    pub mcp_servers: String,
    pub summary: UnifiedPresetSummary,
}

/// A preset to create (no id) or update.
#[derive(Clone, Debug)]
pub struct UnifiedPresetInput {
    pub id: Option<String>,
    pub name: String,
    pub description: Option<String>,
    pub settings: String,
    pub mcp_servers: String,
}

/// Why a preset identifier is refused.
#[derive(Clone, Copy, Debug, PartialEq, Eq, Structural)]
pub enum PresetIdError {
    Empty,
    TooLong,
    InvalidCharacters,
}

impl PresetIdError {
    /// A readable description of the error.
    pub fn message(&self) -> (r: String)
        ensures
            r@ == match self {
                PresetIdError::Empty => "Preset ID cannot be empty"@,
                PresetIdError::TooLong => "Preset ID too long (max 64 characters)"@,
                PresetIdError::InvalidCharacters => "Preset ID must contain only alphanumeric characters and hyphens"@,
            },
    {
        match self {
            PresetIdError::Empty => "Preset ID cannot be empty".to_owned(),
            PresetIdError::TooLong => "Preset ID too long (max 64 characters)".to_owned(),
            PresetIdError::InvalidCharacters => "Preset ID must contain only alphanumeric characters and hyphens".to_owned(),
        }
    }
}

/// Whether Unicode counts `c` as alphabetic or numeric.
pub uninterp spec fn alphanumeric(c: char) -> bool;

/// Relies on `char::is_alphanumeric`: whether the character has the
/// Unicode `Alphabetic` property or is numeric.
#[verifier::external_body]
fn is_alphanumeric(c: char) -> (r: bool)
    ensures
        r == alphanumeric(c),
{
    c.is_alphanumeric()
}

/// The longest identifier, in bytes.
pub const MAX_PRESET_ID_BYTES: usize = 64;

/// Every character is alphanumeric or a hyphen.
pub open spec fn id_chars_ok(s: Seq<char>) -> bool {
    forall|i: int| 0 <= i < s.len() ==> alphanumeric(#[trigger] s[i]) || s[i] == '-'
}

/// Checks a preset identifier: not empty, at most 64 bytes, and only
/// alphanumeric characters and hyphens, so that it is safe as a file name.
pub fn validate_preset_id(id: &str) -> (r: Result<(), PresetIdError>)
    ensures
        r == if id@.len() == 0 {
            Err(PresetIdError::Empty)
        } else if id.spec_bytes().len() as usize > MAX_PRESET_ID_BYTES {
            Err(PresetIdError::TooLong)
        } else if !id_chars_ok(id@) {
            Err(PresetIdError::InvalidCharacters)
        } else {
            Ok(())
        },
{
    let cs = chars_of(id);
    if cs.len() == 0 {
        return Err(PresetIdError::Empty);
    }
    if id.len() > MAX_PRESET_ID_BYTES {
        return Err(PresetIdError::TooLong);
    }
    let mut i: usize = 0;
    while i < cs.len()
        invariant
            cs@ == id@,
            id@.len() > 0,
            id.spec_bytes().len() as usize <= MAX_PRESET_ID_BYTES,
            i <= cs@.len(),
            forall|j: int| 0 <= j < i ==> alphanumeric(#[trigger] cs@[j]) || cs@[j] == '-',
        decreases cs@.len() - i,
    {
        if !(is_alphanumeric(cs[i]) || cs[i] == '-') {
            assert(!(alphanumeric(id@[i as int]) || id@[i as int] == '-'));
            return Err(PresetIdError::InvalidCharacters);
        }
        i = i + 1;
    }
    Ok(())
}

/// Why preset contents are refused.
#[derive(Clone, Copy, Debug, PartialEq, Eq, Structural)]
pub enum PresetInputError {
    /// The settings text is not JSON.
    InvalidSettings,
    /// The settings are JSON but not an object.
    SettingsNotObject,
    /// The server configuration text is not JSON.
    InvalidMcpServers,
    /// The server configuration is JSON but not an object.
    McpServersNotObject,
}

impl PresetInputError {
    /// A readable description of the error.
    pub fn message(&self) -> (r: String)
        ensures
            r@ == match self {
                PresetInputError::InvalidSettings => "Invalid settings JSON"@,
                PresetInputError::SettingsNotObject => "Settings must be a JSON object"@,
                PresetInputError::InvalidMcpServers => "Invalid mcp_servers JSON"@,
                PresetInputError::McpServersNotObject => "MCP servers must be a JSON object"@,
            },
    {
        match self {
            PresetInputError::InvalidSettings => "Invalid settings JSON".to_owned(),
            PresetInputError::SettingsNotObject => "Settings must be a JSON object".to_owned(),
            PresetInputError::InvalidMcpServers => "Invalid mcp_servers JSON".to_owned(),
            PresetInputError::McpServersNotObject => "MCP servers must be a JSON object".to_owned(),
        }
    }
}

/// Checks parsed preset contents (`None` where the text did not parse):
/// both must be JSON objects; the settings are checked first.
pub fn validate_preset_input(settings: Option<&Json>, mcp_servers: Option<&Json>) -> (r: Result<(), PresetInputError>)
    ensures
        r == match settings {
            None => Err(PresetInputError::InvalidSettings),
            Some(s) => if !(*s is Object) {
                Err(PresetInputError::SettingsNotObject)
            } else {
                match mcp_servers {
                    None => Err(PresetInputError::InvalidMcpServers),
                    Some(m) => if !(*m is Object) {
                        Err(PresetInputError::McpServersNotObject)
                    } else {
                        Ok(())
                    },
                }
            },
        },
{
    match settings {
        None => Err(PresetInputError::InvalidSettings),
        Some(s) => match s {
            Json::Object(_) => match mcp_servers {
                None => Err(PresetInputError::InvalidMcpServers),
                Some(m) => match m {
                    Json::Object(_) => Ok(()),
                    _ => Err(PresetInputError::McpServersNotObject),
                },
            },
            _ => Err(PresetInputError::SettingsNotObject),
        },
    }
}

/// The number of server names a summary lists.
pub const LISTED_SERVERS: usize = 5;

/// The settings keys a summary counts.
pub open spec fn counted_keys() -> Seq<Seq<char>> {
    seq![
        "model"@,
        "language"@,
        "permissions"@,
        "hooks"@,
        "env"@,
        "alwaysThinkingEnabled"@,
        "autoUpdatesChannel"@,
        "attribution"@,
    ]
}

/// How many of the first `n` counted keys the settings have.
pub open spec fn present_count(settings: Json, n: int) -> nat
    decreases n,
{
    if n <= 0 {
        0
    } else {
        present_count(settings, n - 1) + if settings.field(counted_keys()[n - 1]) is Some { 1nat } else { 0nat }
    }
}

/// A member that is an object with at least one member.
pub open spec fn non_empty_object(v: Option<Json>) -> bool {
    match v {
        Some(Json::Object(members)) => members@.len() > 0,
        _ => false,
    }
}

/// A member that is an array with at least one item.
pub open spec fn non_empty_array(v: Option<Json>) -> bool {
    match v {
        Some(Json::Array(items)) => items@.len() > 0,
        _ => false,
    }
}

/// The permissions are an object with a non-empty `allow`, `deny` or `ask` list.
pub open spec fn grants_permissions(settings: Json) -> bool {
    match settings.field("permissions"@) {
        Some(p) => p is Object && (non_empty_array(p.field("allow"@)) || non_empty_array(p.field("deny"@))
            || non_empty_array(p.field("ask"@))),
        None => false,
    }
}

/// The member names of an object, none for any other value.
pub open spec fn member_names(v: Json) -> Seq<Seq<char>> {
    match v {
        Json::Object(members) => members@.map_values(|m: (String, Json)| m.0@),
        _ => Seq::empty(),
    }
}

fn non_empty_array_at(v: &Json, key: &str) -> (r: bool)
    ensures
        r == non_empty_array(v.field(key@)),
{
    match v.get(key) {
        Some(Json::Array(items)) => items.len() > 0,
        _ => false,
    }
}

fn non_empty_object_at(v: &Json, key: &str) -> (r: bool)
    ensures
        r == non_empty_object(v.field(key@)),
{
    match v.get(key) {
        Some(Json::Object(members)) => members.len() > 0,
        _ => false,
    }
}

/// Summarises a preset from its parsed settings and server configuration
/// (`Json::Null` stands for text that did not parse).
pub fn compute_summary(settings: &Json, mcp: &Json) -> (r: UnifiedPresetSummary)
    ensures
        r.settings_count == present_count(*settings, 8),
        match r.model {
            Some(m) => settings.field_text("model"@) == Some(m@),
            None => settings.field_text("model"@) is None,
        },
        r.mcp_server_count == member_names(*mcp).len(),
        r.mcp_server_names@.map_values(|s: String| s@) == member_names(*mcp).take(
            if member_names(*mcp).len() < LISTED_SERVERS { member_names(*mcp).len() as int } else { LISTED_SERVERS as int },
        ),
        r.has_permissions == grants_permissions(*settings),
        r.has_hooks == non_empty_object(settings.field("hooks"@)),
        r.has_env_vars == non_empty_object(settings.field("env"@)),
{
    let keys: [&str; 8] = ["model", "language", "permissions", "hooks", "env", "alwaysThinkingEnabled", "autoUpdatesChannel", "attribution"];
    let mut settings_count: usize = 0;
    let mut i: usize = 0;
    while i < 8
        invariant
            i <= 8,
            settings_count == present_count(*settings, i as int),
            settings_count <= i,
            forall|j: int| 0 <= j < 8 ==> (#[trigger] keys@[j])@ == counted_keys()[j],
        decreases 8 - i,
    {
        if settings.get(keys[i]).is_some() {
            settings_count = settings_count + 1;
        }
        i = i + 1;
    }
    let model = match settings.get_str("model") {
        Some(m) => Some(m.clone()),
        None => None,
    };
    let mut names: Vec<String> = Vec::new();
    let mut count: usize = 0;
    match mcp {
        Json::Object(members) => {
            count = members.len();
            let mut k: usize = 0;
            while k < members.len() && k < LISTED_SERVERS
                invariant
                    *mcp == Json::Object(*members),
                    k <= members@.len(),
                    k <= LISTED_SERVERS,
                    names@.map_values(|s: String| s@) == member_names(*mcp).subrange(0, k as int),
                decreases members@.len() - k,
            {
                let ghost prev = names@;
                assert(member_names(*mcp).len() == members@.len());
                let name = members[k].0.clone();
                names.push(name);
                assert(names@.map_values(|s: String| s@) =~= prev.map_values(|s: String| s@).push(name@));
                assert(names@.map_values(|s: String| s@) =~= member_names(*mcp).subrange(0, k + 1));
                k = k + 1;
            }
            assert(member_names(*mcp).len() == members@.len());
            let ghost n: int = if member_names(*mcp).len() < LISTED_SERVERS { member_names(*mcp).len() as int } else { LISTED_SERVERS as int };
            assert(k == n);
            assert(member_names(*mcp).take(n) =~= member_names(*mcp).subrange(0, n));
            assert(names@.map_values(|s: String| s@) =~= member_names(*mcp).take(
                if member_names(*mcp).len() < LISTED_SERVERS { member_names(*mcp).len() as int } else { LISTED_SERVERS as int },
            ));
        },
        _ => {
            assert(names@.map_values(|s: String| s@) =~= member_names(*mcp).take(0));
        },
    }
    let has_permissions = match settings.get("permissions") {
        Some(p) => match p {
            Json::Object(_) => non_empty_array_at(p, "allow") || non_empty_array_at(p, "deny") || non_empty_array_at(p, "ask"),
            _ => false,
        },
        None => false,
    };
    UnifiedPresetSummary {
        settings_count,
        model,
        mcp_server_count: count,
        mcp_server_names: names,
        has_permissions,
        has_hooks: non_empty_object_at(settings, "hooks"),
        has_env_vars: non_empty_object_at(settings, "env"),
    }
}

/// The preset to store for `input`: an update keeps the given id and the
/// stored creation time, a new preset takes `new_id` and is created now.
/// Where `input` names an id, `stored_created_at` is the stored preset's
/// creation time.
pub fn preset_for_save(
    input: UnifiedPresetInput,
    summary: UnifiedPresetSummary,
    new_id: String,
    stored_created_at: String,
    now: String,
) -> (r: UnifiedPresetData)
    ensures
        r.id == match input.id {
            Some(id) => id,
            None => new_id,
        },
        r.created_at == if input.id is Some { stored_created_at } else { now },
        r.updated_at == now,
        r.name == input.name,
        r.description == input.description,
        r.settings == input.settings,
        r.mcp_servers == input.mcp_servers,
        r.summary == summary,
{
    let (id, created_at) = match input.id {
        Some(id) => (id, stored_created_at),
        None => (new_id, now.clone()),
    };
    UnifiedPresetData {
        id,
        name: input.name,
        description: input.description,
        created_at,
        updated_at: now,
        settings: input.settings,
        mcp_servers: input.mcp_servers,
        summary,
    }
}

} // verus!
