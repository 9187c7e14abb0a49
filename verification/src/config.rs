//! Configuration: the command-line loop configuration with its validation,
//! and the desktop application configuration with its defaults.
use vstd::prelude::*;
use crate::text::{chars_of, decimal, push_decimal, push_str, string_of};
use crate::json::{get, Json, JsonValue};
use crate::json_write::{json_string, push_json_string};

verus! {

/// One subscription of the command-line loop.
pub struct SubscriptionConfig {
    /// Unique name of the subscription.
    pub name: String,
    /// Webhook relay channel URL.
    pub smee_url: String,
    pub enabled: bool,
    /// Instructions put before every event.
    pub base_prompt: String,
    /// Working directory; the default workspace when absent.
    pub workspace: Option<String>,
    /// Reporter name; `console` when absent.
    pub reporter: Option<String>,
    /// Pattern that the event JSON must match.
    pub filter_regex: Option<String>,
    /// Name of the WASM policy plugin (without `.wasm`).
    pub wasm_policy: Option<String>,
}

/// The command-line loop configuration.
pub struct LoopConfig {
    pub default_workspace: String,
    pub subscriptions: Vec<SubscriptionConfig>,
}

/// Why a configuration is refused.
#[derive(Debug, Clone, Copy, PartialEq, Eq, Structural)]
pub enum ConfigError {
    /// `defaultWorkspace` is empty.
    EmptyDefaultWorkspace,
    /// The name of the subscription at this index is empty.
    EmptyName(usize),
    /// The relay URL of the subscription at this index is empty.
    EmptySmeeUrl(usize),
}

/// The first problem of a configuration, checking the default workspace, then
/// each subscription in order (its name before its URL).
pub open spec fn first_problem(config: LoopConfig) -> Option<ConfigError> {
    if config.default_workspace@.len() == 0 {
        Some(ConfigError::EmptyDefaultWorkspace)
    } else {
        sub_problem(config.subscriptions@, 0)
    }
}

pub open spec fn sub_problem(subs: Seq<SubscriptionConfig>, from: int) -> Option<ConfigError>
    decreases subs.len() - from,
{
    if from < 0 || from >= subs.len() {
        None
    } else if subs[from].name@.len() == 0 {
        Some(ConfigError::EmptyName(from as usize))
    } else if subs[from].smee_url@.len() == 0 {
        Some(ConfigError::EmptySmeeUrl(from as usize))
    } else {
        sub_problem(subs, from + 1)
    }
}

/// Every subscription from `from` on has a non-empty name and relay URL.
pub open spec fn subs_complete(subs: Seq<SubscriptionConfig>, from: int) -> bool {
    forall|k: int| from <= k < subs.len() ==> (#[trigger] subs[k]).name@.len() > 0 && subs[k].smee_url@.len() > 0
}

proof fn lemma_sub_problem_range(subs: Seq<SubscriptionConfig>, from: int)
    requires
        0 <= from,
        subs.len() <= usize::MAX,
    ensures
        sub_problem(subs, from) is None <==> subs_complete(subs, from),
        sub_problem(subs, from) != Some(ConfigError::EmptyDefaultWorkspace),
        sub_problem(subs, from) matches Some(ConfigError::EmptyName(x)) ==> from <= x < subs.len()
            && subs_complete(subs.take(x as int), from) && subs[x as int].name@.len() == 0,
        sub_problem(subs, from) matches Some(ConfigError::EmptySmeeUrl(x)) ==> from <= x < subs.len()
            && subs_complete(subs.take(x as int), from) && subs[x as int].name@.len() > 0
            && subs[x as int].smee_url@.len() == 0,
    decreases subs.len() - from,
{
    if from < subs.len() {
        lemma_sub_problem_range(subs, from + 1);
        if subs[from].name@.len() > 0 && subs[from].smee_url@.len() > 0 {
            assert(subs_complete(subs, from + 1) ==> subs_complete(subs, from));
            match sub_problem(subs, from + 1) {
                Some(ConfigError::EmptyName(x)) => {
                    assert forall|k: int| from <= k < subs.take(x as int).len() implies (#[trigger] subs.take(
                        x as int,
                    )[k]).name@.len() > 0 && subs.take(x as int)[k].smee_url@.len() > 0 by {
                        if k == from {
                            assert(subs.take(x as int)[k] == subs[from]);
                        }
                    }
                },
                Some(ConfigError::EmptySmeeUrl(x)) => {
                    assert forall|k: int| from <= k < subs.take(x as int).len() implies (#[trigger] subs.take(
                        x as int,
                    )[k]).name@.len() > 0 && subs.take(x as int)[k].smee_url@.len() > 0 by {
                        if k == from {
                            assert(subs.take(x as int)[k] == subs[from]);
                        }
                    }
                },
                _ => {},
            }
        } else {
            assert(!subs_complete(subs, from)) by {
                assert(subs[from] == subs[from]);
            }
            assert(subs.take(from).len() == from);
        }
    }
}

/// The problem found from `from` on names the first subscription that
/// misses something: if all before `i` are complete and `i` misses its name
/// (or has a name but misses its URL), that is the problem.
proof fn lemma_sub_problem_first(subs: Seq<SubscriptionConfig>, from: int, i: int)
    requires
        0 <= from <= i < subs.len(),
        subs.len() <= usize::MAX,
        forall|k: int| from <= k < i ==> (#[trigger] subs[k]).name@.len() > 0 && subs[k].smee_url@.len() > 0,
    ensures
        subs[i].name@.len() == 0 ==> sub_problem(subs, from) == Some(ConfigError::EmptyName(i as usize)),
        subs[i].name@.len() > 0 && subs[i].smee_url@.len() == 0 ==> sub_problem(subs, from) == Some(
            ConfigError::EmptySmeeUrl(i as usize),
        ),
    decreases i - from,
{
    if from < i {
        lemma_sub_problem_first(subs, from + 1, i);
    }
}

/// A loop configuration is accepted exactly when its default workspace and
/// every subscription's name and relay URL are non-empty. Otherwise the
/// problem named is the first one met, in order: the default workspace,
/// then each subscription's name and then its relay URL; so the first
/// subscription with a name and an empty relay URL, when nothing before it
/// is missing, is named as `EmptySmeeUrl` with its index.
pub proof fn law_config_checked(config: LoopConfig, i: int)
    ensures
        first_problem(config) is None <==> (config.default_workspace@.len() > 0 && forall|k: int|
            0 <= k < config.subscriptions@.len() ==> (#[trigger] config.subscriptions@[k]).name@.len() > 0
                && config.subscriptions@[k].smee_url@.len() > 0),
        (first_problem(config) == Some(ConfigError::EmptyDefaultWorkspace)) <==> config.default_workspace@.len()
            == 0,
        0 <= i < config.subscriptions@.len() ==> (first_problem(config) == Some(ConfigError::EmptySmeeUrl(i as usize))
            <==> (config.default_workspace@.len() > 0 && (forall|k: int|
            0 <= k < i ==> (#[trigger] config.subscriptions@[k]).name@.len() > 0
                && config.subscriptions@[k].smee_url@.len() > 0) && config.subscriptions@[i].name@.len() > 0
            && config.subscriptions@[i].smee_url@.len() == 0)),
        0 <= i < config.subscriptions@.len() ==> (first_problem(config) == Some(ConfigError::EmptyName(i as usize))
            <==> (config.default_workspace@.len() > 0 && (forall|k: int|
            0 <= k < i ==> (#[trigger] config.subscriptions@[k]).name@.len() > 0
                && config.subscriptions@[k].smee_url@.len() > 0) && config.subscriptions@[i].name@.len() == 0)),
{
    let subs = config.subscriptions@;
    assert(subs.len() <= usize::MAX) by {
        assert(config.subscriptions.len() == subs.len());
    }
    lemma_sub_problem_range(subs, 0);
    if 0 <= i < subs.len() && config.default_workspace@.len() > 0 {
        if forall|k: int| 0 <= k < i ==> (#[trigger] subs[k]).name@.len() > 0 && subs[k].smee_url@.len() > 0 {
            lemma_sub_problem_first(subs, 0, i);
        }
        match sub_problem(subs, 0) {
            Some(ConfigError::EmptyName(x)) => {
                assert forall|k: int| 0 <= k < x implies (#[trigger] subs[k]).name@.len() > 0 && subs[k].smee_url@.len() > 0 by {
                    assert(subs.take(x as int)[k] == subs[k]);
                }
                if x as int != i {
                    if (x as int) < i {
                    } else {
                        assert(subs.take(x as int)[i] == subs[i]);
                    }
                }
            },
            Some(ConfigError::EmptySmeeUrl(x)) => {
                assert forall|k: int| 0 <= k < x implies (#[trigger] subs[k]).name@.len() > 0 && subs[k].smee_url@.len() > 0 by {
                    assert(subs.take(x as int)[k] == subs[k]);
                }
                if x as int != i {
                    if (x as int) < i {
                    } else {
                        assert(subs.take(x as int)[i] == subs[i]);
                    }
                }
            },
            _ => {},
        }
    }
}

/// Checks a loop configuration: `Ok` exactly when it has no problem,
/// otherwise its first problem.
pub fn validate_config(config: &LoopConfig) -> (r: Result<(), ConfigError>)
    ensures
        match r {
            Ok(_) => first_problem(*config) is None,
            Err(e) => first_problem(*config) == Some(e),
        },
{
    if config.default_workspace.as_str().is_empty() {
        return Err(ConfigError::EmptyDefaultWorkspace);
    }
    let subs = &config.subscriptions;
    let mut i: usize = 0;
    while i < subs.len()
        invariant
            i <= subs@.len(),
            subs@ == config.subscriptions@,
            config.default_workspace@.len() > 0,
            sub_problem(subs@, 0) == sub_problem(subs@, i as int),
        decreases subs@.len() - i,
    {
        if subs[i].name.as_str().is_empty() {
            return Err(ConfigError::EmptyName(i));
        }
        if subs[i].smee_url.as_str().is_empty() {
            return Err(ConfigError::EmptySmeeUrl(i));
        }
        i = i + 1;
    }
    Ok(())
}

/// The text of a configuration problem.
pub open spec fn problem_text(e: ConfigError) -> Seq<char> {
    match e {
        ConfigError::EmptyDefaultWorkspace => "配置文件格式错误：defaultWorkspace 不能为空"@,
        ConfigError::EmptyName(i) => "subscriptions["@ + decimal(i as nat) + "].name 必须是非空字符串"@,
        ConfigError::EmptySmeeUrl(i) => "subscriptions["@ + decimal(i as nat)
            + "].smeeUrl 必须是非空字符串"@,
    }
}

impl ConfigError {
    /// The message shown for this problem.
    pub fn message(&self) -> (r: String)
        ensures
            r@ == problem_text(*self),
    {
        let mut v: Vec<char> = Vec::new();
        match self {
            ConfigError::EmptyDefaultWorkspace => {
                push_str(&mut v, "配置文件格式错误：defaultWorkspace 不能为空");
            },
            ConfigError::EmptyName(i) => {
                push_str(&mut v, "subscriptions[");
                push_decimal(&mut v, *i as u64);
                push_str(&mut v, "].name 必须是非空字符串");
            },
            ConfigError::EmptySmeeUrl(i) => {
                push_str(&mut v, "subscriptions[");
                push_decimal(&mut v, *i as u64);
                push_str(&mut v, "].smeeUrl 必须是非空字符串");
            },
        }
        string_of(v.as_slice())
    }
}

/// The configuration file written on first start, for the given home
/// directory: a JSON object whose `defaultWorkspace` is the directory as a
/// JSON string literal (quoted and escaped) and whose `subscriptions` are empty.
pub open spec fn default_config_text(home: Seq<char>) -> Seq<char> {
    "{\n  \"defaultWorkspace\": "@ + json_string(home) + ",\n  \"subscriptions\": []\n}\n"@
}

/// The configuration file written on first start: the home directory as
/// default workspace, written as an escaped JSON string, and no subscriptions.
pub fn default_config_content(home: &str) -> (r: String)
    ensures
        r@ == default_config_text(home@),
{
    let mut v: Vec<char> = Vec::new();
    push_str(&mut v, "{\n  \"defaultWorkspace\": ");
    push_json_string(&mut v, home);
    push_str(&mut v, ",\n  \"subscriptions\": []\n}\n");
    string_of(v.as_slice())
}

/// An agent of the desktop application: a webhook trigger bound to a session
/// of the agent bridge.
pub struct Agent {
    pub name: String,
    /// Webhook relay URL that triggers the agent.
    pub webhook_url: String,
    pub enabled: bool,
    pub base_prompt: String,
    /// Bridge project the agent's session is bound to; empty for the default project.
    pub project: String,
    pub reporter: Option<String>,
    /// Filter setting: `none`, `regex:<patterns>` or a policy plugin name.
    pub filter_regex: Option<String>,
}

impl Agent {
    /// A copy of the agent.
    pub fn duplicate(&self) -> (r: Agent)
        ensures
            r == *self,
    {
        Agent {
            name: self.name.clone(),
            webhook_url: self.webhook_url.clone(),
            enabled: self.enabled,
            base_prompt: self.base_prompt.clone(),
            project: self.project.clone(),
            reporter: match &self.reporter {
                Some(s) => Some(s.clone()),
                None => None,
            },
            filter_regex: match &self.filter_regex {
                Some(s) => Some(s.clone()),
                None => None,
            },
        }
    }
}

impl Default for Agent {
    /// A blank, enabled agent reporting to the console.
    fn default() -> (r: Agent)
        ensures
            r.name@ == Seq::<char>::empty(),
            r.webhook_url@ == Seq::<char>::empty(),
            r.enabled,
            r.base_prompt@ == Seq::<char>::empty(),
            r.project@ == Seq::<char>::empty(),
            r.reporter matches Some(s) && s@ == "console"@,
            r.filter_regex is None,
    {
        Agent {
            name: String::new(),
            webhook_url: String::new(),
            enabled: true,
            base_prompt: String::new(),
            project: String::new(),
            reporter: Some(string_of(chars_of("console").as_slice())),
            filter_regex: None,
        }
    }
}

/// The desktop application configuration.
pub struct AppConfig {
    /// Bridge WebSocket endpoint.
    pub ws_url: String,
    /// Bridge authentication token.
    pub bridge_token: String,
    /// Command line that starts the bridge.
    pub cc_connect_command: String,
    pub agents: Vec<Agent>,
}

/// The command that starts the bridge when none is configured: `cc-connect`.
pub fn default_cc_connect_command() -> (r: String)
    ensures
        r@ == "cc-connect"@,
{
    string_of(chars_of("cc-connect").as_slice())
}

impl Default for AppConfig {
    /// The local bridge endpoint, no token, the default start command, no agents.
    fn default() -> (r: AppConfig)
        ensures
            r.ws_url@ == "ws://localhost:9810/bridge/ws"@,
            r.bridge_token@ == Seq::<char>::empty(),
            r.cc_connect_command@ == "cc-connect"@,
            r.agents@.len() == 0,
    {
        AppConfig {
            ws_url: string_of(chars_of("ws://localhost:9810/bridge/ws").as_slice()),
            bridge_token: String::new(),
            cc_connect_command: default_cc_connect_command(),
            agents: Vec::new(),
        }
    }
}

// ── projects of the bridge configuration ────────────────────────

/// `toml::Value`, carried opaquely into the conversion helper.
#[verifier::external_type_specification]
#[verifier::external_body]
pub struct ExTomlValue(toml::Value);

/// The TOML document that `toml` parses from `text` (as a table), written as
/// JSON-like data: strings, booleans, integers (by their decimal text),
/// arrays and tables keep their values; floats and datetimes become null.
pub uninterp spec fn toml_document(text: Seq<char>) -> Option<Json>;

/// Writes a `toml::Value` as a [`JsonValue`], variant by variant.
#[verifier::external_body]
fn from_toml(v: &toml::Value) -> JsonValue {
    match v {
        toml::Value::String(s) => JsonValue::Str(s.clone()),
        toml::Value::Integer(i) => JsonValue::Number(i.to_string()),
        toml::Value::Boolean(b) => JsonValue::Bool(*b),
        toml::Value::Array(a) => JsonValue::Array(a.iter().map(from_toml).collect()),
        toml::Value::Table(t) => JsonValue::Object(t.iter().map(|(k, x)| (k.clone(), from_toml(x))).collect()),
        _ => JsonValue::Null,
    }
}

/// `str::parse::<toml::Table>` (a whole document), written as plain data:
/// named by [`toml_document`].
#[verifier::external_body]
fn parse_toml(text: &str) -> (r: Option<JsonValue>)
    ensures
        match r {
            Some(v) => toml_document(text@) == Some(v@),
            None => toml_document(text@) is None,
        },
{
    text.parse::<toml::Table>().ok().map(|t| from_toml(&toml::Value::Table(t)))
}

/// The names of the `projects` entries that have a string `name`, in order.
pub open spec fn project_names(entries: Seq<Json>) -> Seq<Seq<char>>
    decreases entries.len(),
{
    if entries.len() == 0 {
        Seq::empty()
    } else {
        let rest = project_names(entries.drop_last());
        match get(entries.last(), "name"@) {
            Some(Json::Str(n)) => rest.push(n),
            _ => rest,
        }
    }
}

/// `s` with runs of equal neighbours reduced to one (`Vec::dedup`).
pub open spec fn dedup_runs(s: Seq<Seq<char>>) -> Seq<Seq<char>>
    decreases s.len(),
{
    if s.len() == 0 {
        Seq::empty()
    } else {
        let rest = dedup_runs(s.drop_last());
        if s.len() >= 2 && s[s.len() - 2] == s.last() {
            rest
        } else {
            rest.push(s.last())
        }
    }
}

/// The project names of a bridge configuration text: the string `name` of
/// each `[[projects]]` table, in order, with repeated neighbours dropped;
/// none when the text is not TOML or has no `projects` array.
pub open spec fn projects_spec(text: Seq<char>) -> Seq<Seq<char>> {
    match toml_document(text) {
        Some(doc) => match get(doc, "projects"@) {
            Some(Json::Arr(a)) => dedup_runs(project_names(a)),
            _ => Seq::empty(),
        },
        None => Seq::empty(),
    }
}

proof fn lemma_dedup_last(s: Seq<Seq<char>>)
    requires
        s.len() > 0,
    ensures
        dedup_runs(s).len() > 0,
        dedup_runs(s).last() == s.last(),
    decreases s.len(),
{
    if s.len() >= 2 && s[s.len() - 2] == s.last() {
        lemma_dedup_last(s.drop_last());
    }
}

/// The project names of a bridge configuration text (see [`projects_spec`]).
pub fn projects_from_toml(text: &str) -> (r: Vec<String>)
    ensures
        r@.map_values(|x: String| x@) == projects_spec(text@),
{
    let doc = match parse_toml(text) {
        Some(d) => d,
        None => return Vec::new(),
    };
    let a = match doc.get("projects") {
        Some(JsonValue::Array(a)) => a,
        _ => {
            let v: Vec<String> = Vec::new();
            assert(v@.map_values(|x: String| x@) =~= Seq::<Seq<char>>::empty());
            return v;
        },
    };
    let ghost entries = crate::json::jvs(a@);
    let ghost mut names: Seq<Seq<char>> = Seq::empty();
    let mut out: Vec<String> = Vec::new();
    let mut i: usize = 0;
    assert(a@.take(0) =~= Seq::<JsonValue>::empty());
    assert(out@.map_values(|x: String| x@) =~= Seq::<Seq<char>>::empty());
    while i < a.len()
        invariant
            i <= a@.len(),
            names == project_names(crate::json::jvs(a@.take(i as int))),
            out@.map_values(|x: String| x@) == dedup_runs(names),
        decreases a@.len() - i,
    {
        proof {
            assert(a@.take(i + 1).drop_last() == a@.take(i as int));
            assert(a@.take(i + 1).last() == a@[i as int]);
            assert(crate::json::jvs(a@.take(i + 1)).drop_last() == crate::json::jvs(a@.take(i as int)));
        }
        match a[i].get("name") {
            Some(JsonValue::Str(n)) => {
                let ghost before = out@.map_values(|x: String| x@);
                let same = out.len() > 0 && crate::text::chars_eq(
                    chars_of(out[out.len() - 1].as_str()).as_slice(),
                    chars_of(n.as_str()).as_slice(),
                );
                proof {
                    if names.len() > 0 {
                        lemma_dedup_last(names);
                    }
                    let nn = names.push(n@);
                    assert(nn.drop_last() == names);
                    if names.len() > 0 {
                        assert(nn[nn.len() - 2] == names.last());
                        assert(out@.len() > 0);
                        assert(before.last() == out@[out@.len() - 1]@);
                    }
                }
                if !same {
                    out.push(n.clone());
                    assert(out@.map_values(|x: String| x@) =~= before.push(n@));
                }
                proof {
                    names = names.push(n@);
                }
            },
            _ => {},
        }
        i = i + 1;
    }
    assert(a@.take(a@.len() as int) == a@);
    out
}

} // verus!
