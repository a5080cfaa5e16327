//! Roles, providers and secrets of a configuration.

use crate::gateway::{self, ProviderConfig, ProviderKind};
use crate::ledger;
use crate::policy::Rule;
use crate::table::{self, Table};
use crate::text::{self, chars_of, same};
use vstd::prelude::*;
use vstd::string::*;

verus! {

/// Where the daemon listens.
#[derive(Debug, Clone, Copy, PartialEq, Eq, Structural)]
pub struct ServerCfg {
    pub port: u16,
}

/// A provider of models.
#[derive(Debug, PartialEq)]
pub struct ProviderCfg {
    pub base_url: String,
    pub api_key_env: Option<String>,
    pub kind: String,
}

/// A role: a model of a provider, and the roles to escalate to.
#[derive(Debug, PartialEq)]
pub struct RoleCfg {
    pub provider: String,
    pub model: String,
    pub escalation: Vec<String>,
}

/// Where the forgeloop tree lies, if there is one.
#[derive(Debug, PartialEq)]
pub struct ForgeloopCfg {
    pub dir: Option<String>,
}

impl Default for ForgeloopCfg {
    fn default() -> (r: ForgeloopCfg)
        ensures
            r.dir is None,
    {
        ForgeloopCfg { dir: None }
    }
}

/// What agents may do unasked, and how long an approval is waited for.
#[derive(Debug)]
pub struct PolicyCfg {
    pub auto_approve_edits: bool,
    pub approval_timeout_secs: u64,
    pub rules: Vec<Rule>,
}

/// How long an approval is waited for where nothing is configured.
pub const APPROVAL_TIMEOUT_SECS: u64 = 300;

/// How long an approval is waited for where nothing is configured.
pub fn default_approval_timeout() -> (r: u64)
    ensures
        r == APPROVAL_TIMEOUT_SECS,
        r == 300,
{
    APPROVAL_TIMEOUT_SECS
}

impl Default for PolicyCfg {
    fn default() -> (r: PolicyCfg)
        ensures
            !r.auto_approve_edits,
            r.approval_timeout_secs == APPROVAL_TIMEOUT_SECS,
            r.approval_timeout_secs == 300,
            r.rules@ == Seq::<Rule>::empty(),
    {
        PolicyCfg {
            auto_approve_edits: false,
            approval_timeout_secs: default_approval_timeout(),
            rules: Vec::new(),
        }
    }
}

/// The configuration of the daemon.
pub struct Config {
    pub server: ServerCfg,
    pub providers: Table<ProviderCfg>,
    pub roles: Table<RoleCfg>,
    pub policy: PolicyCfg,
    pub forgeloop: ForgeloopCfg,
}

/// The configuration that is written where there is none.
pub const DEFAULT_CONFIG: &'static str =
    "[server]\nport = 8642\n\n[providers.ollama]\nbase_url = \"http://127.0.0.1:11434/v1\"\n\n[providers.fireworks]\nbase_url = \"https://api.fireworks.ai/inference/v1\"\napi_key_env = \"FIREWORKS_API_KEY\"\n\n[roles.orchestrator]\nprovider = \"ollama\"\nmodel = \"qwen2.5:14b-instruct\"\n";

/// Why a configuration cannot be used.
#[derive(Debug, PartialEq)]
pub enum ConfigError {
    /// There is no role for the orchestrator.
    NoOrchestrator,
    UnknownRole(String),
    UnknownProvider(String),
    UnknownKind(String),
}

/// What a configuration error says.
pub ghost enum ConfigErrorView {
    NoOrchestrator,
    UnknownRole(Seq<char>),
    UnknownProvider(Seq<char>),
    UnknownKind(Seq<char>),
}

impl View for ConfigError {
    type V = ConfigErrorView;

    open spec fn view(&self) -> ConfigErrorView {
        match self {
            ConfigError::NoOrchestrator => ConfigErrorView::NoOrchestrator,
            ConfigError::UnknownRole(s) => ConfigErrorView::UnknownRole(s@),
            ConfigError::UnknownProvider(s) => ConfigErrorView::UnknownProvider(s@),
            ConfigError::UnknownKind(s) => ConfigErrorView::UnknownKind(s@),
        }
    }
}

impl ConfigError {
    /// The error in words.
    pub fn message(&self) -> (r: String)
        ensures
            r@ == match self@ {
                ConfigErrorView::NoOrchestrator =>
                    "config.toml must define a roles.orchestrator"@,
                ConfigErrorView::UnknownRole(s) => "unknown role: "@ + s,
                ConfigErrorView::UnknownProvider(s) => "unknown provider: "@ + s,
                ConfigErrorView::UnknownKind(s) => "unknown provider kind: "@ + s,
            },
    {
        let (start, rest) = match self {
            ConfigError::NoOrchestrator => {
                return "config.toml must define a roles.orchestrator".to_owned();
            },
            ConfigError::UnknownRole(s) => ("unknown role: ", s),
            ConfigError::UnknownProvider(s) => ("unknown provider: ", s),
            ConfigError::UnknownKind(s) => ("unknown provider kind: ", s),
        };
        let mut out = start.to_owned();
        out.append(rest.as_str());
        out
    }
}

// ---------------------------------------------------------------------------
// The environment
// ---------------------------------------------------------------------------

/// What an environment holds.
pub open spec fn env_view(env: Seq<(String, String)>) -> Seq<(Seq<char>, Seq<char>)> {
    Seq::new(env.len(), |i: int| (env[i].0@, env[i].1@))
}

/// The value of a variable of the environment, where it is set and not empty.
pub open spec fn env_value(env: Seq<(Seq<char>, Seq<char>)>, name: Seq<char>) -> Option<Seq<char>> {
    match table::lookup(env, name) {
        Some(value) => if value.len() > 0 {
            Some(value)
        } else {
            None
        },
        None => None,
    }
}

/// The value of a variable of the environment, where it is set and not empty.
pub fn env_get(env: &[(String, String)], name: &str) -> (r: Option<String>)
    ensures
        gateway::optional(r) == env_value(env_view(env@), name@),
{
    let ghost all = env_view(env@);
    let mut i: usize = 0;
    assert(all.skip(0) =~= all);
    while i < env.len()
        invariant
            i <= env@.len(),
            all == env_view(env@),
            table::lookup(all.skip(i as int), name@) == table::lookup(all, name@),
        decreases env@.len() - i,
    {
        proof {
            assert(all.skip(i as int).drop_first() =~= all.skip(i + 1));
            assert(all.skip(i as int)[0] == (env@[i as int].0@, env@[i as int].1@));
        }
        if same(env[i].0.as_str(), name) {
            if chars_of(env[i].1.as_str()).len() > 0 {
                return Some(env[i].1.clone());
            }
            return None;
        }
        i = i + 1;
    }
    None
}

// ---------------------------------------------------------------------------
// Roles
// ---------------------------------------------------------------------------

/// The protocol that a provider kind names; the empty kind is OpenAI's.
pub open spec fn kind_of(kind: Seq<char>) -> Option<ProviderKind> {
    if kind == ""@ || kind == "openai"@ {
        Some(ProviderKind::OpenAI)
    } else if kind == "anthropic"@ {
        Some(ProviderKind::Anthropic)
    } else {
        None
    }
}

/// The key that a provider is called with: what the variable that it names holds.
pub open spec fn key_of(env: Seq<(Seq<char>, Seq<char>)>, var: Option<Seq<char>>) -> Option<
    Seq<char>,
> {
    match var {
        Some(name) => env_value(env, name),
        None => None,
    }
}

/// A role joined with its provider. The role is looked up first, then the provider, then
/// the kind.
pub open spec fn role_config(
    roles: Seq<(Seq<char>, RoleCfg)>,
    providers: Seq<(Seq<char>, ProviderCfg)>,
    env: Seq<(Seq<char>, Seq<char>)>,
    role: Seq<char>,
) -> Result<gateway::ProviderView, ConfigErrorView> {
    match table::lookup(roles, role) {
        None => Err(ConfigErrorView::UnknownRole(role)),
        Some(r) => match table::lookup(providers, r.provider@) {
            None => Err(ConfigErrorView::UnknownProvider(r.provider@)),
            Some(p) => match kind_of(p.kind@) {
                None => Err(ConfigErrorView::UnknownKind(p.kind@)),
                Some(kind) => Ok(
                    gateway::ProviderView {
                        base_url: p.base_url@,
                        model: r.model@,
                        api_key: key_of(env, gateway::optional(p.api_key_env)),
                        kind,
                    },
                ),
            },
        },
    }
}

/// What a role resolves to, as views.
pub open spec fn result_view(r: Result<ProviderConfig, ConfigError>) -> Result<
    gateway::ProviderView,
    ConfigErrorView,
> {
    match r {
        Ok(p) => Ok(p@),
        Err(e) => Err(e@),
    }
}

/// Joins role and provider, with the key from the variable that the provider names, if it
/// names one.
pub fn resolve_role(cfg: &Config, env: &[(String, String)], role: &str) -> (r: Result<
    ProviderConfig,
    ConfigError,
>)
    ensures
        result_view(r) == role_config(cfg.roles@, cfg.providers@, env_view(env@), role@),
{
    let role_cfg = match cfg.roles.get(role) {
        Some(c) => c,
        None => {
            return Err(ConfigError::UnknownRole(role.to_owned()));
        },
    };
    let provider = match cfg.providers.get(role_cfg.provider.as_str()) {
        Some(p) => p,
        None => {
            return Err(ConfigError::UnknownProvider(role_cfg.provider.clone()));
        },
    };
    let api_key = match &provider.api_key_env {
        Some(name) => env_get(env, name.as_str()),
        None => None,
    };
    let kind = if same(provider.kind.as_str(), "") || same(provider.kind.as_str(), "openai") {
        ProviderKind::OpenAI
    } else if same(provider.kind.as_str(), "anthropic") {
        ProviderKind::Anthropic
    } else {
        return Err(ConfigError::UnknownKind(provider.kind.clone()));
    };
    Ok(
        ProviderConfig {
            base_url: provider.base_url.clone(),
            model: role_cfg.model.clone(),
            api_key,
            kind,
        },
    )
}

/// Several roles joined with their providers; the first that cannot be is the error.
pub open spec fn chain_config(
    roles: Seq<(Seq<char>, RoleCfg)>,
    providers: Seq<(Seq<char>, ProviderCfg)>,
    env: Seq<(Seq<char>, Seq<char>)>,
    names: Seq<Seq<char>>,
) -> Result<Seq<(Seq<char>, gateway::ProviderView)>, ConfigErrorView>
    decreases names.len(),
{
    if names.len() == 0 {
        Ok(Seq::empty())
    } else {
        match chain_config(roles, providers, env, names.drop_last()) {
            Err(e) => Err(e),
            Ok(before) => match role_config(roles, providers, env, names.last()) {
                Err(e) => Err(e),
                Ok(p) => Ok(before.push((names.last(), p))),
            },
        }
    }
}

/// The role and those that it escalates to, in order.
pub open spec fn tiers(roles: Seq<(Seq<char>, RoleCfg)>, role: Seq<char>) -> Seq<Seq<char>> {
    match table::lookup(roles, role) {
        Some(r) => Seq::<Seq<char>>::empty().push(role) + text::texts(r.escalation@),
        None => Seq::<Seq<char>>::empty().push(role),
    }
}

/// What a chain of roles holds.
pub open spec fn chain_view(items: Seq<(String, ProviderConfig)>) -> Seq<
    (Seq<char>, gateway::ProviderView),
> {
    Seq::new(items.len(), |i: int| (items[i].0@, items[i].1@))
}

/// The role's provider followed by its escalation tiers, in order. An escalation to an
/// unknown role is an error: a bug of the configuration that fails loudly rather than
/// rerouting silently.
pub fn resolve_chain(cfg: &Config, env: &[(String, String)], role: &str) -> (r: Result<
    Vec<(String, ProviderConfig)>,
    ConfigError,
>)
    ensures
        match chain_config(cfg.roles@, cfg.providers@, env_view(env@), tiers(cfg.roles@, role@)) {
            Ok(chain) => r is Ok && chain_view(r->Ok_0@) == chain,
            Err(e) => r is Err && r->Err_0@ == e,
        },
{
    let ghost names = tiers(cfg.roles@, role@);
    let ghost vars = env_view(env@);
    let mut out: Vec<(String, ProviderConfig)> = Vec::new();
    proof {
        assert(chain_view(out@) =~= Seq::<(Seq<char>, gateway::ProviderView)>::empty());
        assert(names.take(0) =~= Seq::<Seq<char>>::empty());
        assert(names.take(1).drop_last() =~= names.take(0));
        assert(chain_config(cfg.roles@, cfg.providers@, vars, names.take(0)) == Ok::<
            Seq<(Seq<char>, gateway::ProviderView)>,
            ConfigErrorView,
        >(Seq::empty()));
        assert(names.take(1).last() == role@);
    }
    match resolve_role(cfg, env, role) {
        Ok(p) => {
            let ghost held = p@;
            out.push((role.to_owned(), p));
            assert(chain_view(out@) =~= Seq::<(Seq<char>, gateway::ProviderView)>::empty().push(
                (role@, held),
            ));
        },
        Err(e) => {
            proof {
                lemma_error_stays(cfg.roles@, cfg.providers@, vars, names, 1);
            }
            return Err(e);
        },
    }
    let role_cfg = match cfg.roles.get(role) {
        Some(c) => c,
        None => {
            return Err(ConfigError::UnknownRole(role.to_owned()));
        },
    };
    let ghost more = text::texts(role_cfg.escalation@);
    let mut i: usize = 0;
    while i < role_cfg.escalation.len()
        invariant
            i <= role_cfg.escalation@.len(),
            vars == env_view(env@),
            more == text::texts(role_cfg.escalation@),
            names == Seq::<Seq<char>>::empty().push(role@) + more,
            names == tiers(cfg.roles@, role@),
            chain_config(cfg.roles@, cfg.providers@, vars, names.take(i + 1)) == Ok::<
                Seq<(Seq<char>, gateway::ProviderView)>,
                ConfigErrorView,
            >(chain_view(out@)),
        decreases role_cfg.escalation@.len() - i,
    {
        let next = &role_cfg.escalation[i];
        let ghost before = chain_view(out@);
        proof {
            assert(names.take(i + 2).drop_last() =~= names.take(i + 1));
            assert(names.take(i + 2).last() == next@);
        }
        match resolve_role(cfg, env, next.as_str()) {
            Ok(p) => {
                let ghost held = p@;
                out.push((next.clone(), p));
                assert(chain_view(out@) =~= before.push((next@, held)));
            },
            Err(e) => {
                proof {
                    lemma_error_stays(cfg.roles@, cfg.providers@, vars, names, i + 2);
                }
                return Err(e);
            },
        }
        i = i + 1;
    }
    assert(names.take(i + 1) =~= names);
    Ok(out)
}

/// An error of the first roles of a chain is the error of the chain.
proof fn lemma_error_stays(
    roles: Seq<(Seq<char>, RoleCfg)>,
    providers: Seq<(Seq<char>, ProviderCfg)>,
    env: Seq<(Seq<char>, Seq<char>)>,
    names: Seq<Seq<char>>,
    n: int,
)
    requires
        0 <= n <= names.len(),
        chain_config(roles, providers, env, names.take(n)) is Err,
    ensures
        chain_config(roles, providers, env, names) == chain_config(
            roles,
            providers,
            env,
            names.take(n),
        ),
    decreases names.len(),
{
    if n == names.len() {
        assert(names.take(n) =~= names);
    } else {
        let before = names.drop_last();
        assert(before.take(n) =~= names.take(n));
        lemma_error_stays(roles, providers, env, before, n);
    }
}

/// The role that a session runs under: its own where it is configured, the orchestrator's
/// otherwise.
pub open spec fn running_role(roles: Seq<(Seq<char>, RoleCfg)>, role: Seq<char>) -> Seq<char> {
    if table::lookup(roles, role) is Some {
        role
    } else {
        "orchestrator"@
    }
}

/// The role that a session runs under.
pub fn role_or_orchestrator(cfg: &Config, role: &str) -> (r: String)
    ensures
        r@ == running_role(cfg.roles@, role@),
{
    match cfg.roles.get(role) {
        Some(_) => role.to_owned(),
        None => "orchestrator".to_owned(),
    }
}

/// Refuses a configuration without a role for the orchestrator.
pub fn validate(cfg: &Config) -> (r: Result<(), ConfigError>)
    ensures
        match r {
            Ok(_) => table::lookup(cfg.roles@, "orchestrator"@) is Some,
            Err(e) => table::lookup(cfg.roles@, "orchestrator"@) is None && e@
                == ConfigErrorView::NoOrchestrator,
        },
{
    match cfg.roles.get("orchestrator") {
        Some(_) => Ok(()),
        None => Err(ConfigError::NoOrchestrator),
    }
}

// ---------------------------------------------------------------------------
// Secrets
// ---------------------------------------------------------------------------

/// The names of the variables that providers take their keys from, in the order of the
/// providers' names.
pub open spec fn key_names(providers: Seq<(Seq<char>, ProviderCfg)>) -> Seq<Seq<char>>
    decreases providers.len(),
{
    if providers.len() == 0 {
        Seq::empty()
    } else {
        match gateway::optional(providers.last().1.api_key_env) {
            Some(name) => key_names(providers.drop_last()).push(name),
            None => key_names(providers.drop_last()),
        }
    }
}

/// The values that the named variables have, where they are set and not empty.
pub open spec fn set_values(env: Seq<(Seq<char>, Seq<char>)>, names: Seq<Seq<char>>) -> Seq<
    Seq<char>,
>
    decreases names.len(),
{
    if names.len() == 0 {
        Seq::empty()
    } else {
        match env_value(env, names.last()) {
            Some(value) => set_values(env, names.drop_last()).push(value),
            None => set_values(env, names.drop_last()),
        }
    }
}

/// Every configured variable name (whether or not it is set): the terminal scrubs these
/// from the environments of its children.
pub fn api_key_env_names(cfg: &Config) -> (r: Vec<String>)
    ensures
        text::texts(r@) == key_names(cfg.providers@),
{
    let ghost all = cfg.providers@;
    let mut out: Vec<String> = Vec::new();
    let n = cfg.providers.len();
    let mut i: usize = 0;
    assert(text::texts(out@) =~= key_names(all.take(0)));
    while i < n
        invariant
            i <= n == all.len(),
            all == cfg.providers@,
            text::texts(out@) == key_names(all.take(i as int)),
        decreases n - i,
    {
        let ghost done = text::texts(out@);
        proof {
            assert(all.take(i + 1).drop_last() =~= all.take(i as int));
            assert(all.take(i + 1).last() == all[i as int]);
        }
        match &cfg.providers.value_at(i).api_key_env {
            Some(name) => {
                out.push(name.clone());
                assert(text::texts(out@) =~= done.push(name@));
            },
            None => {},
        }
        i = i + 1;
    }
    assert(all.take(i as int) =~= all);
    out
}

/// Every key that is present in the environment: what the redactor keeps out of ledgers.
pub fn secrets(cfg: &Config, env: &[(String, String)]) -> (r: Vec<String>)
    ensures
        text::texts(r@) == set_values(env_view(env@), key_names(cfg.providers@)),
{
    let names = api_key_env_names(cfg);
    let ghost all = text::texts(names@);
    let ghost vars = env_view(env@);
    let mut out: Vec<String> = Vec::new();
    let mut i: usize = 0;
    assert(text::texts(out@) =~= set_values(vars, all.take(0)));
    while i < names.len()
        invariant
            i <= names@.len(),
            all == text::texts(names@),
            vars == env_view(env@),
            text::texts(out@) == set_values(vars, all.take(i as int)),
        decreases names@.len() - i,
    {
        let ghost done = text::texts(out@);
        proof {
            assert(all.take(i + 1).drop_last() =~= all.take(i as int));
            assert(all.take(i + 1).last() == names@[i as int]@);
        }
        match env_get(env, names[i].as_str()) {
            Some(value) => {
                let ghost held = value@;
                out.push(value);
                assert(text::texts(out@) =~= done.push(held));
            },
            None => {},
        }
        i = i + 1;
    }
    assert(all.take(i as int) =~= all);
    out
}

// ---------------------------------------------------------------------------
// Laws
// ---------------------------------------------------------------------------

/// The key that any role is called with is among the secrets.
pub proof fn keys_in_use_are_secrets(
    roles: Seq<(Seq<char>, RoleCfg)>,
    providers: Seq<(Seq<char>, ProviderCfg)>,
    env: Seq<(Seq<char>, Seq<char>)>,
    role: Seq<char>,
)
    requires
        role_config(roles, providers, env, role) is Ok,
        role_config(roles, providers, env, role)->Ok_0.api_key is Some,
    ensures
        set_values(env, key_names(providers)).contains(
            role_config(roles, providers, env, role)->Ok_0.api_key->0,
        ),
{
    let r = table::lookup(roles, role)->0;
    let p = table::lookup(providers, r.provider@)->0;
    let at = lemma_looked_up(providers, r.provider@);
    let var = gateway::optional(p.api_key_env)->0;
    lemma_name_listed(providers, at);
    lemma_value_listed(env, key_names(providers), var);
}

/// The key that any role is called with reaches no ledger, whatever is written to it, as
/// long as it cannot overlap the mark that stands in its place.
pub proof fn keys_reach_no_ledger(
    roles: Seq<(Seq<char>, RoleCfg)>,
    providers: Seq<(Seq<char>, ProviderCfg)>,
    env: Seq<(Seq<char>, Seq<char>)>,
    role: Seq<char>,
    raw: Seq<char>,
)
    requires
        role_config(roles, providers, env, role) is Ok,
        role_config(roles, providers, env, role)->Ok_0.api_key is Some,
        ledger::apart(
            role_config(roles, providers, env, role)->Ok_0.api_key->0,
            ledger::REDACTED@,
        ),
    ensures
        !text::occurs(
            ledger::scrubbed(ledger::non_empty(set_values(env, key_names(providers))), raw),
            role_config(roles, providers, env, role)->Ok_0.api_key->0,
        ),
{
    let key = role_config(roles, providers, env, role)->Ok_0.api_key->0;
    let all = set_values(env, key_names(providers));
    keys_in_use_are_secrets(roles, providers, env, role);
    lemma_kept_where_not_empty(all, key);
    ledger::scrubbed_text_holds_no_secret(ledger::non_empty(all), raw, key);
}

/// The key that any role is called with reaches no prompt, whatever the conversation says,
/// as long as it cannot overlap the mark that stands in its place.
pub proof fn keys_reach_no_prompt(
    roles: Seq<(Seq<char>, RoleCfg)>,
    providers: Seq<(Seq<char>, ProviderCfg)>,
    env: Seq<(Seq<char>, Seq<char>)>,
    role: Seq<char>,
    items: Seq<gateway::MessageView>,
    i: int,
)
    requires
        role_config(roles, providers, env, role) is Ok,
        role_config(roles, providers, env, role)->Ok_0.api_key is Some,
        ledger::apart(
            role_config(roles, providers, env, role)->Ok_0.api_key->0,
            ledger::REDACTED@,
        ),
        0 <= i < items.len(),
    ensures
        !gateway::message_holds(
            gateway::scrubbed_messages(
                ledger::non_empty(set_values(env, key_names(providers))),
                items,
            )[i],
            role_config(roles, providers, env, role)->Ok_0.api_key->0,
        ),
{
    let key = role_config(roles, providers, env, role)->Ok_0.api_key->0;
    let all = set_values(env, key_names(providers));
    keys_in_use_are_secrets(roles, providers, env, role);
    lemma_kept_where_not_empty(all, key);
    gateway::prompts_hold_no_secret(ledger::non_empty(all), items, key, i);
}

proof fn lemma_kept_where_not_empty(items: Seq<Seq<char>>, item: Seq<char>)
    requires
        items.contains(item),
        item.len() > 0,
    ensures
        ledger::non_empty(items).contains(item),
    decreases items.len(),
{
    let kept = ledger::non_empty(items);
    let rest = ledger::non_empty(items.drop_first());
    if items[0] == item {
        assert(kept[0] == item);
    } else {
        let i = choose|i: int| 0 <= i < items.len() && items[i] == item;
        assert(items.drop_first()[i - 1] == item);
        lemma_kept_where_not_empty(items.drop_first(), item);
        let k = choose|k: int| 0 <= k < rest.len() && rest[k] == item;
        if items[0].len() == 0 {
            assert(kept[k] == item);
        } else {
            assert(kept[k + 1] == item);
        }
    }
}

proof fn lemma_looked_up<V>(items: Seq<(Seq<char>, V)>, key: Seq<char>) -> (at: int)
    requires
        table::lookup(items, key) is Some,
    ensures
        0 <= at < items.len(),
        items[at].1 == table::lookup(items, key)->0,
    decreases items.len(),
{
    if items[0].0 == key {
        0
    } else {
        let at = lemma_looked_up(items.drop_first(), key);
        at + 1
    }
}

proof fn lemma_name_listed(providers: Seq<(Seq<char>, ProviderCfg)>, at: int)
    requires
        0 <= at < providers.len(),
        gateway::optional(providers[at].1.api_key_env) is Some,
    ensures
        key_names(providers).contains(gateway::optional(providers[at].1.api_key_env)->0),
    decreases providers.len(),
{
    let name = gateway::optional(providers[at].1.api_key_env)->0;
    let before = key_names(providers.drop_last());
    if at == providers.len() - 1 {
        assert(before.push(name)[before.len() as int] == name);
    } else {
        lemma_name_listed(providers.drop_last(), at);
        let i = choose|i: int| 0 <= i < before.len() && before[i] == name;
        assert(key_names(providers)[i] == name);
    }
}

proof fn lemma_value_listed(
    env: Seq<(Seq<char>, Seq<char>)>,
    names: Seq<Seq<char>>,
    name: Seq<char>,
)
    requires
        names.contains(name),
        env_value(env, name) is Some,
    ensures
        set_values(env, names).contains(env_value(env, name)->0),
    decreases names.len(),
{
    let value = env_value(env, name)->0;
    let before = set_values(env, names.drop_last());
    if names.last() == name {
        assert(before.push(value)[before.len() as int] == value);
    } else {
        let k = choose|k: int| 0 <= k < names.len() && names[k] == name;
        assert(names.drop_last()[k] == name);
        lemma_value_listed(env, names.drop_last(), name);
        let i = choose|i: int| 0 <= i < before.len() && before[i] == value;
        assert(set_values(env, names)[i] == value);
    }
}

/// A role without an own configuration runs as the orchestrator, so in a valid
/// configuration the role that a session runs under is always there.
pub proof fn running_role_is_configured(roles: Seq<(Seq<char>, RoleCfg)>, role: Seq<char>)
    requires
        table::lookup(roles, "orchestrator"@) is Some,
    ensures
        table::lookup(roles, running_role(roles, role)) is Some,
{
}

/// A chain starts with the role itself.
pub proof fn chain_starts_with_the_role(
    roles: Seq<(Seq<char>, RoleCfg)>,
    providers: Seq<(Seq<char>, ProviderCfg)>,
    env: Seq<(Seq<char>, Seq<char>)>,
    role: Seq<char>,
)
    requires
        chain_config(roles, providers, env, tiers(roles, role)) is Ok,
    ensures
        ({
            let chain = chain_config(roles, providers, env, tiers(roles, role))->Ok_0;
            &&& chain.len() == tiers(roles, role).len()
            &&& chain[0].0 == role
            &&& Ok::<gateway::ProviderView, ConfigErrorView>(chain[0].1) == role_config(
                roles,
                providers,
                env,
                role,
            )
        }),
{
    lemma_chain_names(roles, providers, env, tiers(roles, role), 0);
}

proof fn lemma_chain_names(
    roles: Seq<(Seq<char>, RoleCfg)>,
    providers: Seq<(Seq<char>, ProviderCfg)>,
    env: Seq<(Seq<char>, Seq<char>)>,
    names: Seq<Seq<char>>,
    i: int,
)
    requires
        0 <= i < names.len(),
        chain_config(roles, providers, env, names) is Ok,
    ensures
        ({
            let chain = chain_config(roles, providers, env, names)->Ok_0;
            &&& chain.len() == names.len()
            &&& chain[i].0 == names[i]
            &&& Ok::<gateway::ProviderView, ConfigErrorView>(chain[i].1) == role_config(
                roles,
                providers,
                env,
                names[i],
            )
        }),
    decreases names.len(),
{
    if names.len() > 1 {
        if i < names.len() - 1 {
            lemma_chain_names(roles, providers, env, names.drop_last(), i);
        } else {
            lemma_chain_names(roles, providers, env, names.drop_last(), 0);
        }
    } else {
        assert(chain_config(roles, providers, env, names.drop_last()) == Ok::<
            Seq<(Seq<char>, gateway::ProviderView)>,
            ConfigErrorView,
        >(Seq::empty()));
    }
}

/// A variable has the value of its first binding; an empty one counts as not set.
pub proof fn first_binding_counts(
    before: Seq<(Seq<char>, Seq<char>)>,
    name: Seq<char>,
    value: Seq<char>,
    after: Seq<(Seq<char>, Seq<char>)>,
)
    requires
        forall|i: int| 0 <= i < before.len() ==> (#[trigger] before[i]).0 != name,
    ensures
        value.len() > 0 ==> env_value(before.push((name, value)) + after, name) == Some(value),
        value.len() == 0 ==> env_value(before.push((name, value)) + after, name) is None,
        env_value(before, name) is None,
{
    let all = before.push((name, value)) + after;
    let n = before.len() as int;
    assert forall|i: int| 0 <= i < n && i < all.len() implies (#[trigger] all[i]).0 != name by {
        assert(all[i] == before[i]);
    }
    assert(all[n] == (name, value));
    table::first_entry_counts(all, name, n);
    table::first_entry_counts(before, name, n);
}

/// A kind names its protocol: nothing and `openai` the one, `anthropic` the other, and no
/// other word any.
pub proof fn kinds_name_protocols(kind: Seq<char>)
    ensures
        kind.len() == 0 || kind == "openai"@ ==> kind_of(kind) == Some(ProviderKind::OpenAI),
        kind == "anthropic"@ ==> kind_of(kind) == Some(ProviderKind::Anthropic),
        kind.len() > 0 && kind != "openai"@ && kind != "anthropic"@ ==> kind_of(kind) is None,
{
    reveal_strlit("");
    reveal_strlit("openai");
    reveal_strlit("anthropic");
    assert("openai"@.len() == 6 && "anthropic"@.len() == 9);
    if kind.len() == 0 {
        assert(kind =~= ""@);
    }
}

/// A role is called at its provider's address, with its own model, by the provider's
/// protocol, and with the key that the variable of the provider holds, if it holds one.
pub proof fn roles_are_called_as_configured(
    roles: Seq<(Seq<char>, RoleCfg)>,
    providers: Seq<(Seq<char>, ProviderCfg)>,
    env: Seq<(Seq<char>, Seq<char>)>,
    role: Seq<char>,
    r: RoleCfg,
    p: ProviderCfg,
)
    requires
        table::lookup(roles, role) == Some(r),
        table::lookup(providers, r.provider@) == Some(p),
    ensures
        kind_of(p.kind@) is Some ==> ({
            let made = role_config(roles, providers, env, role);
            &&& made is Ok
            &&& made->Ok_0.base_url == p.base_url@
            &&& made->Ok_0.model == r.model@
            &&& Some(made->Ok_0.kind) == kind_of(p.kind@)
            &&& p.api_key_env is None ==> made->Ok_0.api_key is None
            &&& p.api_key_env is Some ==> made->Ok_0.api_key == env_value(env, p.api_key_env->0@)
        }),
        kind_of(p.kind@) is None ==> role_config(roles, providers, env, role) == Err::<
            gateway::ProviderView,
            ConfigErrorView,
        >(ConfigErrorView::UnknownKind(p.kind@)),
{
}

/// A role that is not configured is refused by its name, and a role of a provider that is
/// not configured by the provider's name.
pub proof fn unknown_names_are_refused(
    roles: Seq<(Seq<char>, RoleCfg)>,
    providers: Seq<(Seq<char>, ProviderCfg)>,
    env: Seq<(Seq<char>, Seq<char>)>,
    role: Seq<char>,
)
    ensures
        table::lookup(roles, role) is None ==> role_config(roles, providers, env, role) == Err::<
            gateway::ProviderView,
            ConfigErrorView,
        >(ConfigErrorView::UnknownRole(role)),
        table::lookup(roles, role) is Some && table::lookup(
            providers,
            table::lookup(roles, role)->0.provider@,
        ) is None ==> role_config(roles, providers, env, role) == Err::<
            gateway::ProviderView,
            ConfigErrorView,
        >(ConfigErrorView::UnknownProvider(table::lookup(roles, role)->0.provider@)),
{
}

/// A chain has each of its roles in its place, as the role is configured; the first role
/// that cannot be called is the error of the chain.
pub proof fn chains_have_each_role_in_its_place(
    roles: Seq<(Seq<char>, RoleCfg)>,
    providers: Seq<(Seq<char>, ProviderCfg)>,
    env: Seq<(Seq<char>, Seq<char>)>,
    names: Seq<Seq<char>>,
)
    ensures
        chain_config(roles, providers, env, names) is Ok <==> forall|i: int|
            0 <= i < names.len() ==> role_config(
                roles,
                providers,
                env,
                #[trigger] names[i],
            ) is Ok,
        chain_config(roles, providers, env, names) matches Ok(chain) ==> {
            &&& chain.len() == names.len()
            &&& forall|i: int|
                0 <= i < names.len() ==> (#[trigger] chain[i]).0 == names[i] && role_config(
                    roles,
                    providers,
                    env,
                    names[i],
                ) == Ok::<gateway::ProviderView, ConfigErrorView>(chain[i].1)
        },
        forall|n: int|
            0 <= n < names.len() && role_config(
                roles,
                providers,
                env,
                #[trigger] names[n],
            ) is Err && (forall|i: int|
                0 <= i < n ==> role_config(roles, providers, env, #[trigger] names[i]) is Ok)
                ==> chain_config(roles, providers, env, names) is Err && chain_config(
                roles,
                providers,
                env,
                names,
            )->Err_0 == role_config(roles, providers, env, names[n])->Err_0,
    decreases names.len(),
{
    if names.len() > 0 {
        let before = names.drop_last();
        let last = names.len() - 1;
        chains_have_each_role_in_its_place(roles, providers, env, before);
        assert forall|i: int| 0 <= i < before.len() implies #[trigger] before[i] == names[i] by {}
        assert(names[last] == names.last());
        if chain_config(roles, providers, env, names) is Ok {
            assert forall|i: int| 0 <= i < names.len() implies role_config(
                roles,
                providers,
                env,
                #[trigger] names[i],
            ) is Ok by {
                if i < last {
                    assert(before[i] == names[i]);
                }
            }
            let chain = chain_config(roles, providers, env, names)->Ok_0;
            let some = chain_config(roles, providers, env, before)->Ok_0;
            assert forall|i: int| 0 <= i < names.len() implies (#[trigger] chain[i]).0 == names[i]
                && role_config(roles, providers, env, names[i]) == Ok::<
                gateway::ProviderView,
                ConfigErrorView,
            >(chain[i].1) by {
                if i < last {
                    assert(chain[i] == some[i]);
                    assert(before[i] == names[i]);
                }
            }
        }
        if forall|i: int|
            0 <= i < names.len() ==> role_config(
                roles,
                providers,
                env,
                #[trigger] names[i],
            ) is Ok {
            assert forall|i: int| 0 <= i < before.len() implies role_config(
                roles,
                providers,
                env,
                #[trigger] before[i],
            ) is Ok by {
                assert(names[i] == before[i]);
            }
            assert(role_config(roles, providers, env, names[last]) is Ok);
        }
        assert forall|n: int|
            0 <= n < names.len() && role_config(
                roles,
                providers,
                env,
                #[trigger] names[n],
            ) is Err && (forall|i: int|
                0 <= i < n ==> role_config(roles, providers, env, #[trigger] names[i]) is Ok)
            implies chain_config(roles, providers, env, names) is Err && chain_config(
            roles,
            providers,
            env,
            names,
        )->Err_0 == role_config(roles, providers, env, names[n])->Err_0 by {
            if n < last {
                assert(before[n] == names[n]);
                assert forall|i: int| 0 <= i < n implies role_config(
                    roles,
                    providers,
                    env,
                    #[trigger] before[i],
                ) is Ok by {
                    assert(before[i] == names[i]);
                    assert(role_config(roles, providers, env, names[i]) is Ok);
                }
            } else {
                assert forall|i: int| 0 <= i < before.len() implies role_config(
                    roles,
                    providers,
                    env,
                    #[trigger] before[i],
                ) is Ok by {
                    assert(before[i] == names[i]);
                    assert(role_config(roles, providers, env, names[i]) is Ok);
                }
            }
        }
    }
}

/// A chain is the role and, behind it, those that it escalates to, in their order.
pub proof fn escalation_follows_the_role(
    roles: Seq<(Seq<char>, RoleCfg)>,
    role: Seq<char>,
    r: RoleCfg,
    i: int,
)
    requires
        table::lookup(roles, role) == Some(r),
        0 <= i < r.escalation@.len(),
    ensures
        tiers(roles, role).len() == r.escalation@.len() + 1,
        tiers(roles, role)[0] == role,
        tiers(roles, role)[i + 1] == r.escalation@[i]@,
{
}

/// The names of variables that are kept from children are those that some provider names,
/// and no others.
pub proof fn every_named_variable_is_listed(
    providers: Seq<(Seq<char>, ProviderCfg)>,
    name: Seq<char>,
)
    ensures
        key_names(providers).contains(name) <==> exists|i: int|
            0 <= i < providers.len() && (#[trigger] providers[i]).1.api_key_env is Some
                && providers[i].1.api_key_env->0@ == name,
    decreases providers.len(),
{
    if providers.len() > 0 {
        let before = providers.drop_last();
        every_named_variable_is_listed(before, name);
        let all = key_names(providers);
        let some = key_names(before);
        let last = providers.len() - 1;
        assert(providers[last] == providers.last());
        if all.contains(name) {
            let k = choose|k: int| 0 <= k < all.len() && all[k] == name;
            if k < some.len() {
                assert(some[k] == name);
                let i = choose|i: int|
                    0 <= i < before.len() && (#[trigger] before[i]).1.api_key_env is Some
                        && before[i].1.api_key_env->0@ == name;
                assert(providers[i] == before[i]);
            }
        }
        if exists|i: int|
            0 <= i < providers.len() && (#[trigger] providers[i]).1.api_key_env is Some
                && providers[i].1.api_key_env->0@ == name {
            let i = choose|i: int|
                0 <= i < providers.len() && (#[trigger] providers[i]).1.api_key_env is Some
                    && providers[i].1.api_key_env->0@ == name;
            if i < last {
                assert(before[i] == providers[i]);
                let k = choose|k: int| 0 <= k < some.len() && some[k] == name;
                assert(all[k] == name);
            } else {
                assert(all[some.len() as int] == name);
            }
        }
    }
}

/// The secrets are the values of named variables that are set, and no others.
pub proof fn secrets_are_what_is_set(
    env: Seq<(Seq<char>, Seq<char>)>,
    names: Seq<Seq<char>>,
    value: Seq<char>,
)
    ensures
        set_values(env, names).contains(value) <==> exists|i: int|
            0 <= i < names.len() && env_value(env, #[trigger] names[i]) == Some(value),
    decreases names.len(),
{
    if names.len() > 0 {
        let before = names.drop_last();
        secrets_are_what_is_set(env, before, value);
        let all = set_values(env, names);
        let some = set_values(env, before);
        let last = names.len() - 1;
        assert(names[last] == names.last());
        if all.contains(value) {
            let k = choose|k: int| 0 <= k < all.len() && all[k] == value;
            if k < some.len() {
                assert(some[k] == value);
                let i = choose|i: int|
                    0 <= i < before.len() && env_value(env, #[trigger] before[i]) == Some(value);
                assert(names[i] == before[i]);
            }
        }
        if exists|i: int|
            0 <= i < names.len() && env_value(env, #[trigger] names[i]) == Some(value) {
            let i = choose|i: int|
                0 <= i < names.len() && env_value(env, #[trigger] names[i]) == Some(value);
            if i < last {
                assert(before[i] == names[i]);
                let k = choose|k: int| 0 <= k < some.len() && some[k] == value;
                assert(all[k] == value);
            } else {
                assert(all[some.len() as int] == value);
            }
        }
    }
}

/// A session runs under its own role where that is configured, and under the orchestrator's
/// otherwise.
pub proof fn own_role_comes_first(
    roles: Seq<(Seq<char>, RoleCfg)>,
    role: Seq<char>,
    at: int,
)
    ensures
        0 <= at < roles.len() && roles[at].0 == role ==> running_role(roles, role) == role,
        (forall|i: int| 0 <= i < roles.len() ==> (#[trigger] roles[i]).0 != role)
            ==> running_role(roles, role) == "orchestrator"@,
{
    if 0 <= at < roles.len() && roles[at].0 == role {
        lemma_some_role(roles, role, at);
    }
    if forall|i: int| 0 <= i < roles.len() ==> (#[trigger] roles[i]).0 != role {
        table::first_entry_counts(roles, role, roles.len() as int);
    }
}

proof fn lemma_some_role(roles: Seq<(Seq<char>, RoleCfg)>, role: Seq<char>, at: int)
    requires
        0 <= at < roles.len(),
        roles[at].0 == role,
    ensures
        table::lookup(roles, role) is Some,
    decreases at,
{
    if at > 0 && roles[0].0 != role {
        lemma_some_role(roles.drop_first(), role, at - 1);
    }
}

} // verus!
