//! Faults in the setup.

use crate::assoc::lookup;
use crate::channel::kinds::{kind_of, law_channels_go_by_their_names};
use crate::config::{AppConfig, ChannelConfig, ModelProviderConfig, ProviderConfig};
use crate::daemon::resources::{pad_end, padded};
use crate::error::{AppError, AppResult, ErrorView};
use crate::home::AppPaths;
use crate::text::{blank, capitalised, capitalised_text, is_blank, same_text, texts};
use vstd::prelude::*;

verus! {

/// How a check came out.
#[derive(Debug, Clone, Copy, PartialEq, Eq, Structural)]
pub enum CheckLevel {
    /// All is well.
    Passed,
    /// It works, but should be looked at.
    Warn,
    /// It does not work.
    Fail,
}

/// A check.
#[derive(Debug, Clone, PartialEq, Eq)]
pub struct Check {
    /// How it came out.
    pub level: CheckLevel,
    /// What was checked.
    pub name: String,
    /// What was found.
    pub message: String,
}

/// The contents of a check.
pub struct CheckView {
    pub level: CheckLevel,
    pub name: Seq<char>,
    pub message: Seq<char>,
}

impl View for Check {
    type V = CheckView;

    open spec fn view(&self) -> CheckView {
        CheckView { level: self.level, name: self.name@, message: self.message@ }
    }
}

/// The contents of a list of checks.
pub open spec fn checks_of(list: Seq<Check>) -> Seq<CheckView> {
    Seq::new(list.len(), |i: int| list[i]@)
}

/// What is there: files, directories and environment variables.
pub struct SetupFacts {
    /// Whether the configuration file is there.
    pub config: bool,
    /// Whether the working directory is a directory.
    pub work_dir: bool,
    /// Whether the application's directory is there.
    pub app_dir: bool,
    /// Whether the directory of sessions is there.
    pub sessions: bool,
    /// Whether the directory of channels is there.
    pub channel: bool,
    /// Whether the directory of skills is there.
    pub skills: bool,
    /// Whether the directory of memories is there.
    pub mems: bool,
    /// Whether the directory of scheduled tasks is there.
    pub crons: bool,
    /// Whether the file with credentials is there.
    pub auth: bool,
    /// The environment variables that are set and not blank.
    pub env: Vec<String>,
}

/// A check that passes or fails.
pub open spec fn verdict(ok: bool, name: Seq<char>, message: Seq<char>) -> CheckView {
    CheckView {
        level: if ok {
            CheckLevel::Passed
        } else {
            CheckLevel::Fail
        },
        name,
        message,
    }
}

/// A check of a directory that is made when it is needed.
pub open spec fn dir_verdict(there: bool, name: Seq<char>, path: Seq<char>) -> CheckView {
    CheckView {
        level: if there {
            CheckLevel::Passed
        } else {
            CheckLevel::Warn
        },
        name,
        message: name + ": "@ + path,
    }
}

fn push_check(checks: &mut Vec<Check>, ok: bool, name: &str, message: String)
    ensures
        checks_of(final(checks)@) == checks_of(old(checks)@).push(verdict(ok, name@, message@)),
{
    let ghost before = checks_of(checks@);
    let level = if ok {
        CheckLevel::Passed
    } else {
        CheckLevel::Fail
    };
    let check = Check { level, name: String::from_str(name), message };
    let ghost view = check@;
    checks.push(check);
    assert(checks_of(checks@) =~= before.push(view));
}

fn push_level(checks: &mut Vec<Check>, level: CheckLevel, name: &str, message: String)
    ensures
        checks_of(final(checks)@) == checks_of(old(checks)@).push(
            CheckView { level, name: name@, message: message@ },
        ),
{
    let ghost before = checks_of(checks@);
    let check = Check { level, name: String::from_str(name), message };
    let ghost view = check@;
    checks.push(check);
    assert(checks_of(checks@) =~= before.push(view));
}

fn push_dir(checks: &mut Vec<Check>, there: bool, name: &str, path: &str)
    ensures
        checks_of(final(checks)@) == checks_of(old(checks)@).push(dir_verdict(there, name@, path@)),
{
    let mut message = String::from_str(name);
    message.append(": ");
    message.append(path);
    let level = if there {
        CheckLevel::Passed
    } else {
        CheckLevel::Warn
    };
    push_level(checks, level, name, message);
}

fn labelled(label: &str, value: &str) -> (r: String)
    ensures
        r@ == label@ + value@,
{
    let mut out = String::from_str(label);
    out.append(value);
    out
}

/// The checks of files and directories.
pub open spec fn path_checks(paths: AppPaths, facts: SetupFacts) -> Seq<CheckView> {
    Seq::<CheckView>::empty().push(
        verdict(facts.config, "config"@, "config path: "@ + paths.config_path@),
    ).push(verdict(facts.work_dir, "work-dir"@, "work dir: "@ + paths.work_dir@)).push(
        dir_verdict(facts.app_dir, "app-dir"@, paths.app_dir@),
    ).push(dir_verdict(facts.sessions, "sessions"@, paths.sessions_dir@)).push(
        dir_verdict(facts.channel, "channel"@, paths.channel_data_dir@),
    ).push(dir_verdict(facts.skills, "skills"@, paths.skills_dir@)).push(
        dir_verdict(facts.mems, "mems"@, paths.mems_dir@),
    ).push(dir_verdict(facts.crons, "crons"@, paths.crons_dir@))
}

/// Checks files and directories.
fn check_paths(paths: &AppPaths, facts: &SetupFacts) -> (r: Vec<Check>)
    ensures
        checks_of(r@) == path_checks(*paths, *facts),
{
    let mut checks: Vec<Check> = Vec::new();
    assert(checks_of(checks@) =~= Seq::<CheckView>::empty());
    push_check(
        &mut checks,
        facts.config,
        "config",
        labelled("config path: ", paths.config_path.as_str()),
    );
    push_check(
        &mut checks,
        facts.work_dir,
        "work-dir",
        labelled("work dir: ", paths.work_dir.as_str()),
    );
    push_dir(&mut checks, facts.app_dir, "app-dir", paths.app_dir.as_str());
    push_dir(&mut checks, facts.sessions, "sessions", paths.sessions_dir.as_str());
    push_dir(&mut checks, facts.channel, "channel", paths.channel_data_dir.as_str());
    push_dir(&mut checks, facts.skills, "skills", paths.skills_dir.as_str());
    push_dir(&mut checks, facts.mems, "mems", paths.mems_dir.as_str());
    push_dir(&mut checks, facts.crons, "crons", paths.crons_dir.as_str());
    checks
}

/// Whether a value is given and not blank.
pub open spec fn is_given(value: Option<String>) -> bool {
    value is Some && !is_blank(value->0@)
}

fn given(value: &Option<String>) -> (r: bool)
    ensures
        r == is_given(*value),
{
    match value {
        Some(s) => !blank(s.as_str()),
        None => false,
    }
}

/// Whether an environment variable is set and not blank.
pub open spec fn env_set(facts: SetupFacts, name: Seq<char>) -> bool {
    texts(facts.env@).contains(name)
}

fn env_is_set(facts: &SetupFacts, name: &str) -> (r: bool)
    ensures
        r == env_set(*facts, name@),
{
    let mut i: usize = 0;
    while i < facts.env.len()
        invariant
            i <= facts.env@.len(),
            forall|k: int| 0 <= k < i ==> texts(facts.env@)[k] != name@,
        decreases facts.env@.len() - i,
    {
        if same_text(facts.env[i].as_str(), name) {
            assert(texts(facts.env@)[i as int] == name@);
            return true;
        }
        i += 1;
    }
    false
}

/// The check of an environment variable.
pub open spec fn env_verdict(facts: SetupFacts, env_name: Seq<char>, name: Seq<char>) -> CheckView {
    verdict(env_set(facts, env_name), name, "env "@ + env_name + " is set"@)
}

fn push_env_check(checks: &mut Vec<Check>, facts: &SetupFacts, env_name: &str, name: &str)
    ensures
        checks_of(final(checks)@) == checks_of(old(checks)@).push(
            env_verdict(*facts, env_name@, name@),
        ),
{
    let mut message = String::from_str("env ");
    message.append(env_name);
    message.append(" is set");
    push_check(checks, env_is_set(facts, env_name), name, message);
}

/// The check of a secret: given directly, or by an environment variable.
pub open spec fn secret_verdict(
    facts: SetupFacts,
    direct: Option<String>,
    env_name: Option<String>,
    name: Seq<char>,
) -> CheckView {
    if is_given(direct) {
        CheckView { level: CheckLevel::Passed, name, message: "configured directly"@ }
    } else {
        match env_name {
            Some(env) => env_verdict(facts, env@, name),
            None => CheckView {
                level: CheckLevel::Fail,
                name,
                message: "missing direct value and env name"@,
            },
        }
    }
}

fn push_secret_check(
    checks: &mut Vec<Check>,
    facts: &SetupFacts,
    direct: &Option<String>,
    env_name: &Option<String>,
    name: &str,
)
    ensures
        checks_of(final(checks)@) == checks_of(old(checks)@).push(
            secret_verdict(*facts, *direct, *env_name, name@),
        ),
{
    if given(direct) {
        push_level(checks, CheckLevel::Passed, name, String::from_str("configured directly"));
        return;
    }
    match env_name {
        Some(env) => push_env_check(checks, facts, env.as_str(), name),
        None => push_level(
            checks,
            CheckLevel::Fail,
            name,
            String::from_str("missing direct value and env name"),
        ),
    }
}

/// The checks of a profile of a provider.
pub open spec fn profile_checks(
    key: Seq<char>,
    profile: ModelProviderConfig,
    facts: SetupFacts,
) -> Seq<CheckView> {
    let base = Seq::<CheckView>::empty().push(
        verdict(
            is_given(profile.base_url),
            "provider.base_url"@,
            "profile `"@ + key + "` base_url configured"@,
        ),
    );
    match profile.env_key {
        Some(env) => base.push(env_verdict(facts, env@, "provider.env_key"@)),
        None => if profile.experimental_bearer_token is None && !profile.requires_openai_auth {
            base.push(
                CheckView {
                    level: CheckLevel::Warn,
                    name: "provider.env_key"@,
                    message: "profile `"@ + key + "` has no env_key or bearer token"@,
                },
            )
        } else {
            base
        },
    }
}

/// The checks of a provider that logs in or uses a profile.
pub open spec fn codex_checks(
    provider: ProviderConfig,
    config: AppConfig,
    paths: AppPaths,
    facts: SetupFacts,
) -> Seq<CheckView> {
    match provider.custom_provider {
        Some(key) => match lookup(config.model_providers@, key@) {
            Some(profile) => profile_checks(key@, profile, facts),
            None => Seq::<CheckView>::empty().push(
                CheckView {
                    level: CheckLevel::Fail,
                    name: "provider.custom_provider"@,
                    message: "profile `"@ + key@ + "` is missing"@,
                },
            ),
        },
        None => Seq::<CheckView>::empty().push(
            verdict(facts.auth, "codex.auth"@, "auth path: "@ + paths.auth_path@),
        ),
    }
}

fn quoted_profile(key: &str, rest: &str) -> (r: String)
    ensures
        r@ == "profile `"@ + key@ + rest@,
{
    let mut out = String::from_str("profile `");
    out.append(key);
    out.append(rest);
    out
}

fn check_codex_provider(
    provider: &ProviderConfig,
    config: &AppConfig,
    paths: &AppPaths,
    facts: &SetupFacts,
) -> (r: Vec<Check>)
    ensures
        checks_of(r@) == codex_checks(*provider, *config, *paths, *facts),
{
    let mut checks: Vec<Check> = Vec::new();
    assert(checks_of(checks@) =~= Seq::<CheckView>::empty());
    let key = match &provider.custom_provider {
        Some(key) => key.as_str(),
        None => {
            push_check(
                &mut checks,
                facts.auth,
                "codex.auth",
                labelled("auth path: ", paths.auth_path.as_str()),
            );
            return checks;
        },
    };
    let profile = match config.model_providers.get(key) {
        Some(profile) => profile,
        None => {
            push_level(
                &mut checks,
                CheckLevel::Fail,
                "provider.custom_provider",
                quoted_profile(key, "` is missing"),
            );
            return checks;
        },
    };
    push_check(
        &mut checks,
        given(&profile.base_url),
        "provider.base_url",
        quoted_profile(key, "` base_url configured"),
    );
    match &profile.env_key {
        Some(env) => push_env_check(&mut checks, facts, env.as_str(), "provider.env_key"),
        None => if profile.experimental_bearer_token.is_none() && !profile.requires_openai_auth {
            push_level(
                &mut checks,
                CheckLevel::Warn,
                "provider.env_key",
                quoted_profile(key, "` has no env_key or bearer token"),
            );
        },
    }
    checks
}

/// A provider that needs a key of its own.
pub struct KeyedProvider {
    /// The kind that the configuration names; an empty one is that of no
    /// provider.
    pub kind: String,
    /// The name that people know.
    pub title: String,
}

/// The provider with a key of its own that a configuration asks for: any but
/// `codex`. People know it by its kind, with a capital letter.
pub fn named_provider(provider: &ProviderConfig) -> (r: KeyedProvider)
    ensures
        r.kind@ == if provider.kind@ == "codex"@ {
            Seq::<char>::empty()
        } else {
            provider.kind@
        },
        r.title@ == capitalised(r.kind@),
{
    let kind = if same_text(provider.kind.as_str(), "codex") {
        String::new()
    } else {
        provider.kind.clone()
    };
    KeyedProvider { title: capitalised_text(kind.as_str()), kind }
}

/// The checks of a provider that needs a key of its own.
pub open spec fn keyed_checks(
    keyed: KeyedProvider,
    provider: ProviderConfig,
    facts: SetupFacts,
) -> Seq<CheckView> {
    let has_key = is_given(provider.api_key) || (provider.api_key_env is Some && env_set(
        facts,
        provider.api_key_env->0@,
    ));
    Seq::<CheckView>::empty().push(
        verdict(has_key, keyed.kind@ + ".api-key"@, keyed.title@ + " API key configured"@),
    ).push(
        verdict(
            provider.max_tokens is Some,
            keyed.kind@ + ".max-tokens"@,
            keyed.title@ + " max-tokens configured"@,
        ),
    )
}

fn check_keyed_provider(
    keyed: &KeyedProvider,
    provider: &ProviderConfig,
    facts: &SetupFacts,
) -> (r: Vec<Check>)
    ensures
        checks_of(r@) == keyed_checks(*keyed, *provider, *facts),
{
    let has_key = if given(&provider.api_key) {
        true
    } else {
        match &provider.api_key_env {
            Some(env) => env_is_set(facts, env.as_str()),
            None => false,
        }
    };
    let mut checks: Vec<Check> = Vec::new();
    assert(checks_of(checks@) =~= Seq::<CheckView>::empty());
    push_check(
        &mut checks,
        has_key,
        labelled(keyed.kind.as_str(), ".api-key").as_str(),
        labelled(keyed.title.as_str(), " API key configured"),
    );
    push_check(
        &mut checks,
        provider.max_tokens.is_some(),
        labelled(keyed.kind.as_str(), ".max-tokens").as_str(),
        labelled(keyed.title.as_str(), " max-tokens configured"),
    );
    checks
}

/// The checks of the provider: those of its kind, and that of the model.
pub open spec fn provider_checks(
    keyed: KeyedProvider,
    config: AppConfig,
    paths: AppPaths,
    facts: SetupFacts,
) -> Seq<CheckView> {
    let provider = config.provider;
    let own = if provider.kind@ == "codex"@ {
        codex_checks(provider, config, paths, facts)
    } else if provider.kind@.len() > 0 && provider.kind@ == keyed.kind@ {
        keyed_checks(keyed, provider, facts)
    } else {
        Seq::<CheckView>::empty().push(
            CheckView {
                level: CheckLevel::Fail,
                name: "provider.kind"@,
                message: "unsupported provider kind: "@ + provider.kind@,
            },
        )
    };
    own.push(
        verdict(
            is_given(provider.model),
            "provider.model"@,
            "model: "@ + match provider.model {
                Some(model) => model@,
                None => "<missing>"@,
            },
        ),
    )
}

fn check_provider(
    keyed: &KeyedProvider,
    config: &AppConfig,
    paths: &AppPaths,
    facts: &SetupFacts,
) -> (r: Vec<Check>)
    ensures
        checks_of(r@) == provider_checks(*keyed, *config, *paths, *facts),
{
    let provider = &config.provider;
    let kind = provider.kind.as_str();
    let mut checks = if same_text(kind, "codex") {
        check_codex_provider(provider, config, paths, facts)
    } else if kind.unicode_len() > 0 && same_text(kind, keyed.kind.as_str()) {
        check_keyed_provider(keyed, provider, facts)
    } else {
        let mut list: Vec<Check> = Vec::new();
        assert(checks_of(list@) =~= Seq::<CheckView>::empty());
        push_level(
            &mut list,
            CheckLevel::Fail,
            "provider.kind",
            labelled("unsupported provider kind: ", kind),
        );
        list
    };
    let message = match &provider.model {
        Some(model) => labelled("model: ", model.as_str()),
        None => labelled("model: ", "<missing>"),
    };
    push_check(&mut checks, given(&provider.model), "provider.model", message);
    checks
}

/// The name of a check of a channel.
pub open spec fn channel_check_name(channel: ChannelConfig, what: Seq<char>) -> Seq<char> {
    "channel."@ + channel.name@ + what
}

/// The checks of a channel: its credentials.
pub open spec fn channel_checks(channel: ChannelConfig, facts: SetupFacts) -> Seq<CheckView> {
    let kind = channel.kind@;
    let none = Seq::<CheckView>::empty();
    if kind == "feishu"@ || kind == "lark"@ {
        none.push(
            secret_verdict(
                facts,
                channel.feishu.app_id,
                channel.feishu.app_id_env,
                channel_check_name(channel, ".app_id"@),
            ),
        ).push(
            secret_verdict(
                facts,
                channel.feishu.app_secret,
                channel.feishu.app_secret_env,
                channel_check_name(channel, ".app_secret"@),
            ),
        )
    } else if kind == "telegram"@ || kind == "tg"@ {
        none.push(
            secret_verdict(
                facts,
                channel.telegram.bot_token,
                channel.telegram.bot_token_env,
                channel_check_name(channel, ".bot_token"@),
            ),
        )
    } else if kind == "qq"@ || kind == "qqbot"@ {
        none.push(
            secret_verdict(
                facts,
                channel.qq.app_id,
                channel.qq.app_id_env,
                channel_check_name(channel, ".app_id"@),
            ),
        ).push(
            secret_verdict(
                facts,
                channel.qq.app_secret,
                channel.qq.app_secret_env,
                channel_check_name(channel, ".app_secret"@),
            ),
        )
    } else {
        none.push(
            CheckView {
                level: CheckLevel::Fail,
                name: "channel."@ + channel.name@,
                message: "unsupported channel kind: "@ + kind,
            },
        )
    }
}

fn check_name(channel: &ChannelConfig, what: &str) -> (r: String)
    ensures
        r@ == channel_check_name(*channel, what@),
{
    let mut out = String::from_str("channel.");
    out.append(channel.name.as_str());
    out.append(what);
    out
}

fn check_channel(checks: &mut Vec<Check>, channel: &ChannelConfig, facts: &SetupFacts)
    ensures
        checks_of(final(checks)@) == checks_of(old(checks)@) + channel_checks(*channel, *facts),
{
    let ghost before = checks_of(checks@);
    let kind = channel.kind.as_str();
    if same_text(kind, "feishu") || same_text(kind, "lark") {
        push_secret_check(
            checks,
            facts,
            &channel.feishu.app_id,
            &channel.feishu.app_id_env,
            check_name(channel, ".app_id").as_str(),
        );
        push_secret_check(
            checks,
            facts,
            &channel.feishu.app_secret,
            &channel.feishu.app_secret_env,
            check_name(channel, ".app_secret").as_str(),
        );
    } else if same_text(kind, "telegram") || same_text(kind, "tg") {
        push_secret_check(
            checks,
            facts,
            &channel.telegram.bot_token,
            &channel.telegram.bot_token_env,
            check_name(channel, ".bot_token").as_str(),
        );
    } else if same_text(kind, "qq") || same_text(kind, "qqbot") {
        push_secret_check(
            checks,
            facts,
            &channel.qq.app_id,
            &channel.qq.app_id_env,
            check_name(channel, ".app_id").as_str(),
        );
        push_secret_check(
            checks,
            facts,
            &channel.qq.app_secret,
            &channel.qq.app_secret_env,
            check_name(channel, ".app_secret").as_str(),
        );
    } else {
        push_level(
            checks,
            CheckLevel::Fail,
            labelled("channel.", channel.name.as_str()).as_str(),
            labelled("unsupported channel kind: ", kind),
        );
    }
    assert(checks_of(checks@) =~= before + channel_checks(*channel, *facts));
}

/// The checks of the channels that are switched on, one after the other.
pub open spec fn enabled_checks(channels: Seq<ChannelConfig>, facts: SetupFacts) -> Seq<CheckView>
    decreases channels.len(),
{
    if channels.len() == 0 {
        Seq::empty()
    } else {
        let before = enabled_checks(channels.drop_last(), facts);
        if channels.last().enabled {
            before + channel_checks(channels.last(), facts)
        } else {
            before
        }
    }
}

/// The checks of all channels: it is worth a warning where none is switched on.
pub open spec fn all_channel_checks(
    channels: Seq<ChannelConfig>,
    facts: SetupFacts,
) -> Seq<CheckView> {
    if exists|i: int| 0 <= i < channels.len() && (#[trigger] channels[i]).enabled {
        enabled_checks(channels, facts)
    } else {
        Seq::<CheckView>::empty().push(
            CheckView {
                level: CheckLevel::Warn,
                name: "channels"@,
                message: "no enabled channels"@,
            },
        )
    }
}

fn check_channels(checks: &mut Vec<Check>, channels: &Vec<ChannelConfig>, facts: &SetupFacts)
    ensures
        checks_of(final(checks)@) == checks_of(old(checks)@) + all_channel_checks(
            channels@,
            *facts,
        ),
{
    let ghost before = checks_of(checks@);
    let ghost all = channels@;
    let mut any = false;
    let mut i: usize = 0;
    assert(all.take(0) =~= Seq::<ChannelConfig>::empty());
    assert(before + Seq::<CheckView>::empty() =~= before);
    while i < channels.len()
        invariant
            i <= channels@.len(),
            all == channels@,
            any == (exists|k: int| 0 <= k < i && (#[trigger] all[k]).enabled),
            checks_of(checks@) == before + enabled_checks(all.take(i as int), *facts),
        decreases channels@.len() - i,
    {
        assert(all.take(i + 1).drop_last() =~= all.take(i as int));
        if channels[i].enabled {
            assert(all[i as int].enabled);
            let ghost known = enabled_checks(all.take(i as int), *facts);
            let ghost more = channel_checks(all[i as int], *facts);
            check_channel(checks, &channels[i], facts);
            assert(before + known + more =~= before + (known + more));
            any = true;
        }
        i += 1;
    }
    assert(all.take(all.len() as int) =~= all);
    if !any {
        proof {
            lemma_none_enabled(all, *facts);
            assert(checks_of(checks@) =~= before);
        }
        push_level(
            checks,
            CheckLevel::Warn,
            "channels",
            String::from_str("no enabled channels"),
        );
        assert(checks_of(checks@) =~= before + all_channel_checks(all, *facts));
    }
}

proof fn lemma_none_enabled(channels: Seq<ChannelConfig>, facts: SetupFacts)
    requires
        forall|i: int| 0 <= i < channels.len() ==> !(#[trigger] channels[i]).enabled,
    ensures
        enabled_checks(channels, facts) == Seq::<CheckView>::empty(),
    decreases channels.len(),
{
    if channels.len() > 0 {
        let front = channels.drop_last();
        assert forall|i: int| 0 <= i < front.len() implies !(#[trigger] front[i]).enabled by {
            assert(front[i] == channels[i]);
        }
        lemma_none_enabled(front, facts);
        assert(!channels[channels.len() - 1].enabled);
    }
}

/// All checks of the setup.
pub open spec fn all_checks(
    keyed: KeyedProvider,
    config: AppConfig,
    paths: AppPaths,
    facts: SetupFacts,
) -> Seq<CheckView> {
    path_checks(paths, facts) + provider_checks(keyed, config, paths, facts) + all_channel_checks(
        config.channels@,
        facts,
    )
}

/// Checks the setup, given what is there.
pub fn run_checks(
    keyed: &KeyedProvider,
    config: &AppConfig,
    paths: &AppPaths,
    facts: &SetupFacts,
) -> (r: Vec<Check>)
    ensures
        checks_of(r@) == all_checks(*keyed, *config, *paths, *facts),
{
    let mut checks = check_paths(paths, facts);
    let ghost first = checks_of(checks@);
    let mut rest = check_provider(keyed, config, paths, facts);
    let ghost second = checks_of(rest@);
    let ghost own = checks@;
    let ghost other = rest@;
    checks.append(&mut rest);
    assert(checks_of(checks@) =~= first + second);
    check_channels(&mut checks, &config.channels, facts);
    checks
}

/// What the checks come to: one that failed is an error.
pub fn doctor_result(checks: &Vec<Check>) -> (r: AppResult<()>)
    ensures
        match r {
            Ok(_) => forall|i: int|
                0 <= i < checks@.len() ==> (#[trigger] checks@[i]).level != CheckLevel::Fail,
            Err(e) => {
                &&& exists|i: int|
                    0 <= i < checks@.len() && (#[trigger] checks@[i]).level == CheckLevel::Fail
                &&& e@ == ErrorView::Cli("doctor found failed checks"@)
            },
        },
{
    let mut i: usize = 0;
    while i < checks.len()
        invariant
            i <= checks@.len(),
            forall|k: int| 0 <= k < i ==> (#[trigger] checks@[k]).level != CheckLevel::Fail,
        decreases checks@.len() - i,
    {
        if checks[i].level == CheckLevel::Fail {
            return Err(AppError::Cli(String::from_str("doctor found failed checks")));
        }
        i += 1;
    }
    Ok(())
}

/// The mark of a check that came out in some way, four characters wide.
pub open spec fn mark(level: CheckLevel) -> Seq<char> {
    match level {
        CheckLevel::Passed => "  ok"@,
        CheckLevel::Warn => "warn"@,
        CheckLevel::Fail => "fail"@,
    }
}

/// The line that shows a check.
pub fn check_line(check: &Check) -> (r: String)
    ensures
        r@ == mark(check.level) + "  "@ + padded(check.name@, 28) + " "@ + check.message@,
{
    let mut out = match check.level {
        CheckLevel::Passed => String::from_str("  ok"),
        CheckLevel::Warn => String::from_str("warn"),
        CheckLevel::Fail => String::from_str("fail"),
    };
    out.append("  ");
    out.append(pad_end(check.name.as_str(), 28).as_str());
    out.append(" ");
    out.append(check.message.as_str());
    out
}

/// Whether a list of checks holds one of the given name that failed.
pub open spec fn fails(list: Seq<CheckView>, name: Seq<char>) -> bool {
    exists|i: int|
        0 <= i < list.len() && (#[trigger] list[i]).name == name && list[i].level
            == CheckLevel::Fail
}

/// Without a configuration or the directory to work in the checks fail;
/// directories that are made when they are needed only cause warnings.
pub proof fn law_missing_files_are_found(paths: AppPaths, facts: SetupFacts)
    ensures
        !facts.config <==> fails(path_checks(paths, facts), "config"@),
        !facts.work_dir <==> fails(path_checks(paths, facts), "work-dir"@),
        path_checks(paths, facts).len() == 8,
        forall|i: int|
            2 <= i < 8 ==> (#[trigger] path_checks(paths, facts)[i]).level != CheckLevel::Fail,
        facts.app_dir <==> path_checks(paths, facts)[2].level == CheckLevel::Passed,
        facts.sessions <==> path_checks(paths, facts)[3].level == CheckLevel::Passed,
        facts.channel <==> path_checks(paths, facts)[4].level == CheckLevel::Passed,
        facts.skills <==> path_checks(paths, facts)[5].level == CheckLevel::Passed,
        facts.mems <==> path_checks(paths, facts)[6].level == CheckLevel::Passed,
        facts.crons <==> path_checks(paths, facts)[7].level == CheckLevel::Passed,
{
    reveal_strlit("config");
    reveal_strlit("work-dir");
    assert("config"@.len() == 6 && "work-dir"@.len() == 8);
    let list = path_checks(paths, facts);
    assert(list[0].name == "config"@ && list[1].name == "work-dir"@);
    assert(list[0].level == if facts.config {
        CheckLevel::Passed
    } else {
        CheckLevel::Fail
    });
    assert(list[1].level == if facts.work_dir {
        CheckLevel::Passed
    } else {
        CheckLevel::Fail
    });
    assert forall|i: int| 2 <= i < 8 implies (#[trigger] list[i]).level != CheckLevel::Fail by {
        assert(i == 2 || i == 3 || i == 4 || i == 5 || i == 6 || i == 7);
    }
}

/// A secret passes where it is given directly or its environment variable is
/// set, and fails otherwise.
pub proof fn law_secrets_have_to_be_there(
    facts: SetupFacts,
    direct: Option<String>,
    env_name: Option<String>,
    name: Seq<char>,
)
    ensures
        secret_verdict(facts, direct, env_name, name).name == name,
        secret_verdict(facts, direct, env_name, name).level == CheckLevel::Passed || secret_verdict(
            facts,
            direct,
            env_name,
            name,
        ).level == CheckLevel::Fail,
        secret_verdict(facts, direct, env_name, name).level == CheckLevel::Passed <==> (direct
            is Some && !is_blank(direct->0@)) || (env_name is Some && texts(facts.env@).contains(
            env_name->0@,
        )),
{
}

/// A provider that is used without a profile needs a login; one with a profile
/// needs that profile, and the profile an address and its environment
/// variable.
pub proof fn law_the_login_or_the_profile_has_to_be_there(
    provider: ProviderConfig,
    config: AppConfig,
    paths: AppPaths,
    facts: SetupFacts,
)
    ensures
        ({
            let list = codex_checks(provider, config, paths, facts);
            &&& provider.custom_provider is None ==> (fails(list, "codex.auth"@) <==> !facts.auth)
            &&& provider.custom_provider matches Some(key) ==> (lookup(
                config.model_providers@,
                key@,
            ) is None ==> fails(list, "provider.custom_provider"@))
            &&& provider.custom_provider matches Some(key) ==> (lookup(
                config.model_providers@,
                key@,
            ) matches Some(profile) ==> (!is_given(profile.base_url) ==> fails(
                list,
                "provider.base_url"@,
            )) && (profile.env_key is Some && !texts(facts.env@).contains(profile.env_key->0@)
                ==> fails(list, "provider.env_key"@)))
        }),
{
    let list = codex_checks(provider, config, paths, facts);
    match provider.custom_provider {
        Some(key) => match lookup(config.model_providers@, key@) {
            Some(profile) => {
                assert(list[0].name == "provider.base_url"@);
                if profile.env_key is Some {
                    assert(list[1].name == "provider.env_key"@);
                }
            },
            None => {
                assert(list[0].name == "provider.custom_provider"@);
            },
        },
        None => {
            assert(list[0].name == "codex.auth"@);
        },
    }
}

/// A provider with a key of its own needs the key and the number of tokens.
pub proof fn law_the_key_has_to_be_there(
    keyed: KeyedProvider,
    provider: ProviderConfig,
    facts: SetupFacts,
)
    ensures
        ({
            let list = keyed_checks(keyed, provider, facts);
            let has_key = is_given(provider.api_key) || (provider.api_key_env is Some && texts(
                facts.env@,
            ).contains(provider.api_key_env->0@));
            &&& !has_key <==> fails(list, keyed.kind@ + ".api-key"@)
            &&& provider.max_tokens is None <==> fails(list, keyed.kind@ + ".max-tokens"@)
        }),
{
    reveal_strlit(".api-key");
    reveal_strlit(".max-tokens");
    assert(".api-key"@.len() == 8 && ".max-tokens"@.len() == 11);
    let list = keyed_checks(keyed, provider, facts);
    let a = keyed.kind@ + ".api-key"@;
    let b = keyed.kind@ + ".max-tokens"@;
    assert(a.len() != b.len());
    assert(list[0].name == a && list[1].name == b && list.len() == 2);
}

/// A setup without a model fails, and so does one with a kind of provider that
/// is not known.
pub proof fn law_the_model_has_to_be_there(
    keyed: KeyedProvider,
    config: AppConfig,
    paths: AppPaths,
    facts: SetupFacts,
)
    ensures
        ({
            let list = all_checks(keyed, config, paths, facts);
            &&& !is_given(config.provider.model) ==> fails(list, "provider.model"@)
            &&& config.provider.kind@ != "codex"@ && config.provider.kind@ != keyed.kind@ ==> fails(
                list,
                "provider.kind"@,
            )
            &&& !facts.config ==> fails(list, "config"@)
            &&& !facts.work_dir ==> fails(list, "work-dir"@)
        }),
{
    let list = all_checks(keyed, config, paths, facts);
    let first = path_checks(paths, facts);
    let own = provider_checks(keyed, config, paths, facts);
    assert(list[0] == first[0] && list[1] == first[1]);
    assert(first[0].name == "config"@ && first[1].name == "work-dir"@);
    let at = first.len() + own.len() - 1;
    assert(list[at] == own[own.len() - 1]);
    assert(own[own.len() - 1].name == "provider.model"@);
    if config.provider.kind@ != "codex"@ && config.provider.kind@ != keyed.kind@ {
        assert(own[0].name == "provider.kind"@ && own[0].level == CheckLevel::Fail);
        assert(list[first.len() as int] == own[0]);
    }
}

/// The credentials of every channel that is switched on are checked, and those
/// of channels that are switched off are not.
pub proof fn law_enabled_channels_are_checked(
    channels: Seq<ChannelConfig>,
    facts: SetupFacts,
    i: int,
    k: int,
)
    requires
        0 <= i < channels.len(),
        channels[i].enabled,
        0 <= k < channel_checks(channels[i], facts).len(),
    ensures
        all_channel_checks(channels, facts).contains(channel_checks(channels[i], facts)[k]),
{
    lemma_enabled_place(channels, facts, i, k);
}

proof fn lemma_enabled_place(
    channels: Seq<ChannelConfig>,
    facts: SetupFacts,
    i: int,
    k: int,
)
    requires
        0 <= i < channels.len(),
        channels[i].enabled,
        0 <= k < channel_checks(channels[i], facts).len(),
    ensures
        enabled_checks(channels, facts).contains(channel_checks(channels[i], facts)[k]),
    decreases channels.len(),
{
    let front = channels.drop_last();
    let before = enabled_checks(front, facts);
    let all = enabled_checks(channels, facts);
    let check = channel_checks(channels[i], facts)[k];
    if i == channels.len() - 1 {
        assert(all[before.len() + k] == check);
    } else {
        assert(front[i] == channels[i]);
        lemma_enabled_place(front, facts, i, k);
        let n = choose|n: int| 0 <= n < before.len() && before[n] == check;
        assert(all[n] == check);
    }
}

/// Channels that are switched off change nothing; without any other there is a
/// warning.
pub proof fn law_disabled_channels_do_not_matter(
    channels: Seq<ChannelConfig>,
    off: ChannelConfig,
    facts: SetupFacts,
)
    requires
        !off.enabled,
    ensures
        all_channel_checks(channels.push(off), facts) == all_channel_checks(channels, facts),
        channels.len() == 0 ==> all_channel_checks(channels, facts).len() == 1
            && all_channel_checks(channels, facts)[0].level == CheckLevel::Warn,
{
    let more = channels.push(off);
    assert(more.drop_last() =~= channels);
    if exists|i: int| 0 <= i < channels.len() && (#[trigger] channels[i]).enabled {
        let i = choose|i: int| 0 <= i < channels.len() && (#[trigger] channels[i]).enabled;
        assert(more[i].enabled);
    }
    if exists|i: int| 0 <= i < more.len() && (#[trigger] more[i]).enabled {
        let i = choose|i: int| 0 <= i < more.len() && (#[trigger] more[i]).enabled;
        assert(channels[i].enabled);
    }
}

/// Every kind of channel needs its own credentials: the two Feishu names and
/// the two QQ names an id and a secret, the two Telegram names a token. Other
/// kinds fail.
pub proof fn law_channels_need_their_credentials(channel: ChannelConfig, facts: SetupFacts)
    ensures
        ({
            let list = channel_checks(channel, facts);
            let kind = channel.kind@;
            &&& kind == "feishu"@ || kind == "lark"@ ==> list.len() == 2 && list[0]
                == secret_verdict(
                facts,
                channel.feishu.app_id,
                channel.feishu.app_id_env,
                "channel."@ + channel.name@ + ".app_id"@,
            ) && list[1] == secret_verdict(
                facts,
                channel.feishu.app_secret,
                channel.feishu.app_secret_env,
                "channel."@ + channel.name@ + ".app_secret"@,
            )
            &&& kind == "qq"@ || kind == "qqbot"@ ==> list.len() == 2 && list[0] == secret_verdict(
                facts,
                channel.qq.app_id,
                channel.qq.app_id_env,
                "channel."@ + channel.name@ + ".app_id"@,
            ) && list[1] == secret_verdict(
                facts,
                channel.qq.app_secret,
                channel.qq.app_secret_env,
                "channel."@ + channel.name@ + ".app_secret"@,
            )
            &&& kind == "telegram"@ || kind == "tg"@ ==> list.len() == 1 && list[0]
                == secret_verdict(
                facts,
                channel.telegram.bot_token,
                channel.telegram.bot_token_env,
                "channel."@ + channel.name@ + ".bot_token"@,
            )
            &&& kind_of(kind) is None ==> fails(list, "channel."@ + channel.name@)
        }),
{
    law_channels_go_by_their_names(channel.kind@);
    reveal_strlit("feishu");
    reveal_strlit("lark");
    reveal_strlit("qq");
    reveal_strlit("qqbot");
    reveal_strlit("telegram");
    reveal_strlit("tg");
    assert("feishu"@.len() == 6 && "lark"@.len() == 4 && "qqbot"@.len() == 5 && "telegram"@.len()
        == 8);
    assert("qq"@.len() == 2 && "tg"@.len() == 2 && "qq"@[0] == 'q' && "tg"@[0] == 't');
    let list = channel_checks(channel, facts);
    if kind_of(channel.kind@) is None {
        assert(list[0].level == CheckLevel::Fail);
    }
}

} // verus!
