//! The configuration of the daemon.

use crate::assoc::{assign, lemma_lookup_assigned, lookup, Assoc};
use crate::message::clone_opt;
use crate::text::{opt_text, same_text};
use vstd::prelude::*;

verus! {

/// The whole configuration.
#[derive(Debug, PartialEq, Eq)]
pub struct AppConfig {
    /// The directory to work in; without it the home directory.
    pub work_dir: Option<String>,
    /// Whether session histories are kept on disk.
    pub cache_session: bool,
    /// The model, where the provider names none.
    pub model: Option<String>,
    /// The reasoning effort, where the provider names none.
    pub model_reasoning_effort: Option<String>,
    /// The service tier, where the provider names none.
    pub service_tier: Option<String>,
    /// The provider profile to use.
    pub model_provider: Option<String>,
    /// The log.
    pub log: LogConfig,
    /// The provider.
    pub provider: ProviderConfig,
    /// The custom provider to use.
    pub custom_provider: Option<String>,
    /// The known provider profiles, by key.
    pub model_providers: Assoc<ModelProviderConfig>,
    /// The channels.
    pub channels: Vec<ChannelConfig>,
}

/// The log.
#[derive(Debug, PartialEq, Eq)]
pub struct LogConfig {
    /// The log file.
    pub path: Option<String>,
    /// The size in bytes from which on the file is emptied.
    pub max_size: u64,
}

/// The provider that answers.
#[derive(Debug, PartialEq, Eq)]
pub struct ProviderConfig {
    /// The kind of provider.
    pub kind: String,
    /// The model.
    pub model: Option<String>,
    /// The custom provider.
    pub custom_provider: Option<String>,
    /// The address of the provider.
    pub base_url: Option<String>,
    /// The key to the provider.
    pub api_key: Option<String>,
    /// The environment variable that holds the key.
    pub api_key_env: Option<String>,
    /// The tokens of one answer at most.
    pub max_tokens: Option<u32>,
    /// The size of the model's context window.
    pub max_context_tokens: Option<u64>,
    /// The reasoning effort.
    pub model_reasoning_effort: Option<String>,
    /// The service tier.
    pub service_tier: Option<String>,
}

/// A provider profile.
#[derive(Debug, PartialEq, Eq)]
pub struct ModelProviderConfig {
    /// The kind of provider; without it `codex`.
    pub kind: Option<String>,
    /// The model.
    pub model: Option<String>,
    /// The custom provider.
    pub custom_provider: Option<String>,
    /// The address of the provider.
    pub base_url: Option<String>,
    /// The environment variable that holds the key.
    pub env_key: Option<String>,
    /// A bearer token.
    pub experimental_bearer_token: Option<String>,
    /// The key to the provider.
    pub api_key: Option<String>,
    /// The environment variable that holds the key.
    pub api_key_env: Option<String>,
    /// The tokens of one answer at most.
    pub max_tokens: Option<u32>,
    /// The size of the model's context window.
    pub max_context_tokens: Option<u64>,
    /// The reasoning effort.
    pub model_reasoning_effort: Option<String>,
    /// The service tier.
    pub service_tier: Option<String>,
    /// Whether the provider needs an OpenAI login.
    pub requires_openai_auth: bool,
}

/// A channel.
#[derive(Debug, PartialEq, Eq)]
pub struct ChannelConfig {
    /// The name of the channel.
    pub name: String,
    /// The kind of the channel.
    pub kind: String,
    /// Whether the channel is used.
    pub enabled: bool,
    /// What a Feishu channel needs.
    pub feishu: FeishuChannelConfig,
    /// What a QQ channel needs.
    pub qq: QqChannelConfig,
    /// What a Telegram channel needs.
    pub telegram: TelegramChannelConfig,
}

/// What a Feishu channel needs.
#[derive(Debug, PartialEq, Eq)]
pub struct FeishuChannelConfig {
    /// The application's id.
    pub app_id: Option<String>,
    /// The application's secret.
    pub app_secret: Option<String>,
    /// The environment variable that holds the id.
    pub app_id_env: Option<String>,
    /// The environment variable that holds the secret.
    pub app_secret_env: Option<String>,
    /// `feishu` or `lark`.
    pub domain: String,
    /// Whether the bot answers in groups only when it is mentioned.
    pub require_mention: bool,
    /// The bot's name.
    pub bot_name: Option<String>,
    /// How many message ids are remembered.
    pub dedup_cache_size: usize,
    /// Seconds between pings.
    pub ping_interval_seconds: u64,
}

/// What a QQ channel needs.
#[derive(Debug, PartialEq, Eq)]
pub struct QqChannelConfig {
    /// The application's id.
    pub app_id: Option<String>,
    /// The application's secret.
    pub app_secret: Option<String>,
    /// The environment variable that holds the id.
    pub app_id_env: Option<String>,
    /// The environment variable that holds the secret.
    pub app_secret_env: Option<String>,
    /// Where tokens come from.
    pub auth_url: String,
    /// The address of the interface.
    pub api_base_url: String,
    /// The events to subscribe to, one bit each.
    pub intents: u64,
    /// How many message ids are remembered.
    pub dedup_cache_size: usize,
    /// Seconds before a lost connection is made again.
    pub reconnect_delay_seconds: u64,
}

/// What a Telegram channel needs.
#[derive(Debug, PartialEq, Eq)]
pub struct TelegramChannelConfig {
    /// The bot's token.
    pub bot_token: Option<String>,
    /// The environment variable that holds the token.
    pub bot_token_env: Option<String>,
    /// The address of the interface.
    pub api_base_url: String,
    /// The address of files.
    pub file_base_url: String,
    /// Whether a webhook is removed first.
    pub delete_webhook_on_start: bool,
    /// Seconds that a poll waits.
    pub poll_timeout_seconds: u64,
    /// Updates that a poll returns at most.
    pub poll_limit: u32,
    /// Whether the bot answers in groups only when it is mentioned.
    pub require_mention: bool,
    /// Whether received messages are confirmed.
    pub send_typing: bool,
    /// Seconds between signs of typing.
    pub typing_refresh_seconds: u64,
    /// Whether attachments are fetched.
    pub download_attachments: bool,
    /// The largest attachment that is fetched.
    pub max_download_bytes: u64,
    /// How many message ids are remembered.
    pub dedup_cache_size: usize,
}

impl Default for AppConfig {
    /// The configuration where there is no file.
    fn default() -> (r: Self)
        ensures
            r.work_dir is None,
            r.cache_session,
            r.model is None,
            opt_text(r.model_reasoning_effort) == Some("high"@),
            r.service_tier is None,
            r.model_provider is None,
            r.log.is_default(),
            r.provider.is_default(),
            r.custom_provider is None,
            r.model_providers@.len() == 0,
            r.channels@.len() == 0,
    {
        AppConfig {
            work_dir: None,
            cache_session: true,
            model: None,
            model_reasoning_effort: Some(String::from_str("high")),
            service_tier: None,
            model_provider: None,
            log: LogConfig::default(),
            provider: ProviderConfig::default(),
            custom_provider: None,
            model_providers: Assoc::new(),
            channels: Vec::new(),
        }
    }
}

impl LogConfig {
    pub open spec fn is_default(self) -> bool {
        opt_text(self.path) == Some("/tmp/llm-loop.log"@) && self.max_size == 4194304
    }
}

impl Default for LogConfig {
    /// A log of four mebibytes in memory.
    fn default() -> (r: Self)
        ensures
            r.is_default(),
    {
        LogConfig { path: Some(String::from_str("/tmp/llm-loop.log")), max_size: 4194304 }
    }
}

impl ProviderConfig {
    pub open spec fn is_default(self) -> bool {
        &&& self.kind@ == "codex"@
        &&& self.model is None
        &&& self.custom_provider is None
        &&& self.base_url is None
        &&& self.api_key is None
        &&& self.api_key_env is None
        &&& self.max_tokens is None
        &&& self.max_context_tokens is None
        &&& self.model_reasoning_effort is None
        &&& self.service_tier is None
    }
}

impl Default for ProviderConfig {
    /// Codex, without a model.
    fn default() -> (r: Self)
        ensures
            r.is_default(),
    {
        ProviderConfig {
            kind: String::from_str("codex"),
            model: None,
            custom_provider: None,
            base_url: None,
            api_key: None,
            api_key_env: None,
            max_tokens: None,
            max_context_tokens: None,
            model_reasoning_effort: None,
            service_tier: None,
        }
    }
}

impl Default for ModelProviderConfig {
    /// A profile that says nothing.
    fn default() -> (r: Self)
        ensures
            r == (ModelProviderConfig {
                kind: None,
                model: None,
                custom_provider: None,
                base_url: None,
                env_key: None,
                experimental_bearer_token: None,
                api_key: None,
                api_key_env: None,
                max_tokens: None,
                max_context_tokens: None,
                model_reasoning_effort: None,
                service_tier: None,
                requires_openai_auth: false,
            }),
    {
        ModelProviderConfig {
            kind: None,
            model: None,
            custom_provider: None,
            base_url: None,
            env_key: None,
            experimental_bearer_token: None,
            api_key: None,
            api_key_env: None,
            max_tokens: None,
            max_context_tokens: None,
            model_reasoning_effort: None,
            service_tier: None,
            requires_openai_auth: false,
        }
    }
}

impl Clone for ModelProviderConfig {
    fn clone(&self) -> (r: Self)
        ensures
            r == *self,
    {
        ModelProviderConfig {
            kind: clone_opt(&self.kind),
            model: clone_opt(&self.model),
            custom_provider: clone_opt(&self.custom_provider),
            base_url: clone_opt(&self.base_url),
            env_key: clone_opt(&self.env_key),
            experimental_bearer_token: clone_opt(&self.experimental_bearer_token),
            api_key: clone_opt(&self.api_key),
            api_key_env: clone_opt(&self.api_key_env),
            max_tokens: self.max_tokens,
            max_context_tokens: self.max_context_tokens,
            model_reasoning_effort: clone_opt(&self.model_reasoning_effort),
            service_tier: clone_opt(&self.service_tier),
            requires_openai_auth: self.requires_openai_auth,
        }
    }
}

impl Default for ChannelConfig {
    /// A channel without a name or a kind, which is not used: it stands for the
    /// fields that a file leaves out.
    fn default() -> (r: Self)
        ensures
            r.name@ == Seq::<char>::empty(),
            r.kind@ == Seq::<char>::empty(),
            !r.enabled,
            r.feishu.is_default(),
            r.qq.is_default(),
            r.telegram.is_default(),
    {
        ChannelConfig {
            name: String::new(),
            kind: String::new(),
            enabled: false,
            feishu: FeishuChannelConfig::default(),
            qq: QqChannelConfig::default(),
            telegram: TelegramChannelConfig::default(),
        }
    }
}

impl FeishuChannelConfig {
    pub open spec fn is_default(self) -> bool {
        &&& self.app_id is None
        &&& self.app_secret is None
        &&& opt_text(self.app_id_env) == Some("FEISHU_APP_ID"@)
        &&& opt_text(self.app_secret_env) == Some("FEISHU_APP_SECRET"@)
        &&& self.domain@ == "feishu"@
        &&& self.require_mention
        &&& self.bot_name is None
        &&& self.dedup_cache_size == 2048
        &&& self.ping_interval_seconds == 120
    }
}

impl Default for FeishuChannelConfig {
    /// A Feishu channel whose credentials come from the environment.
    fn default() -> (r: Self)
        ensures
            r.is_default(),
    {
        FeishuChannelConfig {
            app_id: None,
            app_secret: None,
            app_id_env: Some(String::from_str("FEISHU_APP_ID")),
            app_secret_env: Some(String::from_str("FEISHU_APP_SECRET")),
            domain: String::from_str("feishu"),
            require_mention: true,
            bot_name: None,
            dedup_cache_size: 2048,
            ping_interval_seconds: 120,
        }
    }
}

impl TelegramChannelConfig {
    pub open spec fn is_default(self) -> bool {
        &&& self.bot_token is None
        &&& opt_text(self.bot_token_env) == Some("TELEGRAM_BOT_TOKEN"@)
        &&& self.api_base_url@ == "https://api.telegram.org"@
        &&& self.file_base_url@ == "https://api.telegram.org/file"@
        &&& self.delete_webhook_on_start
        &&& self.poll_timeout_seconds == 50
        &&& self.poll_limit == 100
        &&& !self.require_mention
        &&& self.send_typing
        &&& self.typing_refresh_seconds == 4
        &&& self.download_attachments
        &&& self.max_download_bytes == 20971520
        &&& self.dedup_cache_size == 4096
    }
}

impl Default for TelegramChannelConfig {
    /// A Telegram channel whose token comes from the environment.
    fn default() -> (r: Self)
        ensures
            r.is_default(),
    {
        TelegramChannelConfig {
            bot_token: None,
            bot_token_env: Some(String::from_str("TELEGRAM_BOT_TOKEN")),
            api_base_url: String::from_str("https://api.telegram.org"),
            file_base_url: String::from_str("https://api.telegram.org/file"),
            delete_webhook_on_start: true,
            poll_timeout_seconds: 50,
            poll_limit: 100,
            require_mention: false,
            send_typing: true,
            typing_refresh_seconds: 4,
            download_attachments: true,
            max_download_bytes: 20971520,
            dedup_cache_size: 4096,
        }
    }
}

impl QqChannelConfig {
    pub open spec fn is_default(self) -> bool {
        &&& self.app_id is None
        &&& self.app_secret is None
        &&& opt_text(self.app_id_env) == Some("QQBOT_APP_ID"@)
        &&& opt_text(self.app_secret_env) == Some("QQBOT_APP_SECRET"@)
        &&& self.auth_url@ == "https://bots.qq.com/app/getAppAccessToken"@
        &&& self.api_base_url@ == "https://api.sgroup.qq.com"@
        &&& self.intents == 0x0600_0000
        &&& self.dedup_cache_size == 2048
        &&& self.reconnect_delay_seconds == 3
    }
}

impl Default for QqChannelConfig {
    /// A QQ channel whose credentials come from the environment.
    fn default() -> (r: Self)
        ensures
            r.is_default(),
    {
        QqChannelConfig {
            app_id: None,
            app_secret: None,
            app_id_env: Some(String::from_str("QQBOT_APP_ID")),
            app_secret_env: Some(String::from_str("QQBOT_APP_SECRET")),
            auth_url: String::from_str("https://bots.qq.com/app/getAppAccessToken"),
            api_base_url: String::from_str("https://api.sgroup.qq.com"),
            intents: 0x0600_0000,
            dedup_cache_size: 2048,
            reconnect_delay_seconds: 3,
        }
    }
}

/// The first value that is given.
pub open spec fn first_of<T>(a: Option<T>, b: Option<T>) -> Option<T> {
    if a is Some {
        a
    } else {
        b
    }
}

/// A copy of the first string that is given.
fn first_text(a: &Option<String>, b: &Option<String>) -> (r: Option<String>)
    ensures
        r == first_of(*a, *b),
{
    match a {
        Some(s) => Some(s.clone()),
        None => clone_opt(b),
    }
}

/// The entries of `base` with those of `over` on top.
pub open spec fn overlaid<T>(base: Seq<(Seq<char>, T)>, over: Seq<(Seq<char>, T)>) -> Seq<
    (Seq<char>, T),
>
    decreases over.len(),
{
    if over.len() == 0 {
        base
    } else {
        assign(overlaid(base, over.drop_last()), over.last().0, over.last().1)
    }
}

/// The profile key that the two configurations select.
pub open spec fn selected_profile(own: AppConfig, codex: AppConfig) -> Option<String> {
    first_of(
        first_of(own.model_provider, own.custom_provider),
        first_of(codex.custom_provider, codex.model_provider),
    )
}

/// The known profiles: those of the own configuration go before those of the
/// Codex configuration.
pub open spec fn known_profiles(own: AppConfig, codex: AppConfig) -> Seq<
    (Seq<char>, ModelProviderConfig),
> {
    overlaid(codex.model_providers@, own.model_providers@)
}

/// The selected profile, where it is known.
pub open spec fn active_profile(own: AppConfig, codex: AppConfig) -> Option<ModelProviderConfig> {
    match selected_profile(own, codex) {
        Some(key) => lookup(known_profiles(own, codex), key@),
        None => None,
    }
}

/// The key of the only profile, where there is just one.
pub open spec fn sole_key<T>(list: Seq<(Seq<char>, T)>) -> Option<Seq<char>> {
    if list.len() == 1 {
        Some(list[0].0)
    } else {
        None
    }
}

impl ProviderConfig {
    /// Whether this is the provider that the given profile makes of the two
    /// configurations.
    pub open spec fn follows_profile(
        self,
        key: Seq<char>,
        profile: ModelProviderConfig,
        own: AppConfig,
        codex: AppConfig,
    ) -> bool {
        let kind = match profile.kind {
            Some(k) => k@,
            None => "codex"@,
        };
        let p = own.provider;
        &&& self.kind@ == kind
        &&& self.model == first_of(
            profile.model,
            first_of(p.model, first_of(own.model, codex.model)),
        )
        &&& self.model_reasoning_effort == first_of(
            profile.model_reasoning_effort,
            first_of(
                p.model_reasoning_effort,
                first_of(own.model_reasoning_effort, codex.model_reasoning_effort),
            ),
        )
        &&& self.service_tier == first_of(
            profile.service_tier,
            first_of(p.service_tier, first_of(own.service_tier, codex.service_tier)),
        )
        &&& self.base_url == first_of(profile.base_url, p.base_url)
        &&& self.api_key == first_of(profile.api_key, p.api_key)
        &&& self.api_key_env == first_of(profile.api_key_env, p.api_key_env)
        &&& self.max_tokens == first_of(profile.max_tokens, p.max_tokens)
        &&& self.max_context_tokens == first_of(profile.max_context_tokens, p.max_context_tokens)
        &&& opt_text(self.custom_provider) == if kind == "codex"@ {
            first_of(opt_text(profile.custom_provider), Some(key))
        } else {
            opt_text(profile.custom_provider)
        }
    }

    /// Whether this is the provider where no profile is selected.
    pub open spec fn follows_configs(self, own: AppConfig, codex: AppConfig) -> bool {
        let p = own.provider;
        &&& self.kind == p.kind
        &&& self.model == first_of(p.model, first_of(own.model, codex.model))
        &&& self.model_reasoning_effort == first_of(
            p.model_reasoning_effort,
            first_of(own.model_reasoning_effort, codex.model_reasoning_effort),
        )
        &&& self.service_tier == first_of(
            p.service_tier,
            first_of(own.service_tier, codex.service_tier),
        )
        &&& self.base_url == p.base_url
        &&& self.api_key == p.api_key
        &&& self.api_key_env == p.api_key_env
        &&& self.max_tokens == p.max_tokens
        &&& self.max_context_tokens == p.max_context_tokens
        &&& opt_text(self.custom_provider) == if p.kind@ == "codex"@ && p.custom_provider is None {
            first_of(
                opt_text(selected_profile(own, codex)),
                sole_key(known_profiles(own, codex)),
            )
        } else {
            opt_text(p.custom_provider)
        }
    }
}

/// Puts the entries of `over` on top of those of `base`.
fn overlay(base: Assoc<ModelProviderConfig>, over: &Assoc<ModelProviderConfig>) -> (r: Assoc<
    ModelProviderConfig,
>)
    ensures
        r@ == overlaid(base@, over@),
{
    let mut out = base;
    let mut i: usize = 0;
    assert(over@.take(0) =~= Seq::empty());
    while i < over.len()
        invariant
            i <= over@.len(),
            out@ == overlaid(base@, over@.take(i as int)),
        decreases over@.len() - i,
    {
        assert(over@.take(i + 1).drop_last() =~= over@.take(i as int));
        out.insert(over.key_at(i).clone(), over.value_at(i).clone());
        i += 1;
    }
    assert(over@.take(over@.len() as int) =~= over@);
    out
}

/// Puts the own configuration and that of the Codex command line together.
pub fn merge_config(config: AppConfig, codex_config: AppConfig) -> (r: AppConfig)
    ensures
        r.model_providers@ == known_profiles(config, codex_config),
        match active_profile(config, codex_config) {
            Some(profile) => r.provider.follows_profile(
                selected_profile(config, codex_config)->0@,
                profile,
                config,
                codex_config,
            ),
            None => r.provider.follows_configs(config, codex_config),
        },
        r == (AppConfig { provider: r.provider, model_providers: r.model_providers, ..config }),
{
    let codex = codex_config;
    let selected = first_text(
        &first_text(&config.model_provider, &config.custom_provider),
        &first_text(&codex.custom_provider, &codex.model_provider),
    );
    let fallback_model = first_text(
        &config.provider.model,
        &first_text(&config.model, &codex.model),
    );
    let fallback_effort = first_text(
        &config.provider.model_reasoning_effort,
        &first_text(&config.model_reasoning_effort, &codex.model_reasoning_effort),
    );
    let fallback_tier = first_text(
        &config.provider.service_tier,
        &first_text(&config.service_tier, &codex.service_tier),
    );
    let providers = overlay(codex.model_providers, &config.model_providers);
    let profile = match &selected {
        Some(key) => match providers.get(key.as_str()) {
            Some(found) => Some(found.clone()),
            None => None,
        },
        None => None,
    };
    let provider = match (&selected, &profile) {
        (Some(key), Some(found)) => profile_provider(
            key.as_str(),
            found,
            &config.provider,
            &fallback_model,
            &fallback_effort,
            &fallback_tier,
        ),
        _ => {
            let custom_provider = if same_text(config.provider.kind.as_str(), "codex")
                && config.provider.custom_provider.is_none() {
                match selected {
                    Some(key) => Some(key),
                    None => sole_custom_provider_key(&providers),
                }
            } else {
                clone_opt(&config.provider.custom_provider)
            };
            ProviderConfig {
                kind: config.provider.kind.clone(),
                model: fallback_model,
                custom_provider,
                base_url: clone_opt(&config.provider.base_url),
                api_key: clone_opt(&config.provider.api_key),
                api_key_env: clone_opt(&config.provider.api_key_env),
                max_tokens: config.provider.max_tokens,
                max_context_tokens: config.provider.max_context_tokens,
                model_reasoning_effort: fallback_effort,
                service_tier: fallback_tier,
            }
        },
    };
    let mut r = config;
    r.provider = provider;
    r.model_providers = providers;
    r
}

/// The provider that a profile makes of the configured one.
fn profile_provider(
    key: &str,
    profile: &ModelProviderConfig,
    configured: &ProviderConfig,
    fallback_model: &Option<String>,
    fallback_effort: &Option<String>,
    fallback_tier: &Option<String>,
) -> (r: ProviderConfig)
    ensures
        ({
            let kind = match profile.kind {
                Some(k) => k@,
                None => "codex"@,
            };
            &&& r.kind@ == kind
            &&& r.model == first_of(profile.model, *fallback_model)
            &&& r.model_reasoning_effort == first_of(
                profile.model_reasoning_effort,
                *fallback_effort,
            )
            &&& r.service_tier == first_of(profile.service_tier, *fallback_tier)
            &&& r.base_url == first_of(profile.base_url, configured.base_url)
            &&& r.api_key == first_of(profile.api_key, configured.api_key)
            &&& r.api_key_env == first_of(profile.api_key_env, configured.api_key_env)
            &&& r.max_tokens == first_of(profile.max_tokens, configured.max_tokens)
            &&& r.max_context_tokens == first_of(
                profile.max_context_tokens,
                configured.max_context_tokens,
            )
            &&& opt_text(r.custom_provider) == if kind == "codex"@ {
                first_of(opt_text(profile.custom_provider), Some(key@))
            } else {
                opt_text(profile.custom_provider)
            }
        }),
{
    let kind = match &profile.kind {
        Some(k) => k.clone(),
        None => String::from_str("codex"),
    };
    let custom_provider = if same_text(kind.as_str(), "codex")
        && profile.custom_provider.is_none() {
        Some(String::from_str(key))
    } else {
        clone_opt(&profile.custom_provider)
    };
    ProviderConfig {
        kind,
        model: first_text(&profile.model, fallback_model),
        custom_provider,
        base_url: first_text(&profile.base_url, &configured.base_url),
        api_key: first_text(&profile.api_key, &configured.api_key),
        api_key_env: first_text(&profile.api_key_env, &configured.api_key_env),
        max_tokens: match profile.max_tokens {
            Some(n) => Some(n),
            None => configured.max_tokens,
        },
        max_context_tokens: match profile.max_context_tokens {
            Some(n) => Some(n),
            None => configured.max_context_tokens,
        },
        model_reasoning_effort: first_text(&profile.model_reasoning_effort, fallback_effort),
        service_tier: first_text(&profile.service_tier, fallback_tier),
    }
}

/// The key of the only profile, where there is just one.
fn sole_custom_provider_key(providers: &Assoc<ModelProviderConfig>) -> (r: Option<String>)
    ensures
        opt_text(r) == sole_key(providers@),
{
    if providers.len() == 1 {
        Some(providers.key_at(0).clone())
    } else {
        None
    }
}

/// A profile of the own configuration goes before one of the Codex
/// configuration under the same key; the others stay.
pub proof fn law_own_profiles_win<T>(
    base: Seq<(Seq<char>, T)>,
    over: Seq<(Seq<char>, T)>,
    key: Seq<char>,
)
    requires
        crate::assoc::distinct(over),
    ensures
        lookup(overlaid(base, over), key) == first_of(lookup(over, key), lookup(base, key)),
    decreases over.len(),
{
    if over.len() > 0 {
        let front = over.drop_last();
        let last = over.last();
        assert forall|i: int, j: int| 0 <= i < j < front.len() implies (#[trigger] front[i]).0
            != (#[trigger] front[j]).0 by {
            assert(over[i].0 != over[j].0);
        }
        law_own_profiles_win(base, front, key);
        lemma_lookup_assigned(overlaid(base, front), last.0, last.1, key);
        crate::assoc::lemma_at(over, key);
        crate::assoc::lemma_at(front, key);
        if last.0 == key {
            assert forall|k: int| 0 <= k < over.len() - 1 implies (#[trigger] over[k]).0 != key by {
                assert(over[k].0 != over[over.len() - 1].0);
            }
            crate::assoc::lemma_at_is(over, key, over.len() - 1);
        } else {
            let a = crate::assoc::at(front, key);
            let n = if a < front.len() {
                a
            } else {
                over.len() as int
            };
            assert forall|k: int| 0 <= k < n implies (#[trigger] over[k]).0 != key by {
                if k < front.len() {
                    assert(front[k] == over[k]);
                }
            }
            crate::assoc::lemma_at_is(over, key, n);
        }
    }
}

/// What the own configuration selects goes before what the Codex
/// configuration selects.
pub proof fn law_selected_profile_prefers_own(own: AppConfig, codex: AppConfig)
    ensures
        own.model_provider is Some ==> selected_profile(own, codex) == own.model_provider,
        own.model_provider is None && own.custom_provider is Some ==> selected_profile(own, codex)
            == own.custom_provider,
{
}

/// What the selected profile sets goes before every other setting: the merged
/// provider has each value that the profile gives.
pub proof fn law_profile_settings_win(
    merged: ProviderConfig,
    key: Seq<char>,
    profile: ModelProviderConfig,
    own: AppConfig,
    codex: AppConfig,
)
    requires
        merged.follows_profile(key, profile, own, codex),
    ensures
        profile.kind is Some ==> merged.kind@ == profile.kind->0@,
        profile.kind is None ==> merged.kind@ == "codex"@,
        profile.model is Some ==> merged.model == profile.model,
        profile.custom_provider is Some ==> opt_text(merged.custom_provider) == opt_text(
            profile.custom_provider,
        ),
        profile.base_url is Some ==> merged.base_url == profile.base_url,
        profile.api_key is Some ==> merged.api_key == profile.api_key,
        profile.api_key_env is Some ==> merged.api_key_env == profile.api_key_env,
        profile.max_tokens is Some ==> merged.max_tokens == profile.max_tokens,
        profile.max_context_tokens is Some ==> merged.max_context_tokens
            == profile.max_context_tokens,
        profile.model_reasoning_effort is Some ==> merged.model_reasoning_effort
            == profile.model_reasoning_effort,
        profile.service_tier is Some ==> merged.service_tier == profile.service_tier,
{
}

/// What the selected profile leaves open comes from the configured provider,
/// where that gives it.
pub proof fn law_provider_settings_fill_the_profile(
    merged: ProviderConfig,
    key: Seq<char>,
    profile: ModelProviderConfig,
    own: AppConfig,
    codex: AppConfig,
)
    requires
        merged.follows_profile(key, profile, own, codex),
    ensures
        profile.model is None && own.provider.model is Some ==> merged.model == own.provider.model,
        profile.base_url is None ==> merged.base_url == own.provider.base_url,
        profile.api_key is None ==> merged.api_key == own.provider.api_key,
        profile.api_key_env is None ==> merged.api_key_env == own.provider.api_key_env,
        profile.max_tokens is None ==> merged.max_tokens == own.provider.max_tokens,
        profile.max_context_tokens is None ==> merged.max_context_tokens
            == own.provider.max_context_tokens,
        profile.model_reasoning_effort is None && own.provider.model_reasoning_effort is Some
            ==> merged.model_reasoning_effort == own.provider.model_reasoning_effort,
        profile.service_tier is None && own.provider.service_tier is Some ==> merged.service_tier
            == own.provider.service_tier,
        profile.custom_provider is None && merged.kind@ == "codex"@ ==> opt_text(
            merged.custom_provider,
        ) == Some(key),
        profile.custom_provider is None && merged.kind@ != "codex"@ ==> merged.custom_provider
            is None,
{
}

/// The model, the effort and the tier that neither profile nor provider names
/// are those of the own configuration, and then those of the Codex
/// configuration.
pub proof fn law_general_settings_come_last(
    merged: ProviderConfig,
    key: Seq<char>,
    profile: ModelProviderConfig,
    own: AppConfig,
    codex: AppConfig,
)
    requires
        merged.follows_profile(key, profile, own, codex),
        profile.model is None && own.provider.model is None,
        profile.model_reasoning_effort is None && own.provider.model_reasoning_effort is None,
        profile.service_tier is None && own.provider.service_tier is None,
    ensures
        own.model is Some ==> merged.model == own.model,
        own.model is None ==> merged.model == codex.model,
        own.model_reasoning_effort is Some ==> merged.model_reasoning_effort
            == own.model_reasoning_effort,
        own.model_reasoning_effort is None ==> merged.model_reasoning_effort
            == codex.model_reasoning_effort,
        own.service_tier is Some ==> merged.service_tier == own.service_tier,
        own.service_tier is None ==> merged.service_tier == codex.service_tier,
{
}

/// Without a selected profile the configured provider stays, and what it leaves
/// open is filled in the same order.
pub proof fn law_configured_provider_stays(
    merged: ProviderConfig,
    own: AppConfig,
    codex: AppConfig,
)
    requires
        merged.follows_configs(own, codex),
    ensures
        merged.kind == own.provider.kind,
        own.provider.model is Some ==> merged.model == own.provider.model,
        own.provider.model is None && own.model is Some ==> merged.model == own.model,
        own.provider.model is None && own.model is None ==> merged.model == codex.model,
        own.provider.model_reasoning_effort is Some ==> merged.model_reasoning_effort
            == own.provider.model_reasoning_effort,
        own.provider.service_tier is Some ==> merged.service_tier == own.provider.service_tier,
        own.provider.custom_provider is Some ==> opt_text(merged.custom_provider) == opt_text(
            own.provider.custom_provider,
        ),
        own.provider.kind@ != "codex"@ ==> opt_text(merged.custom_provider) == opt_text(
            own.provider.custom_provider,
        ),
        merged.base_url == own.provider.base_url,
        merged.api_key == own.provider.api_key,
        merged.api_key_env == own.provider.api_key_env,
        merged.max_tokens == own.provider.max_tokens,
        merged.max_context_tokens == own.provider.max_context_tokens,
{
}

/// The profile that the own configuration selects is used: its own one under
/// that key, else that of the Codex configuration. A key that neither knows
/// selects nothing.
pub proof fn law_the_selected_profile_is_used(own: AppConfig, codex: AppConfig, key: String)
    requires
        crate::assoc::distinct(own.model_providers@),
        own.model_provider == Some(key) || (own.model_provider is None && own.custom_provider
            == Some(key)) || (own.model_provider is None && own.custom_provider is None
            && codex.custom_provider == Some(key)) || (own.model_provider is None
            && own.custom_provider is None && codex.custom_provider is None
            && codex.model_provider == Some(key)),
    ensures
        lookup(own.model_providers@, key@) is Some ==> active_profile(own, codex) == lookup(
            own.model_providers@,
            key@,
        ),
        lookup(own.model_providers@, key@) is None ==> active_profile(own, codex) == lookup(
            codex.model_providers@,
            key@,
        ),
{
    law_own_profiles_win(codex.model_providers@, own.model_providers@, key@);
}

/// Where nothing selects a profile, none is used.
pub proof fn law_no_profile_without_a_selection(own: AppConfig, codex: AppConfig)
    requires
        own.model_provider is None,
        own.custom_provider is None,
        codex.custom_provider is None,
        codex.model_provider is None,
    ensures
        active_profile(own, codex) is None,
{
}

/// A Codex provider without a custom provider uses the profile that is
/// selected, else the only one that is known; of several it uses none.
pub proof fn law_a_sole_profile_is_taken(merged: ProviderConfig, own: AppConfig, codex: AppConfig)
    requires
        merged.follows_configs(own, codex),
        own.provider.kind@ == "codex"@,
        own.provider.custom_provider is None,
    ensures
        own.model_provider is Some ==> opt_text(merged.custom_provider) == Some(
            own.model_provider->0@,
        ),
        selected_profile(own, codex) is None && known_profiles(own, codex).len() == 1
            ==> opt_text(merged.custom_provider) == Some(known_profiles(own, codex)[0].0),
        selected_profile(own, codex) is None && known_profiles(own, codex).len() != 1
            ==> merged.custom_provider is None,
{
}

/// Where nothing is configured, the log, the provider and the channels are set
/// up by these values.
pub proof fn law_settings_have_their_defaults(
    log: LogConfig,
    provider: ProviderConfig,
    feishu: FeishuChannelConfig,
    telegram: TelegramChannelConfig,
    qq: QqChannelConfig,
)
    requires
        log.is_default(),
        provider.is_default(),
        feishu.is_default(),
        telegram.is_default(),
        qq.is_default(),
    ensures
        log.max_size == 4 * 1024 * 1024,
        provider.kind@ == "codex"@ && provider.model is None && provider.api_key is None,
        feishu.require_mention && feishu.dedup_cache_size == 2048 && feishu.ping_interval_seconds
            == 120 && feishu.domain@ == "feishu"@,
        !telegram.require_mention && telegram.send_typing && telegram.download_attachments,
        telegram.poll_timeout_seconds == 50 && telegram.poll_limit == 100
            && telegram.max_download_bytes == 20 * 1024 * 1024 && telegram.dedup_cache_size == 4096,
        qq.intents == 0x0600_0000 && qq.dedup_cache_size == 2048 && qq.reconnect_delay_seconds
            == 3,
{
}

} // verus!
