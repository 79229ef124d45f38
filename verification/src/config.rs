//! The configuration of the server.
use crate::devkitd::{default_retry_delays, DevkitdClientConfig};
use crate::ports::SchedulerConfig;
use crate::text::{cat2, cat3, cat5, decimal, decimal_text, join, joined};
use vstd::prelude::*;

verus! {

/// A text that is never shown. It has no `Debug`, and nothing that describes a
/// configuration reads it.
pub struct Secret {
    text: String,
}

impl Secret {
    /// What the secret is.
    pub closed spec fn spec_text(&self) -> Seq<char> {
        self.text@
    }

    /// Keeps a text.
    pub fn new(text: String) -> (r: Self)
        ensures
            r.spec_text() == text@,
    {
        Secret { text }
    }

    /// The text, for those who need it.
    pub fn expose(&self) -> (r: &str)
        ensures
            r@ == self.spec_text(),
    {
        self.text.as_str()
    }
}

/// What executes steps.
#[derive(Debug)]
pub struct ExecutorConfig {
    pub cli_tool: String,
}

fn default_cli_tool() -> (r: String)
    ensures
        r@ == "agent-run"@,
{
    "agent-run".to_owned()
}

impl Default for ExecutorConfig {
    fn default() -> (r: Self)
        ensures
            r.cli_tool@ == "agent-run"@,
    {
        ExecutorConfig { cli_tool: default_cli_tool() }
    }
}

/// How the platform is reached.
pub struct PlatformConfig {
    pub url: String,
    pub token: Secret,
    pub poll_interval_secs: u64,
    pub event_batch_size: usize,
}

/// The configuration of the server.
pub struct Config {
    pub listen_addr: String,
    /// The authorities that are accepted in the `Host` header of a request:
    /// the exact `host:port` that a remote client dials has to be among them.
    pub allowed_hosts: Vec<String>,
    pub devkitd_url: String,
    pub devkitd_auth_token: Option<Secret>,
    pub flows_dir: String,
    pub db_path: String,
    pub default_step_timeout_secs: u64,
    pub deadline_margin_secs: u64,
    pub poll_interval_secs: u64,
    pub max_step_output_kb: u64,
    pub max_subflow_depth: u32,
    pub executor: ExecutorConfig,
    /// Missing where there is no connection to the platform.
    pub platform: Option<PlatformConfig>,
}

/// What the configuration says of the platform, as it was read.
pub struct RawPlatform {
    pub url: Option<String>,
    pub token: Option<String>,
    pub poll_interval_secs: Option<u64>,
    pub event_batch_size: Option<usize>,
}

/// A configuration as it was read: what is missing gets its default.
pub struct RawConfig {
    pub listen_addr: Option<String>,
    pub allowed_hosts: Option<Vec<String>>,
    pub devkitd_url: Option<String>,
    pub devkitd_auth_token: Option<String>,
    pub flows_dir: Option<String>,
    pub db_path: Option<String>,
    pub default_step_timeout_secs: Option<u64>,
    pub deadline_margin_secs: Option<u64>,
    pub poll_interval_secs: Option<u64>,
    pub max_step_output_kb: Option<u64>,
    pub max_subflow_depth: Option<u32>,
    pub cli_tool: Option<String>,
    pub platform: Option<RawPlatform>,
}

/// A required setting that is missing.
#[derive(Debug)]
pub struct ConfigError(pub String);

impl ConfigError {
    /// The text that describes this error.
    pub fn message(&self) -> (r: String)
        ensures
            r@ == "configuration error: "@ + self.0@,
    {
        cat2("configuration error: ", self.0.as_str())
    }
}

fn default_listen_addr() -> (r: String)
    ensures
        r@ == "127.0.0.1:8080"@,
{
    "127.0.0.1:8080".to_owned()
}

fn default_allowed_hosts() -> (r: Vec<String>)
    ensures
        r.deep_view() == seq!["localhost"@, "127.0.0.1"@, "::1"@],
{
    let mut out: Vec<String> = Vec::new();
    out.push("localhost".to_owned());
    out.push("127.0.0.1".to_owned());
    out.push("::1".to_owned());
    proof {
        assert(out.deep_view() =~= seq!["localhost"@, "127.0.0.1"@, "::1"@]);
    }
    out
}

fn default_flows_dir() -> (r: String)
    ensures
        r@ == "./flows"@,
{
    "./flows".to_owned()
}

fn default_db_path() -> (r: String)
    ensures
        r@ == "./flowspec.db"@,
{
    "./flowspec.db".to_owned()
}

fn default_step_timeout_secs() -> (r: u64)
    ensures
        r == 3600,
{
    3600
}

fn default_deadline_margin_secs() -> (r: u64)
    ensures
        r == 30,
{
    30
}

fn default_poll_interval_secs() -> (r: u64)
    ensures
        r == 5,
{
    5
}

fn default_max_step_output_kb() -> (r: u64)
    ensures
        r == 256,
{
    256
}

fn default_max_subflow_depth() -> (r: u32)
    ensures
        r == 8,
{
    8
}

fn default_event_batch_size() -> (r: usize)
    ensures
        r == 100,
{
    100
}

/// A setting, or its default.
pub open spec fn text_or(setting: Option<String>, default: Seq<char>) -> Seq<char> {
    match setting {
        Some(t) => t@,
        None => default,
    }
}

/// A setting, or its default.
pub open spec fn value_or<T>(setting: Option<T>, default: T) -> T {
    match setting {
        Some(n) => n,
        None => default,
    }
}

/// Whether `config` is what was read, with defaults for what is missing.
pub open spec fn follows(config: Config, raw: RawConfig) -> bool {
    &&& config.listen_addr@ == text_or(raw.listen_addr, "127.0.0.1:8080"@)
    &&& config.allowed_hosts.deep_view() == (match raw.allowed_hosts {
        Some(hosts) => hosts.deep_view(),
        None => seq!["localhost"@, "127.0.0.1"@, "::1"@],
    })
    &&& raw.devkitd_url matches Some(url) && config.devkitd_url@ == url@
    &&& match (config.devkitd_auth_token, raw.devkitd_auth_token) {
        (Some(secret), Some(t)) => secret.spec_text() == t@,
        (None, None) => true,
        _ => false,
    }
    &&& config.flows_dir@ == text_or(raw.flows_dir, "./flows"@)
    &&& config.db_path@ == text_or(raw.db_path, "./flowspec.db"@)
    &&& config.default_step_timeout_secs == value_or(raw.default_step_timeout_secs, 3600)
    &&& config.deadline_margin_secs == value_or(raw.deadline_margin_secs, 30)
    &&& config.poll_interval_secs == value_or(raw.poll_interval_secs, 5)
    &&& config.max_step_output_kb == value_or(raw.max_step_output_kb, 256)
    &&& config.max_subflow_depth == value_or(raw.max_subflow_depth, 8)
    &&& config.executor.cli_tool@ == text_or(raw.cli_tool, "agent-run"@)
    &&& match (config.platform, raw.platform) {
        (Some(p), Some(q)) => platform_follows(p, q),
        (None, None) => true,
        _ => false,
    }
}

/// Whether `p` is what was read of the platform, with defaults for what is
/// missing.
pub open spec fn platform_follows(p: PlatformConfig, q: RawPlatform) -> bool {
    &&& q.url matches Some(url) && p.url@ == url@
    &&& q.token matches Some(token) && p.token.spec_text() == token@
    &&& p.poll_interval_secs == value_or(q.poll_interval_secs, 5)
    &&& p.event_batch_size == value_or(q.event_batch_size, 100)
}

/// The required setting that is missing, if there is one.
pub open spec fn missing_setting(raw: RawConfig) -> Option<Seq<char>> {
    if raw.devkitd_url is None {
        Some("missing field `devkitd_url`"@)
    } else {
        match raw.platform {
            Some(q) => if q.url is None {
                Some("missing field `platform.url`"@)
            } else if q.token is None {
                Some("missing field `platform.token`"@)
            } else {
                None
            },
            None => None,
        }
    }
}

impl Config {
    /// The configuration that was read, with defaults for what is missing. The
    /// address of the job runner has to be there, and so have the address of
    /// the platform and its token where the platform is configured.
    pub fn load(raw: RawConfig) -> (r: Result<Config, ConfigError>)
        ensures
            match r {
                Ok(config) => missing_setting(raw) is None && follows(config, raw),
                Err(e) => missing_setting(raw) == Some(e.0@),
            },
    {
        let devkitd_url = match raw.devkitd_url {
            Some(url) => url,
            None => {
                return Err(ConfigError("missing field `devkitd_url`".to_owned()));
            },
        };
        let platform = match raw.platform {
            Some(q) => {
                let url = match q.url {
                    Some(url) => url,
                    None => {
                        return Err(ConfigError("missing field `platform.url`".to_owned()));
                    },
                };
                let token = match q.token {
                    Some(token) => token,
                    None => {
                        return Err(ConfigError("missing field `platform.token`".to_owned()));
                    },
                };
                Some(
                    PlatformConfig {
                        url,
                        token: Secret::new(token),
                        poll_interval_secs: match q.poll_interval_secs {
                            Some(n) => n,
                            None => default_poll_interval_secs(),
                        },
                        event_batch_size: match q.event_batch_size {
                            Some(n) => n,
                            None => default_event_batch_size(),
                        },
                    },
                )
            },
            None => None,
        };
        Ok(
            Config {
                listen_addr: match raw.listen_addr {
                    Some(t) => t,
                    None => default_listen_addr(),
                },
                allowed_hosts: match raw.allowed_hosts {
                    Some(hosts) => hosts,
                    None => default_allowed_hosts(),
                },
                devkitd_url,
                devkitd_auth_token: match raw.devkitd_auth_token {
                    Some(t) => Some(Secret::new(t)),
                    None => None,
                },
                flows_dir: match raw.flows_dir {
                    Some(t) => t,
                    None => default_flows_dir(),
                },
                db_path: match raw.db_path {
                    Some(t) => t,
                    None => default_db_path(),
                },
                default_step_timeout_secs: match raw.default_step_timeout_secs {
                    Some(n) => n,
                    None => default_step_timeout_secs(),
                },
                deadline_margin_secs: match raw.deadline_margin_secs {
                    Some(n) => n,
                    None => default_deadline_margin_secs(),
                },
                poll_interval_secs: match raw.poll_interval_secs {
                    Some(n) => n,
                    None => default_poll_interval_secs(),
                },
                max_step_output_kb: match raw.max_step_output_kb {
                    Some(n) => n,
                    None => default_max_step_output_kb(),
                },
                max_subflow_depth: match raw.max_subflow_depth {
                    Some(n) => n,
                    None => default_max_subflow_depth(),
                },
                executor: match raw.cli_tool {
                    Some(cli_tool) => ExecutorConfig { cli_tool },
                    None => ExecutorConfig::default(),
                },
                platform,
            },
        )
    }

    /// What the scheduler has to know.
    pub fn scheduler_config(&self) -> (r: SchedulerConfig)
        ensures
            r.poll_interval_secs == self.poll_interval_secs,
            r.deadline_margin_secs == self.deadline_margin_secs,
            r.default_step_timeout_secs == self.default_step_timeout_secs,
            r.max_step_output_kb == self.max_step_output_kb,
            r.executor_cli_tool@ == self.executor.cli_tool@,
    {
        SchedulerConfig {
            poll_interval_secs: self.poll_interval_secs,
            deadline_margin_secs: self.deadline_margin_secs,
            default_step_timeout_secs: self.default_step_timeout_secs,
            max_step_output_kb: self.max_step_output_kb,
            executor_cli_tool: self.executor.cli_tool.clone(),
        }
    }

    /// How the job runner is reached: what is not configured has its default.
    pub fn devkitd_config(&self) -> (r: DevkitdClientConfig)
        ensures
            r.url@ == self.devkitd_url@,
            match (r.auth_token, self.devkitd_auth_token) {
                (Some(token), Some(secret)) => token@ == secret.spec_text(),
                (None, None) => true,
                _ => false,
            },
            r.poll_interval == self.poll_interval_secs * 1_000_000_000,
            r.max_step_output_kb == self.max_step_output_kb,
            r.poll_retry_delays@ == default_retry_delays(),
    {
        let mut config = DevkitdClientConfig::new(self.devkitd_url.clone());
        config.auth_token = match &self.devkitd_auth_token {
            Some(secret) => Some(secret.expose().to_owned()),
            None => None,
        };
        config.poll_interval = self.poll_interval_secs as i128 * 1_000_000_000;
        config.max_step_output_kb = self.max_step_output_kb;
        config
    }

    /// Describes the configuration in one line, without its secrets.
    pub fn describe(&self) -> (r: String)
        ensures
            r@ == described(*self),
    {
        let head = cat5(
            "Config { listen_addr: ",
            self.listen_addr.as_str(),
            ", allowed_hosts: ",
            join(&self.allowed_hosts, " ").as_str(),
            ", devkitd_url: ",
        );
        let paths = cat5(
            self.devkitd_url.as_str(),
            ", flows_dir: ",
            self.flows_dir.as_str(),
            ", db_path: ",
            self.db_path.as_str(),
        );
        let times = cat5(
            ", default_step_timeout_secs: ",
            decimal_text(self.default_step_timeout_secs).as_str(),
            ", deadline_margin_secs: ",
            decimal_text(self.deadline_margin_secs).as_str(),
            ", poll_interval_secs: ",
        );
        let limits = cat5(
            decimal_text(self.poll_interval_secs).as_str(),
            ", max_step_output_kb: ",
            decimal_text(self.max_step_output_kb).as_str(),
            ", max_subflow_depth: ",
            decimal_text(self.max_subflow_depth as u64).as_str(),
        );
        let tail = match &self.platform {
            Some(p) => cat3(", platform: ", p.url.as_str(), " }"),
            None => " }".to_owned(),
        };
        let tool = cat3(", cli_tool: ", self.executor.cli_tool.as_str(), tail.as_str());
        cat5(head.as_str(), paths.as_str(), times.as_str(), limits.as_str(), tool.as_str())
    }
}

/// Where the configuration file lies, given the home directory.
pub fn config_path(home: Option<&str>) -> (r: String)
    ensures
        r@ == (match home {
            Some(dir) => dir@ + "/.flowspec/config.yaml"@,
            None => ".flowspec/config.yaml"@,
        }),
{
    match home {
        Some(dir) => cat2(dir, "/.flowspec/config.yaml"),
        None => ".flowspec/config.yaml".to_owned(),
    }
}

/// The description of a configuration. No secret is read for it.
pub open spec fn described(c: Config) -> Seq<char> {
    ("Config { listen_addr: "@ + c.listen_addr@ + ", allowed_hosts: "@ + joined(
        c.allowed_hosts.deep_view(),
        " "@,
    ) + ", devkitd_url: "@) + (c.devkitd_url@ + ", flows_dir: "@ + c.flows_dir@ + ", db_path: "@
        + c.db_path@) + (", default_step_timeout_secs: "@ + decimal(
        c.default_step_timeout_secs as nat,
    ) + ", deadline_margin_secs: "@ + decimal(c.deadline_margin_secs as nat)
        + ", poll_interval_secs: "@) + (decimal(c.poll_interval_secs as nat)
        + ", max_step_output_kb: "@ + decimal(c.max_step_output_kb as nat)
        + ", max_subflow_depth: "@ + decimal(c.max_subflow_depth as nat)) + (", cli_tool: "@
        + c.executor.cli_tool@ + (match c.platform {
        Some(p) => ", platform: "@ + p.url@ + " }"@,
        None => " }"@,
    }))
}

/// Two configurations that differ in their secrets alone have the same
/// description.
pub proof fn description_hides_secrets(
    a: Config,
    token: Option<Secret>,
    platform_token: Secret,
)
    ensures
        described(a) == described(
            Config {
                devkitd_auth_token: token,
                platform: match a.platform {
                    Some(p) => Some(PlatformConfig { token: platform_token, ..p }),
                    None => None,
                },
                ..a
            },
        ),
{
}

/// Every setting that was given is taken as it is, whatever the others are; one
/// that was not has its default.
pub proof fn settings_are_taken(config: Config, raw: RawConfig)
    requires
        follows(config, raw),
    ensures
        raw.listen_addr matches Some(t) ==> config.listen_addr@ == t@,
        raw.listen_addr is None ==> config.listen_addr@ == "127.0.0.1:8080"@,
        raw.devkitd_url matches Some(t) && config.devkitd_url@ == t@,
        raw.flows_dir matches Some(t) ==> config.flows_dir@ == t@,
        raw.flows_dir is None ==> config.flows_dir@ == "./flows"@,
        raw.db_path matches Some(t) ==> config.db_path@ == t@,
        raw.db_path is None ==> config.db_path@ == "./flowspec.db"@,
        raw.cli_tool matches Some(t) ==> config.executor.cli_tool@ == t@,
        raw.cli_tool is None ==> config.executor.cli_tool@ == "agent-run"@,
        raw.default_step_timeout_secs matches Some(n) ==> config.default_step_timeout_secs == n,
        raw.default_step_timeout_secs is None ==> config.default_step_timeout_secs == 3600,
        raw.deadline_margin_secs matches Some(n) ==> config.deadline_margin_secs == n,
        raw.deadline_margin_secs is None ==> config.deadline_margin_secs == 30,
        raw.poll_interval_secs matches Some(n) ==> config.poll_interval_secs == n,
        raw.poll_interval_secs is None ==> config.poll_interval_secs == 5,
        raw.max_step_output_kb matches Some(n) ==> config.max_step_output_kb == n,
        raw.max_step_output_kb is None ==> config.max_step_output_kb == 256,
        raw.max_subflow_depth matches Some(n) ==> config.max_subflow_depth == n,
        raw.max_subflow_depth is None ==> config.max_subflow_depth == 8,
        raw.allowed_hosts matches Some(hosts) ==> config.allowed_hosts.deep_view()
            == hosts.deep_view(),
        raw.devkitd_auth_token is Some <==> config.devkitd_auth_token is Some,
        raw.devkitd_auth_token matches Some(t) ==> (config.devkitd_auth_token matches Some(s)
            && s.spec_text() == t@),
        raw.platform is Some <==> config.platform is Some,
        raw.platform matches Some(q) ==> (config.platform matches Some(p) && (
        q.url matches Some(url) && p.url@ == url@) && (q.token matches Some(token)
            && p.token.spec_text() == token@)),
{
}

/// A configuration is complete exactly where the runner's address is given and,
/// with a platform, its address and its token.
pub proof fn complete_settings_are_accepted(raw: RawConfig)
    ensures
        missing_setting(raw) is None <==> raw.devkitd_url is Some && (raw.platform matches Some(q)
            ==> q.url is Some && q.token is Some),
{
}

} // verus!
