//! What a session is set up with: its endpoints, the strategy's budgets, and
//! where to capture.

use crate::env_file;
use crate::env_file::EnvSource;
use crate::machine;
use crate::openai;
use crate::openai::{ConfigError, OpenAiConfig};
use crate::text;
use crate::text::IntegerError;
use vstd::prelude::*;

verus! {

/// What a session is set up with.
#[derive(Debug)]
pub struct Settings<S = String> {
    pub primary: OpenAiConfig<S>,
    /// The alternative endpoint, if there is one.
    pub failover: Option<OpenAiConfig<S>>,
    /// How many retries a turn may make on one endpoint.
    pub retry_allowance: u32,
    /// How many attempts may be in flight at once.
    pub send_buckets: u32,
    /// How many records the bus holds before it drops.
    pub bus_capacity: usize,
    /// Where to capture to, if anywhere.
    pub capture_dir: Option<S>,
}

impl View for Settings {
    type V = Settings<Seq<char>>;

    open spec fn view(&self) -> Settings<Seq<char>> {
        Settings {
            primary: self.primary@,
            failover: match self.failover {
                Some(f) => Some(f@),
                None => None,
            },
            retry_allowance: self.retry_allowance,
            send_buckets: self.send_buckets,
            bus_capacity: self.bus_capacity,
            capture_dir: machine::opt_text(self.capture_dir),
        }
    }
}

/// Why a session cannot be set up.
#[derive(Debug, PartialEq, Eq)]
pub enum SettingsError<S = String> {
    Endpoint(ConfigError<S>),
    Budget(IntegerError),
}

impl View for SettingsError {
    type V = SettingsError<Seq<char>>;

    open spec fn view(&self) -> SettingsError<Seq<char>> {
        match *self {
            SettingsError::Endpoint(e) => SettingsError::Endpoint(e@),
            SettingsError::Budget(e) => SettingsError::Budget(e),
        }
    }
}

/// The message of a settings error.
pub open spec fn settings_error_text(e: SettingsError<Seq<char>>) -> Seq<char> {
    match e {
        SettingsError::Endpoint(e) => openai::config_error_text(e),
        SettingsError::Budget(e) => e.message_text(),
    }
}

impl SettingsError {
    /// The message, for people.
    pub fn to_string(&self) -> (r: String)
        ensures
            r@ == settings_error_text(self@),
    {
        match self {
            SettingsError::Endpoint(e) => e.to_string(),
            SettingsError::Budget(e) => e.message().to_owned(),
        }
    }
}

/// A settings result as the specification sees it.
pub open spec fn settings_view(r: Result<Settings, SettingsError>) -> Result<
    Settings<Seq<char>>,
    SettingsError<Seq<char>>,
> {
    match r {
        Ok(s) => Ok(s@),
        Err(e) => Err(e@),
    }
}

/// A budget variable, not above `max`, with its default.
pub open spec fn budget_of(
    env: Map<Seq<char>, Seq<char>>,
    name: Seq<char>,
    max: u64,
    default: u64,
) -> Result<u64, IntegerError> {
    match env_file::lookup(env, name) {
        None => Ok(default),
        Some(s) => match text::unsigned_value(s, max as nat) {
            Ok(v) => Ok(v as u64),
            Err(e) => Err(e),
        },
    }
}

fn budget(src: &EnvSource, name: &str, max: u64, default: u64) -> (r: Result<u64, IntegerError>)
    requires
        default <= max,
    ensures
        r == budget_of(src@, name@, max, default),
        r matches Ok(v) ==> v <= max,
{
    match src.get(name) {
        None => Ok(default),
        Some(s) => text::parse_unsigned(s.as_str(), max),
    }
}

/// The alternative endpoint: configured where it has an address of its own.
pub open spec fn failover_of(env: Map<Seq<char>, Seq<char>>) -> Result<
    Option<OpenAiConfig<Seq<char>>>,
    ConfigError<Seq<char>>,
> {
    if env_file::lookup(env, "FAILOVER_OPENAI_BASE_URL"@) is None {
        Ok(None)
    } else {
        match openai::config_of(env, "FAILOVER_"@) {
            Ok(c) => Ok(Some(c)),
            Err(e) => Err(e),
        }
    }
}

/// What an environment sets a session up with, or the first thing wrong in it.
pub open spec fn settings_of(env: Map<Seq<char>, Seq<char>>) -> Result<
    Settings<Seq<char>>,
    SettingsError<Seq<char>>,
> {
    let retry = budget_of(env, "OPENAI_RETRY_ALLOWANCE"@, u32::MAX as u64, 1);
    let buckets = budget_of(env, "OPENAI_SEND_BUCKETS"@, u32::MAX as u64, 1);
    let capacity = budget_of(env, "OPENAI_BUS_CAPACITY"@, usize::MAX as u64, 4096);
    match (openai::config_of(env, Seq::empty()), failover_of(env), retry, buckets, capacity) {
        (Err(e), _, _, _, _) => Err(SettingsError::Endpoint(e)),
        (_, Err(e), _, _, _) => Err(SettingsError::Endpoint(e)),
        (_, _, Err(e), _, _) => Err(SettingsError::Budget(e)),
        (_, _, _, Err(e), _) => Err(SettingsError::Budget(e)),
        (_, _, _, _, Err(e)) => Err(SettingsError::Budget(e)),
        (Ok(primary), Ok(failover), Ok(r), Ok(b), Ok(c)) => Ok(
            Settings {
                primary,
                failover,
                retry_allowance: r as u32,
                send_buckets: b as u32,
                bus_capacity: c as usize,
                capture_dir: env_file::lookup(env, "OPENAI_CAPTURE_DIR"@),
            },
        ),
    }
}

/// The line that a session opens with.
pub open spec fn banner_text(s: Settings<Seq<char>>, origin: Option<Seq<char>>) -> Seq<char> {
    "rar-chat — endpoint "@ + s.primary.base_url + " | model "@ + s.primary.model
        + " | failover "@ + (match s.failover {
        Some(f) => f.base_url,
        None => "(none)"@,
    }) + " | buckets "@ + text::decimal(s.send_buckets as nat) + " | config "@ + (match origin {
        Some(o) => o,
        None => "(process environment)"@,
    })
}

impl Settings {
    /// What an environment sets a session up with.
    pub fn from_source(src: &EnvSource) -> (r: Result<Self, SettingsError>)
        ensures
            settings_view(r) == settings_of(src@),
    {
        let primary = match OpenAiConfig::from_source(src) {
            Ok(c) => c,
            Err(e) => {
                return Err(SettingsError::Endpoint(e));
            },
        };
        let failover = match src.get("FAILOVER_OPENAI_BASE_URL") {
            None => None,
            Some(_) => match OpenAiConfig::from_source_prefixed(src, "FAILOVER_") {
                Ok(c) => Some(c),
                Err(e) => {
                    return Err(SettingsError::Endpoint(e));
                },
            },
        };
        let retry_allowance: u64 = match budget(
            src,
            "OPENAI_RETRY_ALLOWANCE",
            u32::MAX as u64,
            1,
        ) {
            Ok(v) => v,
            Err(e) => {
                return Err(SettingsError::Budget(e));
            },
        };
        let send_buckets: u64 = match budget(src, "OPENAI_SEND_BUCKETS", u32::MAX as u64, 1) {
            Ok(v) => v,
            Err(e) => {
                return Err(SettingsError::Budget(e));
            },
        };
        let bus_capacity: u64 = match budget(
            src,
            "OPENAI_BUS_CAPACITY",
            usize::MAX as u64,
            4096,
        ) {
            Ok(v) => v,
            Err(e) => {
                return Err(SettingsError::Budget(e));
            },
        };
        Ok(
            Settings {
                primary,
                failover,
                retry_allowance: retry_allowance as u32,
                send_buckets: send_buckets as u32,
                bus_capacity: bus_capacity as usize,
                capture_dir: src.get("OPENAI_CAPTURE_DIR"),
            },
        )
    }

    /// The line that a session opens with. `origin` is where the settings came
    /// from, if that was a file. It shows no key.
    pub fn banner(&self, origin: Option<&str>) -> (r: String)
        ensures
            r@ == banner_text(
                self@,
                match origin {
                    Some(o) => Some(o@),
                    None => None,
                },
            ),
    {
        let mut line: String = "rar-chat — endpoint ".to_owned();
        line.append(self.primary.base_url.as_str());
        line.append(" | model ");
        line.append(self.primary.model.as_str());
        line.append(" | failover ");
        match &self.failover {
            Some(f) => line.append(f.base_url.as_str()),
            None => line.append("(none)"),
        }
        line.append(" | buckets ");
        text::push_decimal(&mut line, self.send_buckets as u64);
        line.append(" | config ");
        match origin {
            Some(o) => line.append(o),
            None => line.append("(process environment)"),
        }
        line
    }
}

// ---- laws -----------------------------------------------------------------

/// Setting a session up reveals no key: two environments that differ in the
/// value of one API key variable give the same error, or sessions that open
/// with the same line.
pub proof fn lemma_setup_reveals_no_key(
    env: Map<Seq<char>, Seq<char>>,
    key_prefix: Seq<char>,
    other_value: Seq<char>,
    origin: Option<Seq<char>>,
)
    requires
        env.contains_key(key_prefix + "OPENAI_API_KEY"@),
    ensures
        ({
            let changed = env.insert(key_prefix + "OPENAI_API_KEY"@, other_value);
            match (settings_of(env), settings_of(changed)) {
                (Ok(a), Ok(b)) => banner_text(a, origin) == banner_text(b, origin),
                (Err(a), Err(b)) => a == b && settings_error_text(a) == settings_error_text(b),
                _ => false,
            }
        }),
{
    reveal_strlit("OPENAI_API_KEY");
    reveal_strlit("FAILOVER_OPENAI_BASE_URL");
    reveal_strlit("OPENAI_RETRY_ALLOWANCE");
    reveal_strlit("OPENAI_SEND_BUCKETS");
    reveal_strlit("OPENAI_BUS_CAPACITY");
    let key = key_prefix + "OPENAI_API_KEY"@;
    let n = key.len() as int;
    assert(key[n - 1] == 'Y' && key[n - 2] == 'E');
    assert(key != "FAILOVER_OPENAI_BASE_URL"@) by {
        assert("FAILOVER_OPENAI_BASE_URL"@.last() == 'L');
    }
    assert(key != "OPENAI_RETRY_ALLOWANCE"@) by {
        assert("OPENAI_RETRY_ALLOWANCE"@.last() == 'E');
    }
    assert(key != "OPENAI_SEND_BUCKETS"@) by {
        assert("OPENAI_SEND_BUCKETS"@.last() == 'S');
    }
    assert(key != "OPENAI_BUS_CAPACITY"@) by {
        assert("OPENAI_BUS_CAPACITY"@[17] == 'T');
    }
    openai::lemma_errors_reveal_no_key(env, Seq::empty(), key_prefix, other_value);
    openai::lemma_errors_reveal_no_key(env, "FAILOVER_"@, key_prefix, other_value);
}

} // verus!
