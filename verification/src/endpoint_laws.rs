//! What holds of the configuration, of what is sent to an endpoint and of how
//! its response is let in, stated over the variables and the words themselves.

use crate::attempt;
use crate::openai;
use crate::openai::{BodyRead, ChatRequest, ConfigError, Message, OpenAiConfig, ResponseGate,
    StreamOptions};
use crate::settings;
use crate::settings::{Settings, SettingsError};
use crate::text;
use crate::text::IntegerError;
use crate::text_laws;
use vstd::prelude::*;

verus! {

// ---- what is sent ---------------------------------------------------------

/// A request carries the whole conversation: as many messages as it was given,
/// each in its place, with its own role and its own content. It names the
/// configured model and asks for a stream, and for usage where that is
/// configured; elsewhere it does not mention usage.
pub proof fn lemma_requests_carry_every_message(
    cfg: OpenAiConfig<Seq<char>>,
    messages: Seq<Message<Seq<char>>>,
)
    ensures
        ({
            let r = openai::request_of(cfg, messages);
            &&& r.messages.len() == messages.len()
            &&& forall|k: int|
                0 <= k < messages.len() ==> (#[trigger] r.messages[k]).role == messages[k].role
                    && r.messages[k].content == messages[k].content
            &&& r.model == cfg.model
            &&& r.stream
            &&& cfg.request_usage ==> r.stream_options == Some(
                StreamOptions { include_usage: true },
            )
            &&& !cfg.request_usage ==> r.stream_options is None
        }),
{
}

/// A request that is made holds, message for message, the texts that it was
/// made of.
pub proof fn lemma_made_requests_carry_every_message<'a>(
    cfg: &'a OpenAiConfig,
    messages: &'a [Message],
    r: ChatRequest<'a>,
)
    requires
        call_ensures(ChatRequest::new, (cfg, messages), r),
    ensures
        r.messages@.len() == messages@.len(),
        forall|k: int|
            0 <= k < messages@.len() ==> (#[trigger] r.messages@[k]).role@ == messages@[k].role@
                && r.messages@[k].content@ == messages@[k].content@,
        r.model@ == cfg.model@,
        r.stream,
        cfg.request_usage ==> r.stream_options == Some(StreamOptions { include_usage: true }),
        !cfg.request_usage ==> r.stream_options is None,
{
    let sent = openai::messages_view(r.messages@);
    let given = openai::messages_view(messages@);
    assert(r@.messages == given);
    assert(sent == given);
    assert(sent.len() == r.messages@.len());
    assert(given.len() == messages@.len());
    assert forall|k: int| 0 <= k < messages@.len() implies (#[trigger] r.messages@[k]).role@
        == messages@[k].role@ && r.messages@[k].content@ == messages@[k].content@ by {
        assert(sent[k] == r.messages@[k]@);
        assert(given[k] == messages@[k]@);
    }
}

/// Requests go to the configured address and the path for chat, and are held
/// to the configured bounds, each to its own.
pub proof fn lemma_configurations_are_obeyed(cfg: OpenAiConfig<Seq<char>>)
    ensures
        openai::url_of(cfg) == cfg.base_url + "/chat/completions"@,
        attempt::limits_of(cfg).stall_timeout_secs == cfg.stall_timeout_secs,
        attempt::limits_of(cfg).first_byte_backstop_secs == cfg.first_byte_backstop_secs,
        attempt::limits_of(cfg).overall_deadline_secs == cfg.overall_deadline_secs,
        attempt::limits_of(cfg).throughput_floor_bps == cfg.throughput_floor_bps,
        attempt::limits_of(cfg).throughput_sustained_secs == cfg.throughput_sustained_secs,
{
}

// ---- letting the response in ----------------------------------------------

/// A response is read as an event stream exactly if its status is a success
/// and its type declares an event stream, whatever stands around that. Any
/// other status is an error first; any other type is a foreign body.
pub proof fn lemma_only_event_streams_are_let_in(
    status: u16,
    before: Seq<char>,
    after: Seq<char>,
    content_type: Seq<char>,
)
    ensures
        status < 200 || status > 299 ==> openai::gate_of(status, content_type)
            == ResponseGate::HttpError,
        200 <= status <= 299 ==> openai::gate_of(status, before + "text/event-stream"@ + after)
            == ResponseGate::Stream,
        200 <= status <= 299 && (forall|i: int, j: int|
            0 <= i <= j <= content_type.len() ==> #[trigger] content_type.subrange(i, j)
                != "text/event-stream"@) ==> openai::gate_of(status, content_type)
            == ResponseGate::NotAnEventStream,
{
    let whole = before + "text/event-stream"@ + after;
    let n = before.len() as int;
    assert(whole.subrange(n, n + "text/event-stream"@.len()) =~= "text/event-stream"@);
    assert(text::occurs_at(whole, "text/event-stream"@, n));
}

/// A body that was read is told whole; one that failed is told as nothing; one
/// that took too long is told as that.
pub proof fn lemma_bodies_are_told_whole(t: Seq<char>)
    ensures
        openai::body_text(BodyRead::Text(t)) == t,
        openai::body_text(BodyRead::Failed) == Seq::<char>::empty(),
        openai::body_text(BodyRead::TimedOut) == "(body read timed out)"@,
{
}

// ---- configuration --------------------------------------------------------

/// A text that reads as a count not above `max`.
pub open spec fn is_count(s: Seq<char>, max: nat) -> bool {
    &&& text_laws::unsigned_part(s).len() > 0
    &&& text_laws::are_numerals(text_laws::unsigned_part(s))
    &&& text_laws::place_value(text_laws::unsigned_part(s)) <= max
}

/// A variable is unset, or set to a count not above `max`.
pub open spec fn reads(env: Map<Seq<char>, Seq<char>>, name: Seq<char>, max: nat) -> bool {
    env.contains_key(name) ==> is_count(env[name], max)
}

/// The count that a variable is set to, or the default.
pub open spec fn count_of(env: Map<Seq<char>, Seq<char>>, name: Seq<char>, default: int) -> int {
    if env.contains_key(name) {
        text_laws::place_value(text_laws::unsigned_part(env[name]))
    } else {
        default
    }
}

/// A key is set, under the prefixed name or the plain one.
pub open spec fn has_key(env: Map<Seq<char>, Seq<char>>, prefix: Seq<char>) -> bool {
    env.contains_key(prefix + "OPENAI_API_KEY"@) || env.contains_key("OPENAI_API_KEY"@)
}

proof fn lemma_integer(env: Map<Seq<char>, Seq<char>>, name: Seq<char>, default: u64)
    ensures
        reads(env, name, u64::MAX as nat) ==> (openai::integer_of(env, name, default) matches Ok(v)
            && v == count_of(env, name, default as int)),
        !reads(env, name, u64::MAX as nat) ==> (openai::integer_of(env, name, default)
            matches Err(e) && e == (ConfigError::<Seq<char>>::NotAnInteger {
            name,
            cause: text::unsigned_value(env[name], u64::MAX as nat)->Err_0,
        })),
{
    if env.contains_key(name) {
        text_laws::lemma_integers_read_by_place(env[name], u64::MAX as nat);
    }
}

/// The bounds of an endpoint all read.
pub open spec fn bounds_read(env: Map<Seq<char>, Seq<char>>) -> bool {
    &&& reads(env, "OPENAI_STALL_SECS"@, u64::MAX as nat)
    &&& reads(env, "OPENAI_FIRST_BYTE_BACKSTOP_SECS"@, u64::MAX as nat)
    &&& reads(env, "OPENAI_OVERALL_DEADLINE_SECS"@, u64::MAX as nat)
    &&& reads(env, "OPENAI_THROUGHPUT_FLOOR_BPS"@, u64::MAX as nat)
    &&& reads(env, "OPENAI_THROUGHPUT_SUSTAINED_SECS"@, u64::MAX as nat)
}

/// An endpoint is configured exactly if it has a key and a model and its
/// bounds read; and then every part of the configuration is what its own
/// variable says, or its default.
pub proof fn lemma_variables_configure(env: Map<Seq<char>, Seq<char>>, prefix: Seq<char>)
    ensures
        openai::config_of(env, prefix) is Ok <==> has_key(env, prefix) && env.contains_key(
            prefix + "OPENAI_MODEL"@,
        ) && bounds_read(env),
        openai::config_of(env, prefix) matches Ok(c) ==> {
            &&& c.api_key == (if env.contains_key(prefix + "OPENAI_API_KEY"@) {
                env[prefix + "OPENAI_API_KEY"@]
            } else {
                env["OPENAI_API_KEY"@]
            })
            &&& c.model == env[prefix + "OPENAI_MODEL"@]
            &&& env.contains_key(prefix + "OPENAI_BASE_URL"@) ==> c.base_url
                == text::trimmed_end_of(env[prefix + "OPENAI_BASE_URL"@], '/')
            &&& !env.contains_key(prefix + "OPENAI_BASE_URL"@) ==> c.base_url
                == "https://api.openai.com/v1"@
            &&& c.request_usage <==> !(env.contains_key("OPENAI_INCLUDE_USAGE"@) && (
            env["OPENAI_INCLUDE_USAGE"@] == "0"@ || env["OPENAI_INCLUDE_USAGE"@] == "false"@
                || env["OPENAI_INCLUDE_USAGE"@] == "no"@))
            &&& c.stall_timeout_secs == count_of(env, "OPENAI_STALL_SECS"@, 30)
            &&& c.first_byte_backstop_secs == count_of(
                env,
                "OPENAI_FIRST_BYTE_BACKSTOP_SECS"@,
                120,
            )
            &&& c.overall_deadline_secs == count_of(env, "OPENAI_OVERALL_DEADLINE_SECS"@, 600)
            &&& c.throughput_floor_bps == count_of(env, "OPENAI_THROUGHPUT_FLOOR_BPS"@, 1)
            &&& c.throughput_sustained_secs == count_of(
                env,
                "OPENAI_THROUGHPUT_SUSTAINED_SECS"@,
                20,
            )
            &&& c.system_prompt == (if env.contains_key("OPENAI_SYSTEM"@) {
                Some(env["OPENAI_SYSTEM"@])
            } else {
                None
            })
        },
{
    lemma_integer(env, "OPENAI_STALL_SECS"@, 30);
    lemma_integer(env, "OPENAI_FIRST_BYTE_BACKSTOP_SECS"@, 120);
    lemma_integer(env, "OPENAI_OVERALL_DEADLINE_SECS"@, 600);
    lemma_integer(env, "OPENAI_THROUGHPUT_FLOOR_BPS"@, 1);
    lemma_integer(env, "OPENAI_THROUGHPUT_SUSTAINED_SECS"@, 20);
    reveal_strlit("https://api.openai.com/v1");
    assert("https://api.openai.com/v1"@.last() == '1');
}

/// The name of the first bound that does not read, if there is one.
pub open spec fn first_unreadable(env: Map<Seq<char>, Seq<char>>) -> Option<Seq<char>> {
    if !reads(env, "OPENAI_STALL_SECS"@, u64::MAX as nat) {
        Some("OPENAI_STALL_SECS"@)
    } else if !reads(env, "OPENAI_FIRST_BYTE_BACKSTOP_SECS"@, u64::MAX as nat) {
        Some("OPENAI_FIRST_BYTE_BACKSTOP_SECS"@)
    } else if !reads(env, "OPENAI_OVERALL_DEADLINE_SECS"@, u64::MAX as nat) {
        Some("OPENAI_OVERALL_DEADLINE_SECS"@)
    } else if !reads(env, "OPENAI_THROUGHPUT_FLOOR_BPS"@, u64::MAX as nat) {
        Some("OPENAI_THROUGHPUT_FLOOR_BPS"@)
    } else if !reads(env, "OPENAI_THROUGHPUT_SUSTAINED_SECS"@, u64::MAX as nat) {
        Some("OPENAI_THROUGHPUT_SUSTAINED_SECS"@)
    } else {
        None
    }
}

/// What is wrong with a configuration is told: no key first, then no model,
/// then the first bound that does not read, by its name and the reason.
pub proof fn lemma_wrong_configurations_are_told(env: Map<Seq<char>, Seq<char>>, prefix: Seq<char>)
    ensures
        !has_key(env, prefix) ==> openai::config_of(env, prefix) == Err::<
            OpenAiConfig<Seq<char>>,
            _,
        >(ConfigError::<Seq<char>>::MissingApiKey),
        has_key(env, prefix) && !env.contains_key(prefix + "OPENAI_MODEL"@) ==> openai::config_of(
            env,
            prefix,
        ) == Err::<OpenAiConfig<Seq<char>>, _>(ConfigError::<Seq<char>>::MissingModel),
        has_key(env, prefix) && env.contains_key(prefix + "OPENAI_MODEL"@) ==> (first_unreadable(
            env,
        ) matches Some(name) ==> openai::config_of(env, prefix) == Err::<
            OpenAiConfig<Seq<char>>,
            _,
        >(
            ConfigError::<Seq<char>>::NotAnInteger {
                name,
                cause: text::unsigned_value(env[name], u64::MAX as nat)->Err_0,
            },
        )),
{
    lemma_integer(env, "OPENAI_STALL_SECS"@, 30);
    lemma_integer(env, "OPENAI_FIRST_BYTE_BACKSTOP_SECS"@, 120);
    lemma_integer(env, "OPENAI_OVERALL_DEADLINE_SECS"@, 600);
    lemma_integer(env, "OPENAI_THROUGHPUT_FLOOR_BPS"@, 1);
    lemma_integer(env, "OPENAI_THROUGHPUT_SUSTAINED_SECS"@, 20);
}

/// The errors of a configuration in words.
pub proof fn lemma_configuration_errors_in_words(name: Seq<char>, cause: IntegerError)
    ensures
        openai::config_error_text(ConfigError::MissingApiKey) == "OPENAI_API_KEY is not set"@,
        openai::config_error_text(ConfigError::MissingModel)
            == "OPENAI_MODEL is not set — required, no default"@,
        openai::config_error_text(ConfigError::NotAnInteger { name, cause }) == name
            + " must be an integer"@,
        IntegerError::Empty.message_text() == "cannot parse integer from empty string"@,
        IntegerError::InvalidDigit.message_text() == "invalid digit found in string"@,
        IntegerError::PosOverflow.message_text() == "number too large to fit in target type"@,
        forall|e: ConfigError<Seq<char>>| #[trigger]
            settings::settings_error_text(SettingsError::Endpoint(e)) == openai::config_error_text(e),
        settings::settings_error_text(SettingsError::Budget(cause)) == cause.message_text(),
{
}

// ---- settings -------------------------------------------------------------

proof fn lemma_budget(env: Map<Seq<char>, Seq<char>>, name: Seq<char>, max: u64, default: u64)
    ensures
        reads(env, name, max as nat) ==> (settings::budget_of(env, name, max, default)
            matches Ok(v) && v == count_of(env, name, default as int)),
        !reads(env, name, max as nat) ==> (settings::budget_of(env, name, max, default)
            matches Err(e) && e == text::unsigned_value(env[name], max as nat)->Err_0),
{
    if env.contains_key(name) {
        text_laws::lemma_integers_read_by_place(env[name], max as nat);
    }
}

/// The budgets of a session all read.
pub open spec fn budgets_read(env: Map<Seq<char>, Seq<char>>) -> bool {
    &&& reads(env, "OPENAI_RETRY_ALLOWANCE"@, u32::MAX as nat)
    &&& reads(env, "OPENAI_SEND_BUCKETS"@, u32::MAX as nat)
    &&& reads(env, "OPENAI_BUS_CAPACITY"@, usize::MAX as nat)
}

/// A session is set up exactly if its primary endpoint is configured, its
/// alternative too where that has an address, and its budgets read; and then
/// every part of it is what its own variable says, or its default.
pub proof fn lemma_variables_set_up(env: Map<Seq<char>, Seq<char>>)
    ensures
        settings::settings_of(env) is Ok <==> openai::config_of(env, Seq::empty()) is Ok && (
        env.contains_key("FAILOVER_OPENAI_BASE_URL"@) ==> openai::config_of(env, "FAILOVER_"@) is Ok)
            && budgets_read(env),
        settings::settings_of(env) matches Ok(s) ==> {
            &&& Ok::<_, ConfigError<Seq<char>>>(s.primary) == openai::config_of(env, Seq::empty())
            &&& env.contains_key("FAILOVER_OPENAI_BASE_URL"@) ==> (s.failover matches Some(f) && Ok::<
                _,
                ConfigError<Seq<char>>,
            >(f) == openai::config_of(env, "FAILOVER_"@))
            &&& !env.contains_key("FAILOVER_OPENAI_BASE_URL"@) ==> s.failover is None
            &&& s.retry_allowance == count_of(env, "OPENAI_RETRY_ALLOWANCE"@, 1)
            &&& s.send_buckets == count_of(env, "OPENAI_SEND_BUCKETS"@, 1)
            &&& s.bus_capacity == count_of(env, "OPENAI_BUS_CAPACITY"@, 4096)
            &&& s.capture_dir == (if env.contains_key("OPENAI_CAPTURE_DIR"@) {
                Some(env["OPENAI_CAPTURE_DIR"@])
            } else {
                None
            })
        },
{
    lemma_budget(env, "OPENAI_RETRY_ALLOWANCE"@, u32::MAX as u64, 1);
    lemma_budget(env, "OPENAI_SEND_BUCKETS"@, u32::MAX as u64, 1);
    lemma_budget(env, "OPENAI_BUS_CAPACITY"@, usize::MAX as u64, 4096);
}

/// What is wrong with the settings is told: the primary endpoint's error
/// first, then the alternative's, then the budgets' in their order.
pub proof fn lemma_wrong_settings_are_told(env: Map<Seq<char>, Seq<char>>)
    ensures
        openai::config_of(env, Seq::empty()) matches Err(e) ==> settings::settings_of(env) == Err::<
            Settings<Seq<char>>,
            _,
        >(SettingsError::Endpoint(e)),
        openai::config_of(env, Seq::empty()) is Ok && env.contains_key(
            "FAILOVER_OPENAI_BASE_URL"@,
        ) ==> (openai::config_of(env, "FAILOVER_"@) matches Err(e) ==> settings::settings_of(env)
            == Err::<Settings<Seq<char>>, _>(SettingsError::Endpoint(e))),
        openai::config_of(env, Seq::empty()) is Ok && (env.contains_key(
            "FAILOVER_OPENAI_BASE_URL"@,
        ) ==> openai::config_of(env, "FAILOVER_"@) is Ok) ==> {
            &&& !reads(env, "OPENAI_RETRY_ALLOWANCE"@, u32::MAX as nat) ==> settings::settings_of(
                env,
            ) == Err::<Settings<Seq<char>>, _>(
                SettingsError::<Seq<char>>::Budget(
                    text::unsigned_value(
                        env["OPENAI_RETRY_ALLOWANCE"@],
                        u32::MAX as nat,
                    )->Err_0,
                ),
            )
            &&& reads(env, "OPENAI_RETRY_ALLOWANCE"@, u32::MAX as nat) && !reads(
                env,
                "OPENAI_SEND_BUCKETS"@,
                u32::MAX as nat,
            ) ==> settings::settings_of(env) == Err::<Settings<Seq<char>>, _>(
                SettingsError::<Seq<char>>::Budget(
                    text::unsigned_value(env["OPENAI_SEND_BUCKETS"@], u32::MAX as nat)->Err_0,
                ),
            )
            &&& reads(env, "OPENAI_RETRY_ALLOWANCE"@, u32::MAX as nat) && reads(
                env,
                "OPENAI_SEND_BUCKETS"@,
                u32::MAX as nat,
            ) && !reads(env, "OPENAI_BUS_CAPACITY"@, usize::MAX as nat) ==> settings::settings_of(
                env,
            ) == Err::<Settings<Seq<char>>, _>(
                SettingsError::<Seq<char>>::Budget(
                    text::unsigned_value(env["OPENAI_BUS_CAPACITY"@], usize::MAX as nat)->Err_0,
                ),
            )
        },
{
    lemma_budget(env, "OPENAI_RETRY_ALLOWANCE"@, u32::MAX as u64, 1);
    lemma_budget(env, "OPENAI_SEND_BUCKETS"@, u32::MAX as u64, 1);
    lemma_budget(env, "OPENAI_BUS_CAPACITY"@, usize::MAX as u64, 4096);
}

/// The line that a session opens with names its endpoint, its model, its
/// alternative, its buckets and where the settings came from.
pub proof fn lemma_banner_names_the_session(
    s: Settings<Seq<char>>,
    f: OpenAiConfig<Seq<char>>,
    origin: Seq<char>,
)
    ensures
        ({
            let head = "rar-chat — endpoint "@ + s.primary.base_url + " | model "@
                + s.primary.model + " | failover "@;
            let buckets = " | buckets "@ + text::decimal(s.send_buckets as nat) + " | config "@;
            &&& s.failover == Some(f) ==> settings::banner_text(s, Some(origin)) == head
                + f.base_url + buckets + origin
            &&& s.failover is None ==> settings::banner_text(s, Some(origin)) == head + "(none)"@
                + buckets + origin
            &&& s.failover == Some(f) ==> settings::banner_text(s, None) == head + f.base_url
                + buckets + "(process environment)"@
            &&& s.failover is None ==> settings::banner_text(s, None) == head + "(none)"@ + buckets
                + "(process environment)"@
        }),
{
}

} // verus!
