//! The endpoint: its configuration, what is sent to it, how its response is
//! let in, and how the end of a stream becomes a fault.

use crate::driver::{ChatOutcome, DriverFault};
use crate::emission::StreamEndCause;
use crate::env_file;
use crate::env_file::EnvSource;
use crate::event_handler::TurnResolution;
use crate::machine;
use crate::text;
use crate::text::IntegerError;
use vstd::prelude::*;

verus! {

// ---- configuration --------------------------------------------------------

/// One endpoint's configuration. Times are in whole seconds.
#[derive(Debug, Clone)]
pub struct OpenAiConfig<S = String> {
    pub base_url: S,
    pub api_key: S,
    pub model: S,
    pub request_usage: bool,
    pub stall_timeout_secs: u64,
    pub first_byte_backstop_secs: u64,
    pub overall_deadline_secs: u64,
    pub throughput_floor_bps: u64,
    pub throughput_sustained_secs: u64,
    pub system_prompt: Option<S>,
}

impl View for OpenAiConfig {
    type V = OpenAiConfig<Seq<char>>;

    open spec fn view(&self) -> OpenAiConfig<Seq<char>> {
        OpenAiConfig {
            base_url: self.base_url@,
            api_key: self.api_key@,
            model: self.model@,
            request_usage: self.request_usage,
            stall_timeout_secs: self.stall_timeout_secs,
            first_byte_backstop_secs: self.first_byte_backstop_secs,
            overall_deadline_secs: self.overall_deadline_secs,
            throughput_floor_bps: self.throughput_floor_bps,
            throughput_sustained_secs: self.throughput_sustained_secs,
            system_prompt: machine::opt_text(self.system_prompt),
        }
    }
}

/// Why a configuration cannot be made. It names variables, never values.
#[derive(Debug, PartialEq, Eq)]
pub enum ConfigError<S = String> {
    MissingApiKey,
    MissingModel,
    NotAnInteger { name: S, cause: IntegerError },
}

impl View for ConfigError {
    type V = ConfigError<Seq<char>>;

    open spec fn view(&self) -> ConfigError<Seq<char>> {
        match *self {
            ConfigError::MissingApiKey => ConfigError::MissingApiKey,
            ConfigError::MissingModel => ConfigError::MissingModel,
            ConfigError::NotAnInteger { name, cause } => ConfigError::NotAnInteger {
                name: name@,
                cause,
            },
        }
    }
}

/// The message of a configuration error.
pub open spec fn config_error_text(e: ConfigError<Seq<char>>) -> Seq<char> {
    match e {
        ConfigError::MissingApiKey => "OPENAI_API_KEY is not set"@,
        ConfigError::MissingModel => "OPENAI_MODEL is not set — required, no default"@,
        ConfigError::NotAnInteger { name, cause: _ } => name + " must be an integer"@,
    }
}

impl ConfigError {
    /// The message, for people.
    pub fn to_string(&self) -> (r: String)
        ensures
            r@ == config_error_text(self@),
    {
        match self {
            ConfigError::MissingApiKey => "OPENAI_API_KEY is not set".to_owned(),
            ConfigError::MissingModel => {
                "OPENAI_MODEL is not set — required, no default".to_owned()
            },
            ConfigError::NotAnInteger { name, cause: _ } => text::concat(
                name.as_str(),
                " must be an integer",
            ),
        }
    }
}

/// A configuration result as the specification sees it.
pub open spec fn config_view(r: Result<OpenAiConfig, ConfigError>) -> Result<
    OpenAiConfig<Seq<char>>,
    ConfigError<Seq<char>>,
> {
    match r {
        Ok(c) => Ok(c@),
        Err(e) => Err(e@),
    }
}

/// An integer variable, with its default.
pub open spec fn integer_of(env: Map<Seq<char>, Seq<char>>, name: Seq<char>, default: u64) -> Result<
    u64,
    ConfigError<Seq<char>>,
> {
    match env_file::lookup(env, name) {
        None => Ok(default),
        Some(s) => match text::unsigned_value(s, u64::MAX as nat) {
            Ok(v) => Ok(v as u64),
            Err(cause) => Err(ConfigError::NotAnInteger { name, cause }),
        },
    }
}

/// Whether the usage report is to be requested: unless it is switched off.
pub open spec fn usage_requested(env: Map<Seq<char>, Seq<char>>) -> bool {
    match env_file::lookup(env, "OPENAI_INCLUDE_USAGE"@) {
        Some(v) => v != "0"@ && v != "false"@ && v != "no"@,
        None => true,
    }
}

/// The API key: under the prefixed name, else under the plain one.
pub open spec fn api_key_of(env: Map<Seq<char>, Seq<char>>, prefix: Seq<char>) -> Option<Seq<char>> {
    match env_file::lookup(env, prefix + "OPENAI_API_KEY"@) {
        Some(k) => Some(k),
        None => env_file::lookup(env, "OPENAI_API_KEY"@),
    }
}

/// The configuration that an environment gives. Of several things wrong, the
/// first in this order is reported.
pub open spec fn config_of(env: Map<Seq<char>, Seq<char>>, prefix: Seq<char>) -> Result<
    OpenAiConfig<Seq<char>>,
    ConfigError<Seq<char>>,
> {
    let stall = integer_of(env, "OPENAI_STALL_SECS"@, 30);
    let backstop = integer_of(env, "OPENAI_FIRST_BYTE_BACKSTOP_SECS"@, 120);
    let overall = integer_of(env, "OPENAI_OVERALL_DEADLINE_SECS"@, 600);
    let floor = integer_of(env, "OPENAI_THROUGHPUT_FLOOR_BPS"@, 1);
    let sustained = integer_of(env, "OPENAI_THROUGHPUT_SUSTAINED_SECS"@, 20);
    let base_url = match env_file::lookup(env, prefix + "OPENAI_BASE_URL"@) {
        Some(u) => u,
        None => "https://api.openai.com/v1"@,
    };
    match (api_key_of(env, prefix), env_file::lookup(env, prefix + "OPENAI_MODEL"@)) {
        (None, _) => Err(ConfigError::MissingApiKey),
        (_, None) => Err(ConfigError::MissingModel),
        (Some(api_key), Some(model)) => match (stall, backstop, overall, floor, sustained) {
            (Err(e), _, _, _, _) => Err(e),
            (_, Err(e), _, _, _) => Err(e),
            (_, _, Err(e), _, _) => Err(e),
            (_, _, _, Err(e), _) => Err(e),
            (_, _, _, _, Err(e)) => Err(e),
            (Ok(stall), Ok(backstop), Ok(overall), Ok(floor), Ok(sustained)) => Ok(
                OpenAiConfig {
                    base_url: text::trimmed_end_of(base_url, '/'),
                    api_key,
                    model,
                    request_usage: usage_requested(env),
                    stall_timeout_secs: stall,
                    first_byte_backstop_secs: backstop,
                    overall_deadline_secs: overall,
                    throughput_floor_bps: floor,
                    throughput_sustained_secs: sustained,
                    system_prompt: env_file::lookup(env, "OPENAI_SYSTEM"@),
                },
            ),
        },
    }
}

fn integer(src: &EnvSource, name: &str, default: u64) -> (r: Result<u64, ConfigError>)
    ensures
        (match r {
            Ok(v) => Ok(v),
            Err(e) => Err(e@),
        }) == integer_of(src@, name@, default),
{
    match src.get(name) {
        None => Ok(default),
        Some(s) => match text::parse_unsigned(s.as_str(), u64::MAX) {
            Ok(v) => Ok(v),
            Err(cause) => Err(ConfigError::NotAnInteger { name: name.to_owned(), cause }),
        },
    }
}

impl OpenAiConfig {
    /// The configuration under prefixed variable names. The clocks, the usage
    /// switch and the system prompt have one name whatever the prefix; the API
    /// key falls back to its plain name.
    pub fn from_source_prefixed(src: &EnvSource, prefix: &str) -> (r: Result<Self, ConfigError>)
        ensures
            config_view(r) == config_of(src@, prefix@),
    {
        let prefixed_key = text::concat(prefix, "OPENAI_API_KEY");
        let api_key = match src.get(prefixed_key.as_str()) {
            Some(k) => k,
            None => match src.get("OPENAI_API_KEY") {
                Some(k) => k,
                None => {
                    return Err(ConfigError::MissingApiKey);
                },
            },
        };
        let model_name = text::concat(prefix, "OPENAI_MODEL");
        let model = match src.get(model_name.as_str()) {
            Some(m) => m,
            None => {
                return Err(ConfigError::MissingModel);
            },
        };
        let base_name = text::concat(prefix, "OPENAI_BASE_URL");
        let base_url = match src.get(base_name.as_str()) {
            Some(u) => u,
            None => "https://api.openai.com/v1".to_owned(),
        };
        let request_usage = match src.get("OPENAI_INCLUDE_USAGE") {
            Some(v) => !(text::same_text(v.as_str(), "0") || text::same_text(v.as_str(), "false")
                || text::same_text(v.as_str(), "no")),
            None => true,
        };
        let stall_timeout_secs: u64 = match integer(src, "OPENAI_STALL_SECS", 30) {
            Ok(v) => v,
            Err(e) => {
                return Err(e);
            },
        };
        let first_byte_backstop_secs: u64 = match integer(
            src,
            "OPENAI_FIRST_BYTE_BACKSTOP_SECS",
            120,
        ) {
            Ok(v) => v,
            Err(e) => {
                return Err(e);
            },
        };
        let overall_deadline_secs: u64 = match integer(src, "OPENAI_OVERALL_DEADLINE_SECS", 600) {
            Ok(v) => v,
            Err(e) => {
                return Err(e);
            },
        };
        let throughput_floor_bps: u64 = match integer(src, "OPENAI_THROUGHPUT_FLOOR_BPS", 1) {
            Ok(v) => v,
            Err(e) => {
                return Err(e);
            },
        };
        let throughput_sustained_secs: u64 = match integer(
            src,
            "OPENAI_THROUGHPUT_SUSTAINED_SECS",
            20,
        ) {
            Ok(v) => v,
            Err(e) => {
                return Err(e);
            },
        };
        let url_chars = text::chars_of(base_url.as_str());
        Ok(
            OpenAiConfig {
                base_url: text::string_of(text::trim_end_of(url_chars.as_slice(), '/')),
                api_key,
                model,
                request_usage,
                stall_timeout_secs,
                first_byte_backstop_secs,
                overall_deadline_secs,
                throughput_floor_bps,
                throughput_sustained_secs,
                system_prompt: src.get("OPENAI_SYSTEM"),
            },
        )
    }

    /// The configuration under the plain variable names.
    pub fn from_source(src: &EnvSource) -> (r: Result<Self, ConfigError>)
        ensures
            config_view(r) == config_of(src@, Seq::empty()),
    {
        proof {
            reveal_strlit("");
            assert(""@ =~= Seq::<char>::empty());
        }
        Self::from_source_prefixed(src, "")
    }

    /// The address that chat requests go to.
    pub fn completions_url(&self) -> (r: String)
        ensures
            r@ == url_of(self@),
    {
        text::concat(self.base_url.as_str(), "/chat/completions")
    }
}

/// The address that chat requests go to.
pub open spec fn url_of(cfg: OpenAiConfig<Seq<char>>) -> Seq<char> {
    cfg.base_url + "/chat/completions"@
}

// ---- what is sent ---------------------------------------------------------

/// One message of a conversation.
#[derive(Debug)]
pub struct Message<S = String> {
    pub role: S,
    pub content: S,
}

impl View for Message {
    type V = Message<Seq<char>>;

    open spec fn view(&self) -> Message<Seq<char>> {
        Message { role: self.role@, content: self.content@ }
    }
}

impl Clone for Message {
    fn clone(&self) -> (r: Self)
        ensures
            r@ == self@,
    {
        Message { role: self.role.clone(), content: self.content.clone() }
    }
}

impl Message {
    /// A message of the given role and content.
    pub fn new(role: &str, content: &str) -> (r: Self)
        ensures
            r@ == (Message::<Seq<char>> { role: role@, content: content@ }),
    {
        Message { role: role.to_owned(), content: content.to_owned() }
    }
}

/// Options of a streaming request.
#[derive(Debug, Clone, Copy, PartialEq, Eq, Structural)]
pub struct StreamOptions {
    pub include_usage: bool,
}

/// The body of a chat request.
#[derive(Debug)]
pub struct ChatRequest<'a> {
    pub model: &'a str,
    pub messages: &'a [Message],
    pub stream: bool,
    /// Left out of the body where it is `None`.
    pub stream_options: Option<StreamOptions>,
}

/// Messages as the specification sees them.
pub open spec fn messages_view(ms: Seq<Message>) -> Seq<Message<Seq<char>>> {
    ms.map_values(|m: Message| m@)
}

/// What a request says.
pub struct RequestFacts {
    pub model: Seq<char>,
    pub messages: Seq<Message<Seq<char>>>,
    pub stream: bool,
    pub stream_options: Option<StreamOptions>,
}

impl<'a> View for ChatRequest<'a> {
    type V = RequestFacts;

    open spec fn view(&self) -> RequestFacts {
        RequestFacts {
            model: self.model@,
            messages: messages_view(self.messages@),
            stream: self.stream,
            stream_options: self.stream_options,
        }
    }
}

/// The request for a reply to `messages`, streamed. Usage is asked for, or not
/// mentioned at all.
pub open spec fn request_of(
    cfg: OpenAiConfig<Seq<char>>,
    messages: Seq<Message<Seq<char>>>,
) -> RequestFacts {
    RequestFacts {
        model: cfg.model,
        messages,
        stream: true,
        stream_options: if cfg.request_usage {
            Some(StreamOptions { include_usage: true })
        } else {
            None
        },
    }
}

impl<'a> ChatRequest<'a> {
    /// The request for a reply to `messages`, streamed. Usage is asked for, or
    /// not mentioned at all.
    pub fn new(cfg: &'a OpenAiConfig, messages: &'a [Message]) -> (r: Self)
        ensures
            r@ == request_of(cfg@, messages_view(messages@)),
    {
        ChatRequest {
            model: cfg.model.as_str(),
            messages,
            stream: true,
            stream_options: if cfg.request_usage {
                Some(StreamOptions { include_usage: true })
            } else {
                None
            },
        }
    }
}

// ---- letting the response in ----------------------------------------------

/// What is to be done with a response once its head has arrived.
#[derive(Debug, Clone, Copy, PartialEq, Eq, Structural)]
pub enum ResponseGate {
    /// Read it as an event stream.
    Stream,
    /// Read its body as the text of an HTTP error.
    HttpError,
    /// Read its body as text: it succeeded but is no event stream.
    NotAnEventStream,
}

/// A status is a success from 200 to 299.
pub open spec fn gate_of(status: u16, content_type: Seq<char>) -> ResponseGate {
    if !(200 <= status < 300) {
        ResponseGate::HttpError
    } else if exists|i: int| text::occurs_at(content_type, "text/event-stream"@, i) {
        ResponseGate::Stream
    } else {
        ResponseGate::NotAnEventStream
    }
}

/// Judge the head of a response. Nothing is framed that was not declared an
/// event stream.
pub fn gate_response(status: u16, content_type: &str) -> (r: ResponseGate)
    ensures
        r == gate_of(status, content_type@),
{
    if !(200 <= status && status < 300) {
        ResponseGate::HttpError
    } else if text::contains(content_type, "text/event-stream") {
        ResponseGate::Stream
    } else {
        ResponseGate::NotAnEventStream
    }
}

/// How reading a response body as text went.
#[derive(Debug)]
pub enum BodyRead<S = String> {
    Text(S),
    Failed,
    TimedOut,
}

impl View for BodyRead {
    type V = BodyRead<Seq<char>>;

    open spec fn view(&self) -> BodyRead<Seq<char>> {
        match *self {
            BodyRead::Text(t) => BodyRead::Text(t@),
            BodyRead::Failed => BodyRead::Failed,
            BodyRead::TimedOut => BodyRead::TimedOut,
        }
    }
}

/// The text that stands for a body.
pub open spec fn body_text(b: BodyRead<Seq<char>>) -> Seq<char> {
    match b {
        BodyRead::Text(t) => t,
        BodyRead::Failed => Seq::empty(),
        BodyRead::TimedOut => "(body read timed out)"@,
    }
}

impl BodyRead {
    /// The text that stands for this body.
    pub fn into_text(self) -> (r: String)
        ensures
            r@ == body_text(self@),
    {
        match self {
            BodyRead::Text(t) => t,
            BodyRead::Failed => String::new(),
            BodyRead::TimedOut => "(body read timed out)".to_owned(),
        }
    }
}

// ---- ends and verdicts ----------------------------------------------------

/// How one attempt ended: resolved by the handler, or cut at the wire.
#[derive(Debug)]
pub enum AttemptEnd<S = String> {
    Complete(TurnResolution<S>),
    Wire(StreamEndCause<S>),
}

impl View for AttemptEnd {
    type V = AttemptEnd<Seq<char>>;

    open spec fn view(&self) -> AttemptEnd<Seq<char>> {
        match *self {
            AttemptEnd::Complete(r) => AttemptEnd::Complete(r@),
            AttemptEnd::Wire(c) => AttemptEnd::Wire(c@),
        }
    }
}

/// The verdict on one user turn on one endpoint.
#[derive(Debug)]
pub enum TurnVerdict<S = String> {
    Committed(ChatOutcome<S>),
    Failover { attempts_here: u32 },
    Failed(DriverFault<S>),
}

impl View for TurnVerdict {
    type V = TurnVerdict<Seq<char>>;

    open spec fn view(&self) -> TurnVerdict<Seq<char>> {
        match *self {
            TurnVerdict::Committed(o) => TurnVerdict::Committed(o@),
            TurnVerdict::Failover { attempts_here } => TurnVerdict::Failover { attempts_here },
            TurnVerdict::Failed(f) => TurnVerdict::Failed(f@),
        }
    }
}

/// A text as the standard library's `{:?}` shows it: in quotes, escaped.
pub uninterp spec fn quoted_text(s: Seq<char>) -> Seq<char>;

/// `format!("{:?}", s)` of a string slice. Its result depends on the text
/// alone.
#[verifier::external_body]
fn quoted(s: &str) -> (r: String)
    ensures
        r@ == quoted_text(s@),
{
    format!("{:?}", s)
}

/// The fault that a cut at the wire amounts to.
pub open spec fn wire_fault_of(c: StreamEndCause<Seq<char>>) -> DriverFault<Seq<char>> {
    match c {
        StreamEndCause::StallTimeout { window_secs } => DriverFault::Stalled {
            after_secs: window_secs,
        },
        StreamEndCause::FirstByteBackstop { window_secs } => DriverFault::Stalled {
            after_secs: window_secs,
        },
        StreamEndCause::ThroughputStarved { floor_bps: _, sustained_secs } => DriverFault::Stalled {
            after_secs: sustained_secs,
        },
        StreamEndCause::OverallDeadline { limit_secs } => DriverFault::Stalled {
            after_secs: limit_secs,
        },
        StreamEndCause::BufferOverflow { limit_bytes } => DriverFault::BufferOverflow {
            limit_bytes,
        },
        StreamEndCause::HttpError { status, body } => DriverFault::Protocol(
            "HTTP "@ + text::decimal(status as nat) + ": "@ + body,
        ),
        StreamEndCause::NotAnEventStream { content_type, body_prefix } => DriverFault::Protocol(
            "not an event stream (Content-Type: "@ + content_type + "): "@ + body_prefix,
        ),
        StreamEndCause::ConnectError { detail } => DriverFault::Protocol(detail),
        StreamEndCause::TransportError { detail } => DriverFault::Protocol(detail),
        StreamEndCause::DoneSentinelConsumed => DriverFault::Protocol("DoneSentinelConsumed"@),
        StreamEndCause::PeerClosed => DriverFault::Protocol("PeerClosed"@),
        StreamEndCause::ClosedWithNoContent => DriverFault::Protocol("ClosedWithNoContent"@),
        StreamEndCause::HandlerDirected { directive } => DriverFault::Protocol(
            "HandlerDirected { directive: "@ + quoted_text(directive) + " }"@,
        ),
        StreamEndCause::MultipleChoicesUnsupported { n } => DriverFault::Protocol(
            "MultipleChoicesUnsupported { n: "@ + text::decimal(n as nat) + " }"@,
        ),
        StreamEndCause::Cancelled => DriverFault::Protocol("Cancelled"@),
    }
}

/// The fault that a cut at the wire amounts to.
pub fn wire_fault(c: StreamEndCause) -> (r: DriverFault)
    ensures
        r@ == wire_fault_of(c@),
{
    match c {
        StreamEndCause::StallTimeout { window_secs } => DriverFault::Stalled {
            after_secs: window_secs,
        },
        StreamEndCause::FirstByteBackstop { window_secs } => DriverFault::Stalled {
            after_secs: window_secs,
        },
        StreamEndCause::ThroughputStarved { floor_bps: _, sustained_secs } => DriverFault::Stalled {
            after_secs: sustained_secs,
        },
        StreamEndCause::OverallDeadline { limit_secs } => DriverFault::Stalled {
            after_secs: limit_secs,
        },
        StreamEndCause::BufferOverflow { limit_bytes } => DriverFault::BufferOverflow {
            limit_bytes,
        },
        StreamEndCause::HttpError { status, body } => {
            let mut msg: String = text::number_between("HTTP ", status as u64, ": ");
            msg.append(body.as_str());
            DriverFault::Protocol(msg)
        },
        StreamEndCause::NotAnEventStream { content_type, body_prefix } => {
            let mut msg: String = text::concat(
                "not an event stream (Content-Type: ",
                content_type.as_str(),
            );
            msg.append("): ");
            msg.append(body_prefix.as_str());
            DriverFault::Protocol(msg)
        },
        StreamEndCause::ConnectError { detail } => DriverFault::Protocol(detail),
        StreamEndCause::TransportError { detail } => DriverFault::Protocol(detail),
        StreamEndCause::DoneSentinelConsumed => DriverFault::Protocol(
            "DoneSentinelConsumed".to_owned(),
        ),
        StreamEndCause::PeerClosed => DriverFault::Protocol("PeerClosed".to_owned()),
        StreamEndCause::ClosedWithNoContent => DriverFault::Protocol(
            "ClosedWithNoContent".to_owned(),
        ),
        StreamEndCause::HandlerDirected { directive } => {
            let mut msg: String = "HandlerDirected { directive: ".to_owned();
            msg.append(quoted(directive.as_str()).as_str());
            msg.append(" }");
            DriverFault::Protocol(msg)
        },
        StreamEndCause::MultipleChoicesUnsupported { n } => DriverFault::Protocol(
            text::number_between("MultipleChoicesUnsupported { n: ", n as u64, " }"),
        ),
        StreamEndCause::Cancelled => DriverFault::Protocol("Cancelled".to_owned()),
    }
}

// ---- laws -----------------------------------------------------------------

/// Names that end in different letters differ.
proof fn lemma_key_name_is_no_other(key: Seq<char>, other: Seq<char>)
    requires
        key.len() > 0,
        other.len() > 0,
        key.last() == 'Y',
        other.last() != 'Y',
    ensures
        key != other,
{
}

/// No secret leaks through configuration errors: two environments that differ
/// in the value of one API key variable give the same error, or the same
/// configuration but for the key.
pub proof fn lemma_errors_reveal_no_key(
    env: Map<Seq<char>, Seq<char>>,
    prefix: Seq<char>,
    key_prefix: Seq<char>,
    other_value: Seq<char>,
)
    requires
        env.contains_key(key_prefix + "OPENAI_API_KEY"@),
    ensures
        ({
            let changed = env.insert(key_prefix + "OPENAI_API_KEY"@, other_value);
            match (config_of(env, prefix), config_of(changed, prefix)) {
                (Ok(a), Ok(b)) => b == (OpenAiConfig { api_key: b.api_key, ..a }),
                (Err(a), Err(b)) => a == b && config_error_text(a) == config_error_text(b),
                _ => false,
            }
        }),
{
    reveal_strlit("OPENAI_API_KEY");
    reveal_strlit("OPENAI_MODEL");
    reveal_strlit("OPENAI_BASE_URL");
    reveal_strlit("OPENAI_INCLUDE_USAGE");
    reveal_strlit("OPENAI_STALL_SECS");
    reveal_strlit("OPENAI_FIRST_BYTE_BACKSTOP_SECS");
    reveal_strlit("OPENAI_OVERALL_DEADLINE_SECS");
    reveal_strlit("OPENAI_THROUGHPUT_FLOOR_BPS");
    reveal_strlit("OPENAI_THROUGHPUT_SUSTAINED_SECS");
    reveal_strlit("OPENAI_SYSTEM");
    let key = key_prefix + "OPENAI_API_KEY"@;
    assert(key.last() == 'Y');
    lemma_key_name_is_no_other(key, prefix + "OPENAI_MODEL"@);
    lemma_key_name_is_no_other(key, prefix + "OPENAI_BASE_URL"@);
    lemma_key_name_is_no_other(key, "OPENAI_INCLUDE_USAGE"@);
    lemma_key_name_is_no_other(key, "OPENAI_STALL_SECS"@);
    lemma_key_name_is_no_other(key, "OPENAI_FIRST_BYTE_BACKSTOP_SECS"@);
    lemma_key_name_is_no_other(key, "OPENAI_OVERALL_DEADLINE_SECS"@);
    lemma_key_name_is_no_other(key, "OPENAI_THROUGHPUT_FLOOR_BPS"@);
    lemma_key_name_is_no_other(key, "OPENAI_THROUGHPUT_SUSTAINED_SECS"@);
    lemma_key_name_is_no_other(key, "OPENAI_SYSTEM"@);
}

/// The distinct endings stay distinct as faults: a silent stream is a stall,
/// an overlong frame an overflow, and neither is a truncation or an abort.
pub proof fn lemma_wire_faults_are_never_truncations(c: StreamEndCause<Seq<char>>)
    ensures
        !(wire_fault_of(c) is Truncated),
        !(wire_fault_of(c) is Aborted),
        !(wire_fault_of(c) is EmptyStream),
        wire_fault_of(c) is Stalled <==> (c is StallTimeout || c is FirstByteBackstop
            || c is ThroughputStarved || c is OverallDeadline),
        wire_fault_of(c) is BufferOverflow <==> c is BufferOverflow,
{
}

} // verus!
