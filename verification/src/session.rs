//! The broker subscription: its setup state machine, its configuration,
//! and the decision taken for each delivered message.
//!
//! The session itself lives on the network; the library holds what can be
//! decided from plain values: which stage follows which, which
//! configuration is complete, and what one delivery leads to. The caller
//! performs the network steps and feeds their outcomes back in.

use vstd::prelude::*;
use vstd::string::StringExecFns;
use vstd::utf8::{decode_utf8, valid_utf8};

use crate::codec::{DecodeError, decode, spec_parse_message};
use crate::filter::{Filter, spec_should_filter};
use crate::message::spec_summary;

verus! {

/// The stages of one broker subscription, in setup order. Any failed step
/// leaves the session failed, and a failed session stays failed: there is
/// no retry.
#[derive(Debug, Clone, Copy, PartialEq, Eq, Structural)]
pub enum SessionState {
    Disconnected,
    Connecting,
    ChannelOpen,
    QueueDeclared,
    ExchangeDeclared,
    Bound,
    Consuming,
    Failed,
}

/// The stage that follows `state` when its pending step succeeds.
/// Consuming is the steady state; a failed session stays failed.
pub open spec fn spec_next_on_success(state: SessionState) -> SessionState {
    match state {
        SessionState::Disconnected => SessionState::Connecting,
        SessionState::Connecting => SessionState::ChannelOpen,
        SessionState::ChannelOpen => SessionState::QueueDeclared,
        SessionState::QueueDeclared => SessionState::ExchangeDeclared,
        SessionState::ExchangeDeclared => SessionState::Bound,
        SessionState::Bound => SessionState::Consuming,
        SessionState::Consuming => SessionState::Consuming,
        SessionState::Failed => SessionState::Failed,
    }
}

/// The stage after one step: the next stage on success, failed on any
/// error.
pub open spec fn spec_advance(state: SessionState, ok: bool) -> SessionState {
    if ok {
        spec_next_on_success(state)
    } else {
        SessionState::Failed
    }
}

/// Moves the session one step: to the following stage when the step
/// succeeded, to the failed stage otherwise.
pub fn advance(state: SessionState, ok: bool) -> (r: SessionState)
    ensures
        r == spec_advance(state, ok),
{
    if !ok {
        return SessionState::Failed;
    }
    match state {
        SessionState::Disconnected => SessionState::Connecting,
        SessionState::Connecting => SessionState::ChannelOpen,
        SessionState::ChannelOpen => SessionState::QueueDeclared,
        SessionState::QueueDeclared => SessionState::ExchangeDeclared,
        SessionState::ExchangeDeclared => SessionState::Bound,
        SessionState::Bound => SessionState::Consuming,
        SessionState::Consuming => SessionState::Consuming,
        SessionState::Failed => SessionState::Failed,
    }
}

/// A failed step is fatal from every stage.
pub proof fn lemma_failure_is_fatal(state: SessionState)
    ensures
        spec_advance(state, false) == SessionState::Failed,
{
}

/// A failed session never recovers.
pub proof fn lemma_failed_is_absorbing(ok: bool)
    ensures
        spec_advance(SessionState::Failed, ok) == SessionState::Failed,
{
}

/// Six successful steps take a fresh session to its steady consuming
/// state.
pub proof fn lemma_setup_reaches_consuming()
    ensures
        spec_advance(
            spec_advance(
                spec_advance(
                    spec_advance(
                        spec_advance(
                            spec_advance(SessionState::Disconnected, true),
                            true,
                        ),
                        true,
                    ),
                    true,
                ),
                true,
            ),
            true,
        ) == SessionState::Consuming,
{
}

/// Why startup configuration was rejected: a required key is missing,
/// named so the diagnostic can say which.
#[derive(Debug, PartialEq)]
pub enum ConfigError {
    MissingKey(String),
}

/// The connection parameters of one broker session, all required.
#[derive(Debug, PartialEq)]
pub struct ConnectionSettings {
    pub host: String,
    pub user: String,
    pub pass: String,
    pub vhost: String,
    pub exchange: String,
}

impl ConnectionSettings {
    /// Assembles the settings from the configuration's values. The first
    /// missing required key, in the order host, user, pass, vhost,
    /// exchange, is reported by name; with every key present the settings
    /// carry the values unchanged.
    pub fn from_fields(
        host: Option<String>,
        user: Option<String>,
        pass: Option<String>,
        vhost: Option<String>,
        exchange: Option<String>,
    ) -> (r: Result<ConnectionSettings, ConfigError>)
        ensures
            host is None ==> (r matches Err(ConfigError::MissingKey(k)) && k@ == "host"@),
            host is Some && user is None ==> (r matches Err(ConfigError::MissingKey(k)) && k@
                == "user"@),
            host is Some && user is Some && pass is None ==> (r matches Err(
                ConfigError::MissingKey(k),
            ) && k@ == "pass"@),
            host is Some && user is Some && pass is Some && vhost is None ==> (r matches Err(
                ConfigError::MissingKey(k),
            ) && k@ == "vhost"@),
            host is Some && user is Some && pass is Some && vhost is Some && exchange is None ==> (
            r matches Err(ConfigError::MissingKey(k)) && k@ == "exchange"@),
            host is Some && user is Some && pass is Some && vhost is Some && exchange is Some ==> (
            r matches Ok(s) && s.host == host->0 && s.user == user->0 && s.pass == pass->0
                && s.vhost == vhost->0 && s.exchange == exchange->0),
    {
        let host = match host {
            Some(v) => v,
            None => {
                return Err(ConfigError::MissingKey("host".to_owned()));
            },
        };
        let user = match user {
            Some(v) => v,
            None => {
                return Err(ConfigError::MissingKey("user".to_owned()));
            },
        };
        let pass = match pass {
            Some(v) => v,
            None => {
                return Err(ConfigError::MissingKey("pass".to_owned()));
            },
        };
        let vhost = match vhost {
            Some(v) => v,
            None => {
                return Err(ConfigError::MissingKey("vhost".to_owned()));
            },
        };
        let exchange = match exchange {
            Some(v) => v,
            None => {
                return Err(ConfigError::MissingKey("exchange".to_owned()));
            },
        };
        Ok(ConnectionSettings { host, user, pass, vhost, exchange })
    }
}

/// The notification display duration in milliseconds: the configured
/// value, or five seconds when the configuration names none.
pub fn notice_duration_millis(configured: Option<i64>) -> (r: i64)
    ensures
        r == match configured {
            Some(d) => d,
            None => 5000int as i64,
        },
{
    match configured {
        Some(d) => d,
        None => 5000,
    }
}

/// The name of the session's private queue: the fixed prefix followed by
/// a caller-supplied fresh suffix, so every restart gets its own queue.
pub fn queue_name(suffix: &str) -> (r: String)
    ensures
        r@ == "weenotify-"@ + suffix@,
{
    let mut name = "weenotify-".to_owned();
    name.append(suffix);
    name
}

/// The notifier adapter's settings: how long a notification stays on
/// screen, in milliseconds.
#[derive(Debug, Clone, Copy)]
pub struct Notifier {
    pub duration: i32,
}

impl Notifier {
    /// A notifier that displays for `duration` milliseconds.
    pub fn new(duration: i32) -> (r: Notifier)
        ensures
            r.duration == duration,
    {
        Notifier { duration }
    }
}

/// What one delivery leads to. A payload that does not decode is fatal
/// and is not acknowledged; a decoded message is acknowledged whatever
/// the filter decides, and is rendered only when it is not suppressed.
#[derive(Debug, PartialEq)]
pub enum DeliveryOutcome {
    /// The payload did not decode; the session aborts with this error.
    Fatal(DecodeError),
    /// The message is acknowledged and suppressed by the filter.
    Suppressed,
    /// The message is acknowledged and displayed, with this summary and
    /// body.
    Notify(String, String),
}

/// True when the outcome acknowledges the delivery: every decoded
/// delivery does, suppressed or not.
pub open spec fn spec_acknowledges(outcome: DeliveryOutcome) -> bool {
    outcome is Suppressed || outcome is Notify
}

impl DeliveryOutcome {
    /// True when this outcome acknowledges the delivery to the broker.
    pub fn acknowledges(&self) -> (r: bool)
        ensures
            r == spec_acknowledges(*self),
    {
        match self {
            DeliveryOutcome::Fatal(_) => false,
            DeliveryOutcome::Suppressed => true,
            DeliveryOutcome::Notify(_, _) => true,
        }
    }
}

/// Decides the whole pipeline step for one delivered payload: decode it,
/// and when it decodes, acknowledge and either suppress it or render its
/// notification. The filter never touches a delivery that failed to
/// decode, and the rendered summary and body are exactly those of the
/// decoded message.
pub fn handle_delivery(filter: &Filter, payload: &[u8]) -> (r: DeliveryOutcome)
    ensures
        !valid_utf8(payload@) ==> r == DeliveryOutcome::Fatal(DecodeError::Encoding),
        valid_utf8(payload@) ==> match spec_parse_message(decode_utf8(payload@)) {
            None => r == DeliveryOutcome::Fatal(DecodeError::Schema),
            Some(mv) => if spec_should_filter(filter@, mv) {
                r == DeliveryOutcome::Suppressed
            } else {
                r matches DeliveryOutcome::Notify(s, b) && s@ == spec_summary(mv) && b@
                    == mv.message
            },
        },
{
    let m = match decode(payload) {
        Ok(m) => m,
        Err(e) => {
            return DeliveryOutcome::Fatal(e);
        },
    };
    if filter.should_filter(&m) {
        DeliveryOutcome::Suppressed
    } else {
        DeliveryOutcome::Notify(m.summary(), m.body())
    }
}

} // verus!
