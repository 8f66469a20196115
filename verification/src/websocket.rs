//! The decisions of the live vault stream: which bearer token a header carries,
//! which events a client may see, when to ping and when to give up on a
//! silent client, and how long to wait between reconnection attempts.
use vstd::prelude::*;
use crate::handlers::{event_type_name, event_type_text};
use crate::models::VaultEvent;

verus! {

/// Seconds between pings.
pub const HEARTBEAT_INTERVAL_SECS: u64 = 30;
/// Seconds a client may take to answer a ping, beyond the interval.
pub const PONG_TIMEOUT_SECS: u64 = 10;
/// The longest wait between reconnection attempts, in milliseconds.
pub const MAX_BACKOFF_MS: u64 = 30_000;

/// The token of a `Bearer` authorization header.
pub open spec fn bearer_token(header: Seq<char>) -> Option<Seq<char>> {
    if header.len() >= 7 && header.subrange(0, 7) == "Bearer "@ {
        Some(header.subrange(7, header.len() as int))
    } else {
        None
    }
}

/// The token after the `Bearer ` prefix of an authorization header.
pub fn extract_token_from_header(header_value: &str) -> (r: Option<&str>)
    ensures
        r.is_some() == bearer_token(header_value@).is_some(),
        r matches Some(t) ==> bearer_token(header_value@) == Some(t@),
{
    proof {
        reveal_strlit("Bearer ");
    }
    let prefix = "Bearer ";
    let len = header_value.unicode_len();
    if len < 7 {
        return None;
    }
    let mut i: usize = 0;
    while i < 7
        invariant
            0 <= i <= 7,
            len == header_value@.len(),
            len >= 7,
            prefix@ == "Bearer "@,
            prefix@.len() == 7,
            forall|k: int| 0 <= k < i ==> header_value@[k] == prefix@[k],
        decreases 7 - i,
    {
        if header_value.get_char(i) != prefix.get_char(i) {
            proof {
                assert(header_value@.subrange(0, 7)[i as int] != prefix@[i as int]);
            }
            return None;
        }
        i = i + 1;
    }
    proof {
        assert(header_value@.subrange(0, 7) =~= "Bearer "@);
    }
    Some(header_value.substring_char(7, len))
}

/// Whether an event of vault `vault_id` may go to a client authorized for
/// `authorized`.
pub open spec fn event_authorized(authorized: Seq<String>, vault_id: Seq<char>) -> bool {
    exists|i: int| 0 <= i < authorized.len() && authorized[i]@ == vault_id
}

pub fn is_authorized_event(authorized_vault_ids: &Vec<String>, vault_id: &str) -> (r: bool)
    ensures
        r == event_authorized(authorized_vault_ids@, vault_id@),
{
    let id = vault_id.to_owned();
    let n = authorized_vault_ids.len();
    let mut i: usize = 0;
    while i < n
        invariant
            n == authorized_vault_ids@.len(),
            id@ == vault_id@,
            0 <= i <= n,
            forall|k: int| 0 <= k < i ==> authorized_vault_ids@[k]@ != vault_id@,
        decreases n - i,
    {
        if authorized_vault_ids[i] == id {
            return true;
        }
        i = i + 1;
    }
    false
}

/// A message of the stream: the event's type by name, and its JSON data.
pub struct StreamMessage {
    pub message_type: String,
    pub data: String,
}

/// The message that an event becomes for a client authorized for
/// `authorized_vault_ids`; none when the event's vault is not among them.
pub fn stream_message(authorized_vault_ids: &Vec<String>, event: &VaultEvent) -> (r: Option<
    StreamMessage,
>)
    ensures
        r.is_some() == event_authorized(authorized_vault_ids@, event.vault_id@),
        r matches Some(m) ==> m.message_type@ == event_type_name(event.event_type) && m.data
            == event.data,
{
    if is_authorized_event(authorized_vault_ids, event.vault_id.as_str()) {
        Some(
            StreamMessage {
                message_type: event_type_text(event.event_type).to_owned(),
                data: event.data.clone(),
            },
        )
    } else {
        None
    }
}

/// What to do when the heartbeat timer fires.
#[derive(Clone, Copy, Debug, PartialEq, Eq, Structural)]
pub enum HeartbeatAction {
    /// Send a ping and wait for the answer.
    Ping,
    /// The client missed its pong: close the connection.
    Disconnect,
}

/// What a frame from the client means for the stream.
#[derive(Clone, Copy, Debug, PartialEq, Eq, Structural)]
pub enum ClientFrame {
    Pong,
    Close,
    Ended,
    Other,
}

/// The heartbeat state of one connection.
#[derive(Clone, Copy, Debug, PartialEq, Eq)]
pub struct HeartbeatState {
    pub awaiting_pong: bool,
    /// When the last pong arrived (or the stream started), in milliseconds.
    pub last_pong_ms: u64,
}

/// Whether a client that owes a pong and last answered at `last_pong_ms` has
/// been silent for longer than the interval plus the pong timeout at `now_ms`.
pub open spec fn pong_overdue(s: HeartbeatState, now_ms: u64) -> bool {
    s.awaiting_pong && now_ms - s.last_pong_ms > (HEARTBEAT_INTERVAL_SECS + PONG_TIMEOUT_SECS) * 1000
}

impl HeartbeatState {
    /// A connection opened at `now_ms`.
    pub fn start(now_ms: u64) -> (s: Self)
        ensures
            s == (HeartbeatState { awaiting_pong: false, last_pong_ms: now_ms }),
    {
        HeartbeatState { awaiting_pong: false, last_pong_ms: now_ms }
    }

    /// The heartbeat timer fired at `now_ms`: disconnect a client whose pong is
    /// overdue, otherwise ping it and wait for the answer.
    pub fn on_heartbeat(&mut self, now_ms: u64) -> (a: HeartbeatAction)
        ensures
            pong_overdue(*old(self), now_ms) ==> a == HeartbeatAction::Disconnect && *final(self)
                == *old(self),
            !pong_overdue(*old(self), now_ms) ==> a == HeartbeatAction::Ping && *final(self) == (
            HeartbeatState { awaiting_pong: true, last_pong_ms: old(self).last_pong_ms }),
    {
        let elapsed: u128 = if now_ms >= self.last_pong_ms {
            (now_ms - self.last_pong_ms) as u128
        } else {
            0
        };
        if self.awaiting_pong && now_ms >= self.last_pong_ms && elapsed > ((HEARTBEAT_INTERVAL_SECS
            + PONG_TIMEOUT_SECS) * 1000) as u128 {
            return HeartbeatAction::Disconnect;
        }
        self.awaiting_pong = true;
        HeartbeatAction::Ping
    }

    /// A frame arrived from the client at `now_ms`; returns whether the stream
    /// goes on.  A pong settles the pending ping; a close frame or the end of
    /// the client's stream ends it.
    pub fn on_client_frame(&mut self, frame: ClientFrame, now_ms: u64) -> (go_on: bool)
        ensures
            go_on == (frame != ClientFrame::Close && frame != ClientFrame::Ended),
            frame == ClientFrame::Pong ==> *final(self) == (HeartbeatState {
                awaiting_pong: false,
                last_pong_ms: now_ms,
            }),
            frame != ClientFrame::Pong ==> *final(self) == *old(self),
    {
        match frame {
            ClientFrame::Pong => {
                self.awaiting_pong = false;
                self.last_pong_ms = now_ms;
                true
            },
            ClientFrame::Close => false,
            ClientFrame::Ended => false,
            ClientFrame::Other => true,
        }
    }
}

/// The waits of a reconnection with back-off: the first is `initial`, each
/// next one twice the previous, at most `MAX_BACKOFF_MS`.
pub open spec fn backoff_delay(initial: u64, k: nat) -> int
    decreases k,
{
    if k == 0 {
        initial as int
    } else {
        let prev = backoff_delay(initial, (k - 1) as nat);
        if 2 * prev <= MAX_BACKOFF_MS {
            2 * prev
        } else {
            MAX_BACKOFF_MS as int
        }
    }
}

/// The doubling of a wait fits in `u64`.
pub open spec fn backoff_computable(max_retries: u32, initial_delay_ms: u64) -> bool {
    max_retries == 0 || initial_delay_ms <= u64::MAX / 2
}

/// Whether the waits of a reconnection can be computed (see
/// `backoff_computable`).
pub fn backoff_fits(max_retries: u32, initial_delay_ms: u64) -> (r: bool)
    ensures
        r == backoff_computable(max_retries, initial_delay_ms),
{
    max_retries == 0 || initial_delay_ms <= u64::MAX / 2
}

/// The plan of a reconnection with back-off.
pub struct BackoffPlan {
    /// The waits, in milliseconds, one per attempt.
    pub delays: Vec<u64>,
    /// How the reconnection ends: an error when no attempt is allowed.
    pub outcome: Result<(), String>,
}

/// Plan `max_retries` reconnection attempts starting with a wait of
/// `initial_delay_ms`; with no attempt allowed, the reconnection fails.
pub fn reconnect_with_backoff(max_retries: u32, initial_delay_ms: u64) -> (p: BackoffPlan)
    requires
        backoff_computable(max_retries, initial_delay_ms),
    ensures
        p.delays@.len() == max_retries,
        forall|k: int| 0 <= k < max_retries ==> p.delays@[k] == backoff_delay(initial_delay_ms, k as nat),
        p.outcome is Err <==> max_retries == 0,
        p.outcome matches Err(e) ==> e@ == "Max retries exceeded"@,
{
    let mut delays: Vec<u64> = Vec::new();
    let mut retries: u32 = 0;
    let mut delay: u64 = initial_delay_ms;
    while retries < max_retries
        invariant
            backoff_computable(max_retries, initial_delay_ms),
            0 <= retries <= max_retries,
            delays@.len() == retries,
            delay == backoff_delay(initial_delay_ms, retries as nat),
            retries > 0 ==> delay <= MAX_BACKOFF_MS,
            forall|k: int| 0 <= k < retries ==> delays@[k] == backoff_delay(initial_delay_ms, k as nat),
        decreases max_retries - retries,
    {
        delays.push(delay);
        retries = retries + 1;
        delay = if delay * 2 <= MAX_BACKOFF_MS { delay * 2 } else { MAX_BACKOFF_MS };
    }
    let outcome = if max_retries == 0 {
        Err("Max retries exceeded".to_owned())
    } else {
        Ok(())
    };
    BackoffPlan { delays, outcome }
}

/// After the first attempt, no wait exceeds `MAX_BACKOFF_MS`, and the waits
/// never shrink once they are below it.
pub proof fn law_backoff_bounded(initial: u64, k: nat)
    ensures
        k >= 1 ==> backoff_delay(initial, k) <= MAX_BACKOFF_MS,
        k >= 1 && backoff_delay(initial, k) < MAX_BACKOFF_MS ==> backoff_delay(initial, k) == 2
            * backoff_delay(initial, (k - 1) as nat),
        backoff_delay(initial, k) >= 0,
    decreases k,
{
    if k >= 1 {
        law_backoff_bounded(initial, (k - 1) as nat);
    }
}

} // verus!
