//! Reminder preferences, the scheduler's notification rule, idempotency
//! freshness and the database pool settings.
use vstd::prelude::*;
use crate::models::{Channel, Frequency, ReminderPreferences, SetPreferencesRequest, Timestamp};

verus! {

/// Why a reminder-preferences request was refused.
#[derive(Clone, Copy, Debug, PartialEq, Eq, Structural)]
pub enum PreferencesError {
    EmptyChannels,
    ZeroHours,
}

/// The text shown to a client for each refusal.
pub open spec fn preferences_error_text(e: PreferencesError) -> Seq<char> {
    match e {
        PreferencesError::EmptyChannels => "channels must not be empty"@,
        PreferencesError::ZeroHours => "hours_before_expiry must be > 0"@,
    }
}

impl PreferencesError {
    pub fn message(&self) -> (s: String)
        ensures
            s@ == preferences_error_text(*self),
    {
        match self {
            PreferencesError::EmptyChannels => "channels must not be empty".to_owned(),
            PreferencesError::ZeroHours => "hours_before_expiry must be > 0".to_owned(),
        }
    }
}

/// Check a request and build the preferences it stands for: channels are
/// checked first, then the window.
pub fn prepare_preferences(vault_id: u64, body: SetPreferencesRequest) -> (r: Result<
    ReminderPreferences,
    PreferencesError,
>)
    ensures
        body.channels@.len() == 0 ==> r == Err::<ReminderPreferences, PreferencesError>(
            PreferencesError::EmptyChannels,
        ),
        body.channels@.len() > 0 && body.hours_before_expiry == 0 ==> r == Err::<
            ReminderPreferences,
            PreferencesError,
        >(PreferencesError::ZeroHours),
        body.channels@.len() > 0 && body.hours_before_expiry > 0 ==> (r matches Ok(p) && p.vault_id
            == vault_id && p.channels@ == body.channels@ && p.hours_before_expiry
            == body.hours_before_expiry && p.frequency == body.frequency),
{
    if body.channels.len() == 0 {
        return Err(PreferencesError::EmptyChannels);
    }
    if body.hours_before_expiry == 0 {
        return Err(PreferencesError::ZeroHours);
    }
    Ok(
        ReminderPreferences {
            vault_id,
            channels: body.channels,
            hours_before_expiry: body.hours_before_expiry,
            frequency: body.frequency,
        },
    )
}

/// Whether a vault with `ttl_hours` left is due a reminder under `frequency`
/// and a window of `window` hours.
pub open spec fn notify_due(frequency: Frequency, ttl_hours: int, window: int) -> bool {
    match frequency {
        Frequency::Once => ttl_hours <= window && ttl_hours > (if window > 0 {
            window - 1
        } else {
            0
        }),
        Frequency::Daily => ttl_hours <= window && ttl_hours % 24 == 0,
        Frequency::Hourly => ttl_hours <= window,
    }
}

pub fn should_notify(frequency: Frequency, ttl_hours: u32, window: u32) -> (r: bool)
    ensures
        r == notify_due(frequency, ttl_hours as int, window as int),
{
    match frequency {
        Frequency::Once => ttl_hours <= window && ttl_hours > window.saturating_sub(1),
        Frequency::Daily => ttl_hours <= window && ttl_hours % 24 == 0,
        Frequency::Hourly => ttl_hours <= window,
    }
}

/// Whatever the frequency, a reminder is due only while the vault's remaining
/// TTL is within the owner's window.
pub proof fn law_reminders_within_window(frequency: Frequency, ttl_hours: int, window: int)
    ensures
        notify_due(frequency, ttl_hours, window) ==> ttl_hours <= window,
{
}

/// When a reminder is due, with `ttl_hours` left before expiry and a window
/// of `window` hours: once, in the last hour of the window, that is exactly
/// when the time left equals a window of at least one hour; daily, at every
/// whole number of days left inside the window; hourly, at every hour inside
/// the window.
pub proof fn law_reminder_schedule(ttl_hours: u32, window: u32)
    ensures
        notify_due(Frequency::Once, ttl_hours as int, window as int) <==> (window >= 1 && ttl_hours
            == window),
        notify_due(Frequency::Daily, ttl_hours as int, window as int) <==> (ttl_hours <= window && 24
            * (ttl_hours / 24) == ttl_hours),
        notify_due(Frequency::Hourly, ttl_hours as int, window as int) <==> ttl_hours <= window,
{
    vstd::arithmetic::div_mod::lemma_fundamental_div_mod(ttl_hours as int, 24);
}

/// The channels a reminder goes out on in one scheduler pass: all of the
/// vault's channels, in their order, when it is due, and none otherwise.
pub fn reminder_channels(prefs: &ReminderPreferences, ttl_hours: u32) -> (r: Vec<Channel>)
    ensures
        notify_due(prefs.frequency, ttl_hours as int, prefs.hours_before_expiry as int) ==> r@
            == prefs.channels@,
        !notify_due(prefs.frequency, ttl_hours as int, prefs.hours_before_expiry as int) ==> r@.len()
            == 0,
{
    let mut out: Vec<Channel> = Vec::new();
    if should_notify(prefs.frequency, ttl_hours, prefs.hours_before_expiry) {
        let mut i: usize = 0;
        while i < prefs.channels.len()
            invariant
                i <= prefs.channels@.len(),
                out@ == prefs.channels@.subrange(0, i as int),
            decreases prefs.channels@.len() - i,
        {
            out.push(prefs.channels[i]);
            i = i + 1;
            assert(out@ =~= prefs.channels@.subrange(0, i as int));
        }
        assert(out@ =~= prefs.channels@);
    }
    out
}

/// The nanoseconds from `from` to `to` (negative when `to` comes first).
pub open spec fn elapsed_nanos(from: Timestamp, to: Timestamp) -> int {
    (to.secs - from.secs) * 1_000_000_000 + to.nanos - from.nanos
}

/// Whether no more than `limit_secs` whole seconds have passed from `from` to
/// `to`: the elapsed time is counted in whole seconds, its fraction dropped,
/// and compared with the limit.
pub open spec fn within_whole_seconds(from: Timestamp, to: Timestamp, limit_secs: int) -> bool {
    elapsed_nanos(from, to) < (limit_secs + 1) * 1_000_000_000
}

/// Whether at most `limit_secs` whole seconds separate `from` and `to`.
fn whole_seconds_within(from: Timestamp, to: Timestamp, limit_secs: i64) -> (r: bool)
    requires
        0 <= limit_secs <= 1_000_000_000_000,
    ensures
        r == within_whole_seconds(from, to, limit_secs as int),
{
    let ds: i128 = to.secs as i128 - from.secs as i128;
    assert(-0x1_0000_0000_0000_0000 <= ds <= 0x1_0000_0000_0000_0000);
    assert(-0x1_0000_0000_0000_0000 * 1_000_000_000 <= ds * 1_000_000_000 <= 0x1_0000_0000_0000_0000
        * 1_000_000_000) by (nonlinear_arith)
        requires
            -0x1_0000_0000_0000_0000 <= ds <= 0x1_0000_0000_0000_0000,
    ;
    let elapsed: i128 = ds * 1_000_000_000 + to.nanos as i128 - from.nanos as i128;
    let bound: i128 = (limit_secs as i128 + 1) * 1_000_000_000;
    elapsed < bound
}

/// How long a stored idempotent response stays valid, in seconds.
pub const IDEMPOTENCY_WINDOW_SECS: i64 = 86_400;

/// A response stored at `created_at` may still be replayed at `now`: it is
/// dropped once more than a day of whole seconds has passed.
pub fn idempotency_fresh(created_at: Timestamp, now: Timestamp) -> (r: bool)
    ensures
        r == within_whole_seconds(created_at, now, IDEMPOTENCY_WINDOW_SECS as int),
{
    whole_seconds_within(created_at, now, IDEMPOTENCY_WINDOW_SECS)
}

/// How long an unsubscribe token stays valid: 30 days, in seconds.
pub const UNSUBSCRIBE_TOKEN_LIFETIME_SECS: i64 = 2_592_000;

/// An unsubscribe token issued at `created_at` may still be used at `now`: it
/// expires once more than 30 days of whole seconds have passed.
pub fn unsubscribe_token_fresh(created_at: Timestamp, now: Timestamp) -> (r: bool)
    ensures
        r == within_whole_seconds(created_at, now, UNSUBSCRIBE_TOKEN_LIFETIME_SECS as int),
{
    whole_seconds_within(created_at, now, UNSUBSCRIBE_TOKEN_LIFETIME_SECS)
}

pub const DEFAULT_POOL_MIN: u32 = 5;

pub const DEFAULT_POOL_MAX: u32 = 20;

pub const DEFAULT_POOL_TIMEOUT_SECS: u32 = 30;

/// Connection-pool settings of the database.
#[derive(Clone, Copy, Debug, PartialEq, Eq, Structural)]
pub struct PoolConfig {
    pub min: u32,
    pub max: u32,
    pub timeout_secs: u32,
}

impl Default for PoolConfig {
    fn default() -> (r: Self)
        ensures
            r.min == DEFAULT_POOL_MIN,
            r.max == DEFAULT_POOL_MAX,
            r.timeout_secs == DEFAULT_POOL_TIMEOUT_SECS,
    {
        PoolConfig { min: DEFAULT_POOL_MIN, max: DEFAULT_POOL_MAX, timeout_secs: DEFAULT_POOL_TIMEOUT_SECS }
    }
}

/// A decimal digit character.
pub open spec fn is_digit_char(c: char) -> bool {
    '0' <= c && c <= '9'
}

/// The value of a run of decimal digits, most significant first.
pub open spec fn digits_value(s: Seq<char>) -> int
    decreases s.len(),
{
    if s.len() == 0 {
        0
    } else {
        digits_value(s.drop_last()) * 10 + (s.last() as int - '0' as int)
    }
}

/// The digits of a numeral: the text after one optional leading '+'.
pub open spec fn numeral_digits(s: Seq<char>) -> Seq<char> {
    if s.len() > 0 && s[0] == '+' {
        s.drop_first()
    } else {
        s
    }
}

/// What a setting's text reads as: a `u32` written as an optional '+' and one
/// or more decimal digits, or nothing.
pub open spec fn setting_value(s: Seq<char>) -> Option<u32> {
    let d = numeral_digits(s);
    if d.len() > 0 && (forall|i: int| 0 <= i < d.len() ==> is_digit_char(#[trigger] d[i]))
        && digits_value(d) <= u32::MAX {
        Some(digits_value(d) as u32)
    } else {
        None
    }
}

proof fn lemma_digits_value_grows(s: Seq<char>, k: int)
    requires
        0 <= k <= s.len(),
        forall|i: int| 0 <= i < s.len() ==> is_digit_char(#[trigger] s[i]),
    ensures
        0 <= digits_value(s.subrange(0, k)) <= digits_value(s),
    decreases s.len(),
{
    if s.len() == 0 {
        assert(s.subrange(0, k) =~= s);
    } else if k == s.len() {
        assert(s.subrange(0, k) =~= s);
        lemma_digits_value_grows(s.drop_last(), 0);
        assert(s.drop_last().subrange(0, 0) =~= s.subrange(0, 0));
    } else {
        lemma_digits_value_grows(s.drop_last(), k);
        assert(s.drop_last().subrange(0, k) =~= s.subrange(0, k));
        lemma_digits_value_grows(s.drop_last(), 0);
        assert(s.drop_last().subrange(0, 0) =~= s.subrange(0, 0));
        assert(digits_value(s.subrange(0, 0)) == 0) by {
            assert(s.subrange(0, 0).len() == 0);
        }
    }
}

/// Read a setting written as a decimal `u32`.
pub fn parse_setting(text: &str) -> (r: Option<u32>)
    ensures
        r == setting_value(text@),
{
    let n = text.unicode_len();
    let ghost s = text@;
    let mut start: usize = 0;
    if n > 0 && text.get_char(0) == '+' {
        start = 1;
    }
    let ghost d = numeral_digits(s);
    assert(d =~= s.subrange(start as int, n as int));
    if start == n {
        return None;
    }
    let mut value: u64 = 0;
    let mut i: usize = start;
    while i < n
        invariant
            n == s.len(),
            s == text@,
            start <= i <= n,
            d == s.subrange(start as int, n as int),
            d == numeral_digits(s),
            forall|j: int| 0 <= j < i - start ==> is_digit_char(#[trigger] d[j]),
            value == digits_value(d.subrange(0, i - start)),
            value <= u32::MAX,
        decreases n - i,
    {
        let c = text.get_char(i);
        if !('0' <= c && c <= '9') {
            assert(!is_digit_char(d[i - start]));
            return None;
        }
        let digit: u64 = (c as u32 - '0' as u32) as u64;
        let next: u64 = value * 10 + digit;
        assert(d.subrange(0, i + 1 - start).drop_last() =~= d.subrange(0, i - start));
        assert(d.subrange(0, i + 1 - start).last() == c);
        i = i + 1;
        if next > 0xFFFF_FFFF {
            assert(digits_value(d.subrange(0, i - start)) == next);
            proof {
                if forall|j: int| 0 <= j < d.len() ==> is_digit_char(#[trigger] d[j]) {
                    lemma_digits_value_grows(d, i - start);
                }
            }
            return None;
        }
        value = next;
    }
    assert(d.subrange(0, n - start) =~= d);
    Some(value as u32)
}

impl PoolConfig {
    /// Settings read from their texts, each falling back to its default when
    /// missing or not a decimal `u32`.
    pub fn from_settings(min: Option<&str>, max: Option<&str>, timeout_secs: Option<&str>) -> (r:
        PoolConfig)
        ensures
            r.min == setting_or(min, DEFAULT_POOL_MIN),
            r.max == setting_or(max, DEFAULT_POOL_MAX),
            r.timeout_secs == setting_or(timeout_secs, DEFAULT_POOL_TIMEOUT_SECS),
    {
        PoolConfig {
            min: read_setting(min, DEFAULT_POOL_MIN),
            max: read_setting(max, DEFAULT_POOL_MAX),
            timeout_secs: read_setting(timeout_secs, DEFAULT_POOL_TIMEOUT_SECS),
        }
    }
}

/// A setting's value, or `fallback` when it is missing or unreadable.
pub open spec fn setting_or(text: Option<&str>, fallback: u32) -> u32 {
    match text {
        Some(t) => match setting_value(t@) {
            Some(v) => v,
            None => fallback,
        },
        None => fallback,
    }
}

fn read_setting(text: Option<&str>, fallback: u32) -> (r: u32)
    ensures
        r == setting_or(text, fallback),
{
    match text {
        Some(t) => match parse_setting(t) {
            Some(v) => v,
            None => fallback,
        },
        None => fallback,
    }
}

} // verus!
