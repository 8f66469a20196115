//! Calls into the outside crates (chrono, uuid, serde_json, csv).  Each item
//! here is trusted: its contract is believed, not proved.
use vstd::prelude::*;
use crate::models::Timestamp;

verus! {

/// The current time (`chrono::Utc::now`), as its whole seconds since the
/// epoch (`timestamp`) and the nanoseconds within the second
/// (`timestamp_subsec_nanos`).  Nothing is promised of the value: it is the
/// clock's reading.
#[verifier::external_body]
pub fn now_timestamp() -> Timestamp {
    let now = chrono::Utc::now();
    Timestamp { secs: now.timestamp(), nanos: now.timestamp_subsec_nanos() }
}

/// A fresh random identifier: `uuid::Uuid::new_v4` written by its `Display`,
/// which is the 36-character hyphenated lower-case hex form with the version
/// digit `4` at position 14.  Which random value comes out is not stated.
#[verifier::external_body]
pub fn new_uuid_string() -> (s: String)
    ensures
        s@.len() == 36,
        s@[8] == '-',
        s@[13] == '-',
        s@[18] == '-',
        s@[23] == '-',
        s@[14] == '4',
{
    uuid::Uuid::new_v4().to_string()
}

/// RFC 3339 text of the instant `secs` seconds and `nanos` nanoseconds after
/// the epoch, as chrono writes it (`DateTime::from_timestamp` then
/// `to_rfc3339`); `None` when chrono refuses the pair.
pub uninterp spec fn spec_rfc3339(secs: i64, nanos: u32) -> Option<Seq<char>>;

/// The last second that chrono writes with a four-digit year
/// (9999-12-31T23:59:59Z).
pub const LAST_FOUR_DIGIT_YEAR_SECOND: i64 = 253_402_300_799;

/// An instant from 1970 to the end of year 9999 that is not a leap second.
pub open spec fn plain_instant(secs: i64, nanos: u32) -> bool {
    0 <= secs <= LAST_FOUR_DIGIT_YEAR_SECOND && nanos < 1_000_000_000
}

/// `chrono::DateTime::from_timestamp(secs, nanos)` followed by `to_rfc3339`:
/// the result is the named text `spec_rfc3339(secs, nanos)`, `None` exactly
/// when chrono refuses the pair.  chrono accepts every instant from 1970 to
/// the end of year 9999 with fewer than 10^9 nanoseconds, and writes it as
/// `YYYY-MM-DDTHH:MM:SS[.fff[fff[fff]]]+00:00` (the fraction with as many
/// digits as it needs), which `DateTime::parse_from_rfc3339` reads back as the
/// same seconds and nanoseconds.  Later years are written with a sign and more
/// digits, which RFC 3339 does not allow, so nothing is said of reading those
/// back.
#[verifier::external_body]
pub fn rfc3339(secs: i64, nanos: u32) -> (r: Option<String>)
    ensures
        r.is_some() == spec_rfc3339(secs, nanos).is_some(),
        r matches Some(s) ==> spec_rfc3339(secs, nanos) == Some(s@),
        r is None ==> !plain_instant(secs, nanos),
        r matches Some(s) ==> (plain_instant(secs, nanos) ==> spec_parse_rfc3339(s@) == Some(
            (secs, nanos),
        )),
{
    match chrono::DateTime::from_timestamp(secs, nanos) {
        Some(dt) => Some(dt.to_rfc3339()),
        None => None,
    }
}

/// The instant of an RFC 3339 text as chrono reads it, as whole seconds since
/// the epoch and nanoseconds within the second; `None` when chrono refuses
/// the text.
pub uninterp spec fn spec_parse_rfc3339(text: Seq<char>) -> Option<(i64, u32)>;

/// `chrono::DateTime::parse_from_rfc3339` followed by `timestamp` and
/// `timestamp_subsec_nanos` (the instant, whatever the offset written): the
/// result is the named value `spec_parse_rfc3339(text)`.
#[verifier::external_body]
pub fn parse_rfc3339(text: &str) -> (r: Option<(i64, u32)>)
    ensures
        r == spec_parse_rfc3339(text@),
{
    match chrono::DateTime::parse_from_rfc3339(text) {
        Ok(dt) => Some((dt.timestamp(), dt.timestamp_subsec_nanos())),
        Err(_) => None,
    }
}

/// The calendar date (`%Y-%m-%d`) of a UTC timestamp as chrono writes it;
/// `None` when outside chrono's range.
pub uninterp spec fn spec_utc_date(ts: i64) -> Option<Seq<char>>;

/// `chrono::DateTime::from_timestamp(ts, 0)` followed by
/// `format("%Y-%m-%d")`: the result is the named text `spec_utc_date(ts)`;
/// chrono accepts every timestamp from 1970 to the end of year 9999.
#[verifier::external_body]
pub fn utc_date(ts: i64) -> (r: Option<String>)
    ensures
        r.is_some() == spec_utc_date(ts).is_some(),
        r matches Some(s) ==> spec_utc_date(ts) == Some(s@),
        r is None ==> !(0 <= ts <= LAST_FOUR_DIGIT_YEAR_SECOND),
{
    match chrono::DateTime::from_timestamp(ts, 0) {
        Some(dt) => Some(dt.format("%Y-%m-%d").to_string()),
        None => None,
    }
}

/// The text that chrono's `Display` gives a UTC instant
/// (`YYYY-MM-DD HH:MM:SS[.fraction] UTC`); `None` when chrono refuses it.
pub uninterp spec fn spec_display_utc(secs: i64, nanos: u32) -> Option<Seq<char>>;

/// `chrono::DateTime::from_timestamp(secs, nanos)` followed by `to_string`:
/// the result is the named text `spec_display_utc(secs, nanos)`; chrono
/// accepts every instant from 1970 to the end of year 9999 with fewer than
/// 10^9 nanoseconds.
#[verifier::external_body]
pub fn display_utc(secs: i64, nanos: u32) -> (r: Option<String>)
    ensures
        r.is_some() == spec_display_utc(secs, nanos).is_some(),
        r is None ==> !plain_instant(secs, nanos),
        r matches Some(s) ==> spec_display_utc(secs, nanos) == Some(s@),
{
    match chrono::DateTime::from_timestamp(secs, nanos) {
        Some(dt) => Some(dt.to_string()),
        None => None,
    }
}

/// The integer under `key` of the JSON object in `text` (serde_json's
/// `Value::get` then `as_i64`); `None` when the text is not JSON, the key is
/// absent or the value is not an integer within `i64`.
pub uninterp spec fn spec_json_i64_field(text: Seq<char>, key: Seq<char>) -> Option<i64>;

/// Parses `text` with `serde_json::from_str::<Value>` and reads `key` with
/// `Value::get` and `Value::as_i64`: the result is `spec_json_i64_field`.
#[verifier::external_body]
pub fn json_i64_field(text: &str, key: &str) -> (r: Option<i64>)
    ensures
        r == spec_json_i64_field(text@, key@),
{
    match serde_json::from_str::<serde_json::Value>(text) {
        Ok(v) => match v.get(key) {
            Some(f) => f.as_i64(),
            None => None,
        },
        Err(_) => None,
    }
}

/// The non-negative integer under `key` of the JSON object in `text`
/// (`Value::get` then `as_u64`).
pub uninterp spec fn spec_json_u64_field(text: Seq<char>, key: Seq<char>) -> Option<u64>;

/// Parses `text` with `serde_json::from_str::<Value>` and reads `key` with
/// `Value::get` and `Value::as_u64`: the result is `spec_json_u64_field`.
#[verifier::external_body]
pub fn json_u64_field(text: &str, key: &str) -> (r: Option<u64>)
    ensures
        r == spec_json_u64_field(text@, key@),
{
    match serde_json::from_str::<serde_json::Value>(text) {
        Ok(v) => match v.get(key) {
            Some(f) => f.as_u64(),
            None => None,
        },
        Err(_) => None,
    }
}

/// The string under `key` of the JSON object in `text` (`Value::get` then
/// `as_str`).
pub uninterp spec fn spec_json_str_field(text: Seq<char>, key: Seq<char>) -> Option<Seq<char>>;

/// Parses `text` with `serde_json::from_str::<Value>` and reads `key` with
/// `Value::get` and `Value::as_str`: the result is `spec_json_str_field`.
#[verifier::external_body]
pub fn json_str_field(text: &str, key: &str) -> (r: Option<String>)
    ensures
        r.is_some() == spec_json_str_field(text@, key@).is_some(),
        r matches Some(s) ==> spec_json_str_field(text@, key@) == Some(s@),
{
    match serde_json::from_str::<serde_json::Value>(text) {
        Ok(v) => match v.get(key) {
            Some(f) => match f.as_str() {
                Some(s) => Some(s.to_string()),
                None => None,
            },
            None => None,
        },
        Err(_) => None,
    }
}

/// A CSV field must be quoted when it holds a comma, a quote, a line feed or
/// a carriage return.
pub open spec fn csv_needs_quotes(f: Seq<char>) -> bool {
    exists|i: int| 0 <= i < f.len() && (f[i] == ',' || f[i] == '"' || f[i] == '\n' || f[i] == '\r')
}

/// The field's text with every quote doubled.
pub open spec fn csv_doubled(f: Seq<char>) -> Seq<char>
    decreases f.len(),
{
    if f.len() == 0 {
        Seq::empty()
    } else {
        csv_doubled(f.drop_last()) + if f.last() == '"' {
            seq!['"', '"']
        } else {
            seq![f.last()]
        }
    }
}

/// A field as written: as it is, or between quotes with its quotes doubled.
pub open spec fn csv_field(f: Seq<char>) -> Seq<char> {
    if csv_needs_quotes(f) {
        seq!['"'] + csv_doubled(f) + seq!['"']
    } else {
        f
    }
}

/// The written fields, separated by commas.
pub open spec fn csv_fields(fs: Seq<Seq<char>>) -> Seq<char>
    decreases fs.len(),
{
    if fs.len() == 0 {
        Seq::empty()
    } else if fs.len() == 1 {
        csv_field(fs[0])
    } else {
        csv_fields(fs.drop_last()) + seq![','] + csv_field(fs.last())
    }
}

/// One CSV record as the `csv` crate's default writer writes it: the fields,
/// each quoted where needed, separated by commas and ended by a line feed; a
/// record that would otherwise be empty is written as two quotes.
pub open spec fn csv_line(fs: Seq<Seq<char>>) -> Seq<char> {
    if fs.len() == 0 || (fs.len() == 1 && fs[0].len() == 0) {
        seq!['"', '"', '\n']
    } else {
        csv_fields(fs) + seq!['\n']
    }
}

/// Writes `fields` with `csv::Writer::write_record` into a fresh writer over
/// a `Vec` (`Writer::from_writer`, default settings: necessary quoting, `,`,
/// `"` doubled, `\n`) and takes the bytes back as text: the result is
/// `csv_line(fields)`.  It always succeeds: the first record sets the field
/// count, writing into a `Vec` cannot fail, and quoted UTF-8 fields stay
/// UTF-8.  The quoting is decided byte by byte, and the bytes that decide it
/// are ASCII, which no other character's UTF-8 bytes contain, so deciding it
/// character by character is the same.
#[verifier::external_body]
pub fn csv_record(fields: &Vec<String>) -> (r: Option<String>)
    ensures
        r is Some,
        r matches Some(s) ==> s@ == csv_line(fields.deep_view()),
{
    let mut writer = csv::Writer::from_writer(Vec::new());
    match writer.write_record(fields) {
        Ok(()) => {},
        Err(_) => return None,
    }
    match writer.into_inner() {
        Ok(bytes) => String::from_utf8(bytes).ok(),
        Err(_) => None,
    }
}

/// The Soroban host environment, carried through to the hashing call.
#[verifier::external_type_specification]
#[verifier::external_body]
pub struct ExEnv(soroban_sdk::Env);

/// The SHA-256 digest of `data`.
pub uninterp spec fn spec_sha256(data: Seq<u8>) -> Seq<u8>;

/// `Env::crypto().sha256` over the bytes of `data` (copied into host `Bytes`
/// with `Bytes::from_slice`): the result is the named digest
/// `spec_sha256(data)`.  The host meters the work against its budget; running
/// out of budget aborts the call, which is not stated here.
#[verifier::external_body]
pub fn sha256_digest(env: &soroban_sdk::Env, data: &[u8]) -> (r: [u8; 32])
    ensures
        r@ == spec_sha256(data@),
{
    let bytes = soroban_sdk::Bytes::from_slice(env, data);
    env.crypto().sha256(&bytes).to_array()
}

} // verus!
