//! TTL insurance policies and owner activity, and how they are laid out in
//! database rows: counts as signed 64-bit integers, the flag as 0 or 1, times
//! as RFC 3339 text.
use vstd::prelude::*;
use crate::models::Timestamp;
use crate::outside::{parse_rfc3339, plain_instant, rfc3339, spec_parse_rfc3339, spec_rfc3339};

verus! {

/// A vault's TTL insurance: when its owner has been inactive for
/// `inactivity_threshold_seconds`, the vault's TTL is extended by
/// `extension_seconds`.
#[derive(Clone, Copy, Debug, PartialEq, Eq, Structural)]
pub struct TtlInsurancePolicy {
    pub vault_id: u64,
    pub extension_seconds: u64,
    pub inactivity_threshold_seconds: u64,
    pub enabled: bool,
    pub purchased_at: Timestamp,
    pub last_extended_at: Option<Timestamp>,
}

/// A stored insurance policy, column by column.
#[derive(Clone, Debug)]
pub struct InsuranceRow {
    pub vault_id: i64,
    pub extension_seconds: i64,
    pub inactivity_threshold_seconds: i64,
    pub enabled: i64,
    pub purchased_at: String,
    pub last_extended_at: Option<String>,
}

/// Why a stored row could not be read back.
#[derive(Clone, Copy, Debug, PartialEq, Eq, Structural)]
pub enum RowError {
    /// A time column does not hold RFC 3339 text.
    InvalidTimestamp,
}

/// The stored form of an optional time.
pub open spec fn optional_time_text(t: Option<Timestamp>) -> Option<Option<Seq<char>>> {
    match t {
        None => Some(None),
        Some(ts) => match spec_rfc3339(ts.secs, ts.nanos) {
            Some(s) => Some(Some(s)),
            None => None,
        },
    }
}

/// Whether `row` stores `p`; its times must be ones chrono can write.
pub open spec fn row_stores(row: InsuranceRow, p: TtlInsurancePolicy) -> bool {
    &&& row.vault_id == p.vault_id as i64
    &&& row.extension_seconds == p.extension_seconds as i64
    &&& row.inactivity_threshold_seconds == p.inactivity_threshold_seconds as i64
    &&& row.enabled == (if p.enabled { 1i64 } else { 0i64 })
    &&& spec_rfc3339(p.purchased_at.secs, p.purchased_at.nanos) == Some(row.purchased_at@)
    &&& optional_time_text(p.last_extended_at) == Some(
        match row.last_extended_at {
            Some(s) => Some(s@),
            None => None,
        },
    )
}

/// A time of the row, as chrono reads it.
pub open spec fn read_time(text: Seq<char>) -> Result<Timestamp, RowError> {
    match spec_parse_rfc3339(text) {
        Some((secs, nanos)) => Ok(Timestamp { secs, nanos }),
        None => Err(RowError::InvalidTimestamp),
    }
}

/// The policy that a row holds, or why it holds none.
pub open spec fn row_policy(row: InsuranceRow) -> Result<TtlInsurancePolicy, RowError> {
    match read_time(row.purchased_at@) {
        Err(e) => Err(e),
        Ok(purchased_at) => match row.last_extended_at {
            None => Ok(
                TtlInsurancePolicy {
                    vault_id: row.vault_id as u64,
                    extension_seconds: row.extension_seconds as u64,
                    inactivity_threshold_seconds: row.inactivity_threshold_seconds as u64,
                    enabled: row.enabled != 0,
                    purchased_at,
                    last_extended_at: None,
                },
            ),
            Some(s) => match read_time(s@) {
                Err(e) => Err(e),
                Ok(t) => Ok(
                    TtlInsurancePolicy {
                        vault_id: row.vault_id as u64,
                        extension_seconds: row.extension_seconds as u64,
                        inactivity_threshold_seconds: row.inactivity_threshold_seconds as u64,
                        enabled: row.enabled != 0,
                        purchased_at,
                        last_extended_at: Some(t),
                    },
                ),
            },
        },
    }
}

/// A time that is written and read back unchanged: from 1970 to the end of
/// year 9999, and not a leap second.
pub open spec fn storable_time(t: Timestamp) -> bool {
    plain_instant(t.secs, t.nanos)
}

/// The stored form of a time.
pub fn time_text(t: Timestamp) -> (r: Option<String>)
    ensures
        r.is_some() == spec_rfc3339(t.secs, t.nanos).is_some(),
        r matches Some(s) ==> spec_rfc3339(t.secs, t.nanos) == Some(s@),
        storable_time(t) ==> (r matches Some(s) && read_time(s@) == Ok::<Timestamp, RowError>(t)),
{
    rfc3339(t.secs, t.nanos)
}

/// Read a stored time.
pub fn decode_time(text: &str) -> (r: Result<Timestamp, RowError>)
    ensures
        r == read_time(text@),
{
    match parse_rfc3339(text) {
        Some((secs, nanos)) => Ok(Timestamp { secs, nanos }),
        None => Err(RowError::InvalidTimestamp),
    }
}

/// The row that stores `policy`, or `None` when one of its times is outside
/// chrono's range.
pub fn insurance_row(policy: &TtlInsurancePolicy) -> (r: Option<InsuranceRow>)
    ensures
        r.is_some() == (spec_rfc3339(policy.purchased_at.secs, policy.purchased_at.nanos).is_some() && optional_time_text(
            policy.last_extended_at,
        ).is_some()),
        r matches Some(row) ==> row_stores(row, *policy),
        storable_time(policy.purchased_at) && (policy.last_extended_at matches Some(t)
            ==> storable_time(t)) ==> (r matches Some(row) && row_policy(row) == Ok::<
            TtlInsurancePolicy,
            RowError,
        >(*policy)),
{
    let purchased_at = match time_text(policy.purchased_at) {
        Some(s) => s,
        None => {
            return None;
        },
    };
    let last_extended_at = match policy.last_extended_at {
        None => None,
        Some(t) => match time_text(t) {
            Some(s) => Some(s),
            None => {
                return None;
            },
        },
    };
    let enabled: i64 = if policy.enabled { 1 } else { 0 };
    let ghost (v, e, h) = (policy.vault_id, policy.extension_seconds, policy.inactivity_threshold_seconds);
    assert((v as i64) as u64 == v) by (bit_vector);
    assert((e as i64) as u64 == e) by (bit_vector);
    assert((h as i64) as u64 == h) by (bit_vector);
    Some(
        InsuranceRow {
            vault_id: policy.vault_id as i64,
            extension_seconds: policy.extension_seconds as i64,
            inactivity_threshold_seconds: policy.inactivity_threshold_seconds as i64,
            enabled,
            purchased_at,
            last_extended_at,
        },
    )
}

/// The policy that `row` stores.
pub fn policy_from_row(row: &InsuranceRow) -> (r: Result<TtlInsurancePolicy, RowError>)
    ensures
        r == row_policy(*row),
{
    let purchased_at = match decode_time(row.purchased_at.as_str()) {
        Ok(t) => t,
        Err(e) => {
            return Err(e);
        },
    };
    let last_extended_at = match &row.last_extended_at {
        None => None,
        Some(s) => match decode_time(s.as_str()) {
            Ok(t) => Some(t),
            Err(e) => {
                return Err(e);
            },
        },
    };
    Ok(
        TtlInsurancePolicy {
            vault_id: row.vault_id as u64,
            extension_seconds: row.extension_seconds as u64,
            inactivity_threshold_seconds: row.inactivity_threshold_seconds as u64,
            enabled: row.enabled != 0,
            purchased_at,
            last_extended_at,
        },
    )
}

} // verus!
