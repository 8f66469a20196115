//! The backend's records: vaults, their events and audit trail, search queries,
//! reports, templates and notification settings.
//!
//! Times are UTC instants: seconds since the UNIX epoch and the nanoseconds
//! within that second.  Event data and audit details are JSON text.
use vstd::prelude::*;

verus! {

/// A UTC instant: whole seconds since 1970-01-01T00:00:00Z, and the
/// nanoseconds within the second (1,000,000,000 and above mark a leap second).
#[derive(Clone, Copy, Debug, PartialEq, Eq, Structural)]
pub struct Timestamp {
    pub secs: i64,
    pub nanos: u32,
}

/// `a` is at or before `b`.
pub open spec fn ts_le(a: Timestamp, b: Timestamp) -> bool {
    a.secs < b.secs || (a.secs == b.secs && a.nanos <= b.nanos)
}

impl Timestamp {
    /// Whether this instant is at or before `other`.
    pub fn at_or_before(&self, other: &Timestamp) -> (r: bool)
        ensures
            r == ts_le(*self, *other),
    {
        self.secs < other.secs || (self.secs == other.secs && self.nanos <= other.nanos)
    }
}

#[derive(Clone, Copy, Debug, PartialEq, Eq, Structural)]
pub enum VaultStatus {
    Active,
    Paused,
    Expired,
    Released,
}

#[derive(Clone, Debug)]
pub struct Vault {
    pub id: String,
    pub owner: String,
    pub beneficiary: String,
    pub balance: i128,
    pub check_in_interval: u64,
    pub last_check_in: Timestamp,
    pub created_at: Timestamp,
    pub status: VaultStatus,
    pub ttl_remaining: Option<u64>,
}

impl Vault {
    /// An exact copy.
    pub fn duplicate(&self) -> (r: Vault)
        ensures
            r == *self,
    {
        Vault {
            id: self.id.clone(),
            owner: self.owner.clone(),
            beneficiary: self.beneficiary.clone(),
            balance: self.balance,
            check_in_interval: self.check_in_interval,
            last_check_in: self.last_check_in,
            created_at: self.created_at,
            status: self.status,
            ttl_remaining: self.ttl_remaining,
        }
    }
}

#[derive(Clone, Copy, Debug, PartialEq, Eq, Structural)]
pub enum EventType {
    Created,
    CheckIn,
    Deposit,
    Withdrawal,
    TtlUpdate,
    StatusChange,
    Released,
}

#[derive(Clone, Debug)]
pub struct VaultEvent {
    pub vault_id: String,
    pub event_type: EventType,
    pub timestamp: Timestamp,
    /// JSON text.
    pub data: String,
}

impl VaultEvent {
    pub fn duplicate(&self) -> (r: VaultEvent)
        ensures
            r == *self,
    {
        VaultEvent {
            vault_id: self.vault_id.clone(),
            event_type: self.event_type,
            timestamp: self.timestamp,
            data: self.data.clone(),
        }
    }
}

#[derive(Clone, Debug)]
pub struct AuditEntry {
    pub action: String,
    pub actor: String,
    pub timestamp: Timestamp,
    /// JSON text.
    pub details: String,
}

impl AuditEntry {
    pub fn duplicate(&self) -> (r: AuditEntry)
        ensures
            r == *self,
    {
        AuditEntry {
            action: self.action.clone(),
            actor: self.actor.clone(),
            timestamp: self.timestamp,
            details: self.details.clone(),
        }
    }
}

#[derive(Clone, Debug)]
pub struct SearchQuery {
    pub owner: Option<String>,
    pub beneficiary: Option<String>,
    pub status: Option<VaultStatus>,
    pub created_after: Option<Timestamp>,
    pub created_before: Option<Timestamp>,
    pub page: Option<u32>,
    pub limit: Option<u32>,
}

#[derive(Clone, Debug)]
pub struct SearchResult {
    pub vaults: Vec<Vault>,
    pub total: u32,
    pub page: u32,
    pub limit: u32,
}

#[derive(Clone, Debug)]
pub struct ComparisonResult {
    pub vaults: Vec<Vault>,
}

#[derive(Clone, Debug)]
pub struct ExportData {
    pub vault: Vault,
    pub history: Vec<VaultEvent>,
    pub audit_log: Vec<AuditEntry>,
}

#[derive(Clone, Debug)]
pub struct FundMovement {
    pub timestamp: Timestamp,
    pub movement_type: String,
    pub amount: i128,
    pub balance_after: i128,
}

#[derive(Clone, Debug)]
pub struct BeneficiaryChange {
    pub timestamp: Timestamp,
    pub old_beneficiary: String,
    pub new_beneficiary: String,
}

#[derive(Clone, Debug)]
pub struct TtlEvent {
    pub timestamp: Timestamp,
    pub event_type: String,
    pub ttl_remaining: Option<u64>,
}

#[derive(Clone, Debug)]
pub struct ComplianceReport {
    pub vault_id: String,
    pub owner: String,
    pub beneficiary: String,
    pub report_generated_at: Timestamp,
    pub fund_movements: Vec<FundMovement>,
    pub beneficiary_changes: Vec<BeneficiaryChange>,
    pub ttl_history: Vec<TtlEvent>,
    pub total_deposits: i128,
    pub total_withdrawals: i128,
    pub current_balance: i128,
}

#[derive(Clone, Debug)]
pub struct VaultTemplate {
    pub id: String,
    pub name: String,
    pub description: String,
    pub check_in_interval: u64,
    pub recommended_for: String,
}

#[derive(Clone, Debug)]
pub struct VaultTemplateList {
    pub templates: Vec<VaultTemplate>,
}

#[derive(Clone, Copy, Debug, PartialEq, Eq, Structural)]
pub enum Locale {
    En,
    Es,
    Fr,
    De,
}

#[derive(Clone, Copy, Debug, PartialEq, Eq, Structural)]
pub enum NotificationType {
    ExpiryWarning,
    CheckInReminder,
    VaultReleased,
    VaultPaused,
}

#[derive(Clone, Debug)]
pub struct VaultBackup {
    pub backup_id: String,
    pub vault_id: String,
    /// JSON text of the backed-up vault.
    pub data: String,
    pub created_at: Timestamp,
}

impl VaultBackup {
    pub fn duplicate(&self) -> (r: VaultBackup)
        ensures
            r == *self,
    {
        VaultBackup {
            backup_id: self.backup_id.clone(),
            vault_id: self.vault_id.clone(),
            data: self.data.clone(),
            created_at: self.created_at,
        }
    }
}

#[derive(Clone, Debug)]
pub struct VaultShare {
    pub vault_id: String,
    pub shared_with: String,
    pub permission: String,
    pub created_at: Timestamp,
}

impl VaultShare {
    pub fn duplicate(&self) -> (r: VaultShare)
        ensures
            r == *self,
    {
        VaultShare {
            vault_id: self.vault_id.clone(),
            shared_with: self.shared_with.clone(),
            permission: self.permission.clone(),
            created_at: self.created_at,
        }
    }
}

#[derive(Clone, Debug)]
pub struct VaultNotificationPreferences {
    pub owner: String,
    pub locale: Option<Locale>,
    pub email_enabled: bool,
    pub hours_before_expiry: u32,
}

impl VaultNotificationPreferences {
    pub fn duplicate(&self) -> (r: VaultNotificationPreferences)
        ensures
            r == *self,
    {
        VaultNotificationPreferences {
            owner: self.owner.clone(),
            locale: self.locale,
            email_enabled: self.email_enabled,
            hours_before_expiry: self.hours_before_expiry,
        }
    }
}

#[derive(Clone, Copy, Debug, PartialEq, Eq, Structural)]
pub enum Channel {
    Email,
    Sms,
    Push,
}

#[derive(Clone, Copy, Debug, PartialEq, Eq, Structural)]
pub enum Frequency {
    Once,
    Daily,
    Hourly,
}

#[derive(Clone, Debug)]
pub struct ReminderPreferences {
    pub vault_id: u64,
    pub channels: Vec<Channel>,
    pub hours_before_expiry: u32,
    pub frequency: Frequency,
}

#[derive(Clone, Debug)]
pub struct SetPreferencesRequest {
    pub channels: Vec<Channel>,
    pub hours_before_expiry: u32,
    pub frequency: Frequency,
}

} // verus!
