//! The backend's in-memory stores and the queries over them: vault search with
//! pagination, vault history and audit log, backups, shares and notification
//! preferences.
use vstd::prelude::*;
use crate::models::{
    ts_le, AuditEntry, SearchQuery, SearchResult, Vault, VaultBackup, VaultEvent,
    VaultNotificationPreferences, VaultShare,
};
use crate::outside::{json_str_field, spec_json_str_field};
use crate::str_map::StrMap;

verus! {

/// Vaults by key.
pub struct VaultStore {
    pub vaults: StrMap<Vault>,
}

/// Vault events, oldest first.
pub struct EventStore {
    pub events: Vec<VaultEvent>,
}

/// Audit entries, oldest first.
pub struct AuditStore {
    pub entries: Vec<AuditEntry>,
}

/// Backups by backup id.
pub struct BackupStore {
    pub backups: StrMap<VaultBackup>,
}

/// Vault shares, oldest first.
pub struct ShareStore {
    pub shares: Vec<VaultShare>,
}

/// Notification preferences by owner.
pub struct NotificationStore {
    pub prefs: StrMap<VaultNotificationPreferences>,
}

pub fn create_vault_store() -> (s: VaultStore)
    ensures
        s.vaults.wf(),
        s.vaults.entries@.len() == 0,
{
    VaultStore { vaults: StrMap::new() }
}

pub fn create_event_store() -> (s: EventStore)
    ensures
        s.events@.len() == 0,
{
    EventStore { events: Vec::new() }
}

pub fn create_audit_store() -> (s: AuditStore)
    ensures
        s.entries@.len() == 0,
{
    AuditStore { entries: Vec::new() }
}

pub fn create_backup_store() -> (s: BackupStore)
    ensures
        s.backups.wf(),
        s.backups@ == Map::<Seq<char>, VaultBackup>::empty(),
{
    BackupStore { backups: StrMap::new() }
}

pub fn create_share_store() -> (s: ShareStore)
    ensures
        s.shares@.len() == 0,
{
    ShareStore { shares: Vec::new() }
}

pub fn create_notification_store() -> (s: NotificationStore)
    ensures
        s.prefs.wf(),
        s.prefs@ == Map::<Seq<char>, VaultNotificationPreferences>::empty(),
{
    NotificationStore { prefs: StrMap::new() }
}

impl VaultStore {
    /// Store `vault` under `key`, replacing any vault stored there.
    pub fn insert(&mut self, key: String, vault: Vault)
        requires
            old(self).vaults.wf(),
        ensures
            final(self).vaults.wf(),
            final(self).vaults@ == old(self).vaults@.insert(key@, vault),
    {
        self.vaults.insert(key, vault);
    }
}

// ── search ──────────────────────────────────────────────────────────────────

/// Whether a vault satisfies every filter that the query sets.
pub open spec fn vault_matches(v: Vault, q: SearchQuery) -> bool {
    &&& (q.owner matches Some(o) ==> v.owner@ == o@)
    &&& (q.beneficiary matches Some(b) ==> v.beneficiary@ == b@)
    &&& (q.status matches Some(s) ==> v.status == s)
    &&& (q.created_after matches Some(a) ==> ts_le(a, v.created_at))
    &&& (q.created_before matches Some(b) ==> ts_le(v.created_at, b))
}

/// The matching vaults among the first `n` entries, in store order.
pub open spec fn matching_prefix(entries: Seq<(String, Vault)>, q: SearchQuery, n: int) -> Seq<Vault>
    decreases n,
{
    if n <= 0 {
        Seq::empty()
    } else if vault_matches(entries[n - 1].1, q) {
        matching_prefix(entries, q, n - 1).push(entries[n - 1].1)
    } else {
        matching_prefix(entries, q, n - 1)
    }
}

pub open spec fn matching_vaults(entries: Seq<(String, Vault)>, q: SearchQuery) -> Seq<Vault> {
    matching_prefix(entries, q, entries.len() as int)
}

/// The page of `s` that starts at `offset` and holds at most `limit` items.
pub open spec fn page_of<T>(s: Seq<T>, offset: int, limit: int) -> Seq<T> {
    let start = if offset <= s.len() { offset } else { s.len() as int };
    let end = if offset + limit <= s.len() { offset + limit } else { s.len() as int };
    s.subrange(start, end)
}

pub open spec fn query_page(q: SearchQuery) -> u32 {
    match q.page {
        Some(p) => p,
        None => 1,
    }
}

pub open spec fn query_limit(q: SearchQuery) -> u32 {
    match q.limit {
        Some(l) => l,
        None => 10,
    }
}

/// The position of the first result of the query's page.
pub open spec fn query_offset(q: SearchQuery) -> int {
    (query_page(q) - 1) * query_limit(q)
}

/// The page arithmetic of a query stays within `u32`: pages count from one.
pub open spec fn paging_valid(q: SearchQuery) -> bool {
    query_page(q) >= 1 && query_offset(q) <= u32::MAX
}

proof fn lemma_page_push<T>(s: Seq<T>, x: T, offset: int, limit: int)
    requires
        0 <= offset,
        0 <= limit,
    ensures
        page_of(s.push(x), offset, limit) == if offset <= s.len() < offset + limit {
            page_of(s, offset, limit).push(x)
        } else {
            page_of(s, offset, limit)
        },
{
    let t = s.push(x);
    if offset <= s.len() < offset + limit {
        assert(page_of(t, offset, limit) =~= page_of(s, offset, limit).push(x));
    } else {
        assert(page_of(t, offset, limit) =~= page_of(s, offset, limit));
    }
}

fn matches_query(v: &Vault, query: &SearchQuery) -> (r: bool)
    ensures
        r == vault_matches(*v, *query),
{
    if let Some(owner) = &query.owner {
        if v.owner != *owner {
            return false;
        }
    }
    if let Some(beneficiary) = &query.beneficiary {
        if v.beneficiary != *beneficiary {
            return false;
        }
    }
    if let Some(status) = query.status {
        if v.status != status {
            return false;
        }
    }
    if let Some(after) = query.created_after {
        if !after.at_or_before(&v.created_at) {
            return false;
        }
    }
    if let Some(before) = query.created_before {
        if !v.created_at.at_or_before(&before) {
            return false;
        }
    }
    true
}

/// The vaults that match `query`, one page of them: page `page` (default 1)
/// of `limit` (default 10) vaults, with the total number of matches.
pub fn search_vaults(store: &VaultStore, query: &SearchQuery) -> (r: SearchResult)
    requires
        store.vaults.wf(),
        paging_valid(*query),
    ensures
        r.vaults@ == page_of(
            matching_vaults(store.vaults.entries@, *query),
            query_offset(*query),
            query_limit(*query) as int,
        ),
        r.total == matching_vaults(store.vaults.entries@, *query).len() as u32,
        r.page == query_page(*query),
        r.limit == query_limit(*query),
{
    let ghost entries = store.vaults.entries@;
    let page = match query.page {
        Some(p) => p,
        None => 1,
    };
    let limit = match query.limit {
        Some(l) => l,
        None => 10,
    };
    let offset = ((page - 1) * limit) as usize;
    let n = store.vaults.entries.len();
    let mut count: usize = 0;
    let mut vaults: Vec<Vault> = Vec::new();
    let mut i: usize = 0;
    while i < n
        invariant
            n == entries.len(),
            entries == store.vaults.entries@,
            0 <= i <= n,
            offset == query_offset(*query),
            limit == query_limit(*query),
            count == matching_prefix(entries, *query, i as int).len(),
            count <= i,
            vaults@ == page_of(matching_prefix(entries, *query, i as int), offset as int, limit as int),
        decreases n - i,
    {
        let v = &store.vaults.entries[i].1;
        if matches_query(v, query) {
            proof {
                lemma_page_push(matching_prefix(entries, *query, i as int), *v, offset as int, limit as int);
            }
            if count >= offset && count - offset < limit as usize {
                vaults.push(v.duplicate());
            }
            count = count + 1;
        }
        i = i + 1;
    }
    SearchResult { vaults, total: count as u32, page, limit }
}

/// Every vault that a search returns matches the query, a page never holds
/// more than the limit, and the total counts every matching vault.
pub proof fn law_search_results_match(entries: Seq<(String, Vault)>, q: SearchQuery, offset: int, limit: int)
    requires
        0 <= offset,
        0 <= limit,
    ensures
        page_of(matching_vaults(entries, q), offset, limit).len() <= limit,
        forall|k: int|
            0 <= k < page_of(matching_vaults(entries, q), offset, limit).len() ==> vault_matches(
                #[trigger] page_of(matching_vaults(entries, q), offset, limit)[k],
                q,
            ),
{
    lemma_matching_prefix(entries, q, entries.len() as int);
}

proof fn lemma_matching_prefix(entries: Seq<(String, Vault)>, q: SearchQuery, n: int)
    requires
        0 <= n <= entries.len(),
    ensures
        matching_prefix(entries, q, n).len() <= n,
        forall|k: int|
            0 <= k < matching_prefix(entries, q, n).len() ==> vault_matches(
                #[trigger] matching_prefix(entries, q, n)[k],
                q,
            ),
    decreases n,
{
    if n > 0 {
        lemma_matching_prefix(entries, q, n - 1);
    }
}

/// Pages 1 to `k` of `s`, `limit` items each, one after the other.
pub open spec fn pages_through<T>(s: Seq<T>, limit: int, k: int) -> Seq<T>
    decreases k,
{
    if k <= 0 {
        Seq::empty()
    } else {
        pages_through(s, limit, k - 1) + page_of(s, (k - 1) * limit, limit)
    }
}

proof fn lemma_pages_through<T>(s: Seq<T>, limit: int, k: int)
    requires
        limit >= 1,
        k >= 0,
    ensures
        pages_through(s, limit, k) == s.subrange(0, if k * limit <= s.len() { k * limit } else { s.len() as int }),
    decreases k,
{
    if k > 0 {
        lemma_pages_through(s, limit, k - 1);
        assert((k - 1) * limit + limit == k * limit) by (nonlinear_arith);
        assert((k - 1) * limit >= 0) by (nonlinear_arith)
            requires
                k >= 1,
                limit >= 1,
        ;
        let prev_end = if (k - 1) * limit <= s.len() { (k - 1) * limit } else { s.len() as int };
        let end = if k * limit <= s.len() { k * limit } else { s.len() as int };
        assert(page_of(s, (k - 1) * limit, limit) == s.subrange(prev_end, end));
        assert(pages_through(s, limit, k) == pages_through(s, limit, k - 1) + page_of(s, (k - 1) * limit, limit));
        assert(s.subrange(0, prev_end) + s.subrange(prev_end, end) =~= s.subrange(0, end));
    } else {
        assert(s.subrange(0, 0) =~= Seq::<T>::empty());
    }
}

/// Paging through the matching vaults with any page size, the pages from the
/// first up to the last one with results hold every matching vault exactly
/// once, in order, and the page after them is empty.
pub proof fn law_pages_cover_matches(entries: Seq<(String, Vault)>, q: SearchQuery, limit: int)
    requires
        limit >= 1,
    ensures
        ({
            let all = matching_vaults(entries, q);
            let k = (all.len() + limit - 1) / limit;
            &&& pages_through(all, limit, k) == all
            &&& page_of(all, k * limit, limit).len() == 0
        }),
{
    let all = matching_vaults(entries, q);
    let len = all.len() as int;
    let k = (len + limit - 1) / limit;
    vstd::arithmetic::div_mod::lemma_fundamental_div_mod(len + limit - 1, limit);
    let r = (len + limit - 1) % limit;
    assert(0 <= r < limit);
    assert(limit * k + r == len + limit - 1);
    assert(k * limit >= len) by (nonlinear_arith)
        requires
            limit * k + r == len + limit - 1,
            r < limit,
    ;
    assert(k >= 0) by (nonlinear_arith)
        requires
            limit * k + r == len + limit - 1,
            0 <= r < limit,
            len >= 0,
            limit >= 1,
    ;
    lemma_pages_through(all, limit, k);
    assert(all.subrange(0, len) =~= all);
}

// ── history, audit log, shares ──────────────────────────────────────────────

/// The events of `vault_id` among the first `n`, oldest first.
pub open spec fn history_prefix(events: Seq<VaultEvent>, vault_id: Seq<char>, n: int) -> Seq<
    VaultEvent,
>
    decreases n,
{
    if n <= 0 {
        Seq::empty()
    } else if events[n - 1].vault_id@ == vault_id {
        history_prefix(events, vault_id, n - 1).push(events[n - 1])
    } else {
        history_prefix(events, vault_id, n - 1)
    }
}

/// The events recorded for `vault_id`, oldest first.
pub fn get_vault_history(event_store: &EventStore, vault_id: &str) -> (r: Vec<VaultEvent>)
    ensures
        r@ == history_prefix(event_store.events@, vault_id@, event_store.events@.len() as int),
{
    let id = vault_id.to_owned();
    let n = event_store.events.len();
    let mut out: Vec<VaultEvent> = Vec::new();
    let mut i: usize = 0;
    while i < n
        invariant
            n == event_store.events@.len(),
            id@ == vault_id@,
            0 <= i <= n,
            out@ == history_prefix(event_store.events@, vault_id@, i as int),
        decreases n - i,
    {
        if event_store.events[i].vault_id == id {
            out.push(event_store.events[i].duplicate());
        }
        i = i + 1;
    }
    out
}

/// Whether an audit entry's details name `vault_id` as their "vault_id".
pub open spec fn audit_concerns(a: AuditEntry, vault_id: Seq<char>) -> bool {
    spec_json_str_field(a.details@, "vault_id"@) == Some(vault_id)
}

/// The audit entries among the first `n` that concern `vault_id`.
pub open spec fn audit_prefix(entries: Seq<AuditEntry>, vault_id: Seq<char>, n: int) -> Seq<AuditEntry>
    decreases n,
{
    if n <= 0 {
        Seq::empty()
    } else if audit_concerns(entries[n - 1], vault_id) {
        audit_prefix(entries, vault_id, n - 1).push(entries[n - 1])
    } else {
        audit_prefix(entries, vault_id, n - 1)
    }
}

/// The audit entries whose details name `vault_id`, oldest first.
pub fn get_vault_audit_log(audit_store: &AuditStore, vault_id: &str) -> (r: Vec<AuditEntry>)
    ensures
        r@ == audit_prefix(audit_store.entries@, vault_id@, audit_store.entries@.len() as int),
{
    let id = vault_id.to_owned();
    let n = audit_store.entries.len();
    let mut out: Vec<AuditEntry> = Vec::new();
    let mut i: usize = 0;
    while i < n
        invariant
            n == audit_store.entries@.len(),
            id@ == vault_id@,
            0 <= i <= n,
            out@ == audit_prefix(audit_store.entries@, vault_id@, i as int),
        decreases n - i,
    {
        let entry = &audit_store.entries[i];
        let named = json_str_field(entry.details.as_str(), "vault_id");
        let keep = match named {
            Some(v) => v == id,
            None => false,
        };
        if keep {
            out.push(entry.duplicate());
        }
        i = i + 1;
    }
    out
}

/// Record a share.
pub fn add_vault_share(share_store: &mut ShareStore, share: VaultShare)
    ensures
        final(share_store).shares@ == old(share_store).shares@.push(share),
{
    share_store.shares.push(share);
}

/// The shares of `vault_id` among the first `n`.
pub open spec fn shares_prefix(shares: Seq<VaultShare>, vault_id: Seq<char>, n: int) -> Seq<VaultShare>
    decreases n,
{
    if n <= 0 {
        Seq::empty()
    } else if shares[n - 1].vault_id@ == vault_id {
        shares_prefix(shares, vault_id, n - 1).push(shares[n - 1])
    } else {
        shares_prefix(shares, vault_id, n - 1)
    }
}

/// The shares of `vault_id`, oldest first.
pub fn get_vault_shares(share_store: &ShareStore, vault_id: &str) -> (r: Vec<VaultShare>)
    ensures
        r@ == shares_prefix(share_store.shares@, vault_id@, share_store.shares@.len() as int),
{
    let id = vault_id.to_owned();
    let n = share_store.shares.len();
    let mut out: Vec<VaultShare> = Vec::new();
    let mut i: usize = 0;
    while i < n
        invariant
            n == share_store.shares@.len(),
            id@ == vault_id@,
            0 <= i <= n,
            out@ == shares_prefix(share_store.shares@, vault_id@, i as int),
        decreases n - i,
    {
        if share_store.shares[i].vault_id == id {
            out.push(share_store.shares[i].duplicate());
        }
        i = i + 1;
    }
    out
}

// ── backups and notification preferences ────────────────────────────────────

/// The backups after `backup` is kept under its id.
pub open spec fn backups_after_store(
    backups: Map<Seq<char>, VaultBackup>,
    backup: VaultBackup,
) -> Map<Seq<char>, VaultBackup> {
    backups.insert(backup.backup_id@, backup)
}

/// What a read of the backups under `backup_id` gives.
pub open spec fn backup_read(backups: Map<Seq<char>, VaultBackup>, backup_id: Seq<char>) -> Option<
    VaultBackup,
> {
    if backups.contains_key(backup_id) {
        Some(backups[backup_id])
    } else {
        None
    }
}

/// Keep `backup` under its backup id, replacing an earlier one with that id.
pub fn store_backup(backup_store: &mut BackupStore, backup: VaultBackup)
    requires
        old(backup_store).backups.wf(),
    ensures
        final(backup_store).backups.wf(),
        final(backup_store).backups@ == backups_after_store(old(backup_store).backups@, backup),
{
    let key = backup.backup_id.clone();
    backup_store.backups.insert(key, backup);
}

/// The backup kept under `backup_id`.
pub fn get_backup(backup_store: &BackupStore, backup_id: &str) -> (r: Option<VaultBackup>)
    requires
        backup_store.backups.wf(),
    ensures
        r == backup_read(backup_store.backups@, backup_id@),
{
    match backup_store.backups.get(backup_id) {
        Some(b) => Some(b.duplicate()),
        None => None,
    }
}

/// The preferences after `prefs` are kept for their owner.
pub open spec fn prefs_after_set(
    prefs: Map<Seq<char>, VaultNotificationPreferences>,
    p: VaultNotificationPreferences,
) -> Map<Seq<char>, VaultNotificationPreferences> {
    prefs.insert(p.owner@, p)
}

/// What a read of the preferences for `owner` gives.
pub open spec fn prefs_read(
    prefs: Map<Seq<char>, VaultNotificationPreferences>,
    owner: Seq<char>,
) -> Option<VaultNotificationPreferences> {
    if prefs.contains_key(owner) {
        Some(prefs[owner])
    } else {
        None
    }
}

/// Keep `prefs` as the preferences of their owner.
pub fn set_notification_preferences(
    notif_store: &mut NotificationStore,
    prefs: VaultNotificationPreferences,
)
    requires
        old(notif_store).prefs.wf(),
    ensures
        final(notif_store).prefs.wf(),
        final(notif_store).prefs@ == prefs_after_set(old(notif_store).prefs@, prefs),
{
    let key = prefs.owner.clone();
    notif_store.prefs.insert(key, prefs);
}

/// The preferences kept for `owner`.
pub fn get_notification_preferences(notif_store: &NotificationStore, owner: &str) -> (r: Option<
    VaultNotificationPreferences,
>)
    requires
        notif_store.prefs.wf(),
    ensures
        r == prefs_read(notif_store.prefs@, owner@),
{
    match notif_store.prefs.get(owner) {
        Some(p) => Some(p.duplicate()),
        None => None,
    }
}

/// After `store_backup`, `get_backup` under the backup's id gives the backup
/// back, and under any other id gives what it gave before.
pub proof fn law_backup_read_after_write(
    backups: Map<Seq<char>, VaultBackup>,
    backup: VaultBackup,
    other: Seq<char>,
)
    ensures
        backup_read(backups_after_store(backups, backup), backup.backup_id@) == Some(backup),
        other != backup.backup_id@ ==> backup_read(backups_after_store(backups, backup), other)
            == backup_read(backups, other),
{
}

/// After `set_notification_preferences`, `get_notification_preferences` for
/// the owner gives the preferences back, and for any other owner gives what
/// it gave before.
pub proof fn law_preferences_read_after_write(
    prefs: Map<Seq<char>, VaultNotificationPreferences>,
    p: VaultNotificationPreferences,
    other: Seq<char>,
)
    ensures
        prefs_read(prefs_after_set(prefs, p), p.owner@) == Some(p),
        other != p.owner@ ==> prefs_read(prefs_after_set(prefs, p), other) == prefs_read(prefs, other),
{
}

/// `get_vault_shares` after `add_vault_share`: a share of the vault comes
/// last, after the vault's earlier shares in the order they were added; a
/// share of another vault leaves the vault's list as it was.
pub proof fn law_added_share_is_listed_last(shares: Seq<VaultShare>, share: VaultShare, vault_id: Seq<char>)
    ensures
        shares_prefix(shares.push(share), vault_id, shares.len() + 1int) == if share.vault_id@ == vault_id {
            shares_prefix(shares, vault_id, shares.len() as int).push(share)
        } else {
            shares_prefix(shares, vault_id, shares.len() as int)
        },
{
    lemma_shares_prefix_extends(shares, share, vault_id, shares.len() as int);
}

proof fn lemma_shares_prefix_extends(shares: Seq<VaultShare>, share: VaultShare, vault_id: Seq<char>, n: int)
    requires
        0 <= n <= shares.len(),
    ensures
        shares_prefix(shares.push(share), vault_id, n) == shares_prefix(shares, vault_id, n),
    decreases n,
{
    if n > 0 {
        lemma_shares_prefix_extends(shares, share, vault_id, n - 1);
        assert(shares.push(share)[n - 1] == shares[n - 1]);
    }
}

/// A vault that matches is among the matches of any longer prefix of the store.
proof fn lemma_matching_prefix_contains(entries: Seq<(String, Vault)>, q: SearchQuery, j: int, n: int)
    requires
        0 <= j < n <= entries.len(),
        vault_matches(entries[j].1, q),
    ensures
        matching_prefix(entries, q, n).contains(entries[j].1),
    decreases n,
{
    if j < n - 1 {
        lemma_matching_prefix_contains(entries, q, j, n - 1);
        let prev = matching_prefix(entries, q, n - 1);
        let k = choose|k: int| 0 <= k < prev.len() && prev[k] == entries[j].1;
        if vault_matches(entries[n - 1].1, q) {
            assert(prev.push(entries[n - 1].1)[k] == entries[j].1);
        }
    } else {
        let cur = matching_prefix(entries, q, n);
        assert(cur[cur.len() - 1] == entries[j].1);
    }
}

/// A search returns the vaults that meet every filter the query sets, and
/// only those: the owner and the beneficiary equal to the query's, the status
/// equal to the query's, and the creation time at or after `created_after` and
/// at or before `created_before`.
pub proof fn law_search_filters(entries: Seq<(String, Vault)>, q: SearchQuery)
    ensures
        forall|k: int|
            0 <= k < matching_vaults(entries, q).len() ==> {
                let v = #[trigger] matching_vaults(entries, q)[k];
                &&& (q.owner matches Some(o) ==> v.owner@ == o@)
                &&& (q.beneficiary matches Some(b) ==> v.beneficiary@ == b@)
                &&& (q.status matches Some(st) ==> v.status == st)
                &&& (q.created_after matches Some(a) ==> (a.secs < v.created_at.secs || (a.secs
                    == v.created_at.secs && a.nanos <= v.created_at.nanos)))
                &&& (q.created_before matches Some(b) ==> (v.created_at.secs < b.secs || (
                v.created_at.secs == b.secs && v.created_at.nanos <= b.nanos)))
            },
        forall|j: int|
            0 <= j < entries.len() && ({
                let v = #[trigger] entries[j].1;
                &&& (q.owner matches Some(o) ==> v.owner@ == o@)
                &&& (q.beneficiary matches Some(b) ==> v.beneficiary@ == b@)
                &&& (q.status matches Some(st) ==> v.status == st)
                &&& (q.created_after matches Some(a) ==> (a.secs < v.created_at.secs || (a.secs
                    == v.created_at.secs && a.nanos <= v.created_at.nanos)))
                &&& (q.created_before matches Some(b) ==> (v.created_at.secs < b.secs || (
                v.created_at.secs == b.secs && v.created_at.nanos <= b.nanos)))
            }) ==> matching_vaults(entries, q).contains(entries[j].1),
{
    lemma_matching_prefix(entries, q, entries.len() as int);
    assert forall|j: int|
        0 <= j < entries.len() && ({
            let v = #[trigger] entries[j].1;
            &&& (q.owner matches Some(o) ==> v.owner@ == o@)
            &&& (q.beneficiary matches Some(b) ==> v.beneficiary@ == b@)
            &&& (q.status matches Some(st) ==> v.status == st)
            &&& (q.created_after matches Some(a) ==> (a.secs < v.created_at.secs || (a.secs
                == v.created_at.secs && a.nanos <= v.created_at.nanos)))
            &&& (q.created_before matches Some(b) ==> (v.created_at.secs < b.secs || (
            v.created_at.secs == b.secs && v.created_at.nanos <= b.nanos)))
        }) implies matching_vaults(entries, q).contains(entries[j].1) by {
        lemma_matching_prefix_contains(entries, q, j, entries.len() as int);
    }
}

} // verus!
