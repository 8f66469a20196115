//! Request handlers over the stores: search, comparison, export and compliance
//! reports.
use vstd::prelude::*;
use crate::models::{
    AuditEntry, BeneficiaryChange, ComparisonResult, ComplianceReport, EventType, ExportData,
    FundMovement, SearchQuery, SearchResult, Timestamp, TtlEvent, Vault, VaultEvent, VaultStatus,
};
use crate::outside::{
    csv_record, display_utc, json_i64_field, json_str_field, json_u64_field, now_timestamp, plain_instant,
    rfc3339, csv_line, spec_display_utc, spec_json_i64_field, spec_json_str_field,
    spec_json_u64_field, spec_rfc3339,
};
use crate::store::{
    audit_prefix, get_vault_audit_log, get_vault_history, history_prefix, matching_vaults, page_of,
    paging_valid, query_limit, query_offset, query_page, search_vaults, AuditStore, EventStore,
    VaultStore,
};
use crate::text::{i128_to_decimal, signed_decimal};

pub use crate::templates::{create_vault_from_template, get_vault_templates};

verus! {

/// Search the vaults (see `search_vaults`).
pub fn search_vaults_handler(store: &VaultStore, query: SearchQuery) -> (r: SearchResult)
    requires
        store.vaults.wf(),
        paging_valid(query),
    ensures
        r.vaults@ == page_of(
            matching_vaults(store.vaults.entries@, query),
            query_offset(query),
            query_limit(query) as int,
        ),
        r.total == matching_vaults(store.vaults.entries@, query).len() as u32,
        r.page == query_page(query),
        r.limit == query_limit(query),
{
    search_vaults(store, &query)
}

/// The stored vaults among the first `n` requested keys, in request order;
/// unknown keys are skipped.
pub open spec fn compared_prefix(vaults: Map<Seq<char>, Vault>, ids: Seq<String>, n: int) -> Seq<Vault>
    decreases n,
{
    if n <= 0 {
        Seq::empty()
    } else if vaults.contains_key(ids[n - 1]@) {
        compared_prefix(vaults, ids, n - 1).push(vaults[ids[n - 1]@])
    } else {
        compared_prefix(vaults, ids, n - 1)
    }
}

/// The vaults stored under `vault_ids`, side by side.
pub fn compare_vaults_handler(store: &VaultStore, vault_ids: Vec<String>) -> (r: ComparisonResult)
    requires
        store.vaults.wf(),
    ensures
        r.vaults@ == compared_prefix(store.vaults@, vault_ids@, vault_ids@.len() as int),
{
    let n = vault_ids.len();
    let mut vaults: Vec<Vault> = Vec::new();
    let mut i: usize = 0;
    while i < n
        invariant
            n == vault_ids@.len(),
            store.vaults.wf(),
            0 <= i <= n,
            vaults@ == compared_prefix(store.vaults@, vault_ids@, i as int),
        decreases n - i,
    {
        match store.vaults.get(vault_ids[i].as_str()) {
            Some(v) => vaults.push(v.duplicate()),
            None => {},
        }
        i = i + 1;
    }
    ComparisonResult { vaults }
}

// ── compliance report ───────────────────────────────────────────────────────

pub open spec fn movement_view(m: FundMovement) -> (Timestamp, Seq<char>, i128, i128) {
    (m.timestamp, m.movement_type@, m.amount, m.balance_after)
}

pub open spec fn change_view(c: BeneficiaryChange) -> (Timestamp, Seq<char>, Seq<char>) {
    (c.timestamp, c.old_beneficiary@, c.new_beneficiary@)
}

pub open spec fn ttl_view(t: TtlEvent) -> (Timestamp, Seq<char>, Option<u64>) {
    (t.timestamp, t.event_type@, t.ttl_remaining)
}

/// What the first `n` events of a vault's history contribute to its compliance
/// report: fund movements, beneficiary changes, TTL history, total deposits and
/// total withdrawals.  Deposits and withdrawals count when their data carries
/// an integer "amount"; TTL updates when they carry "ttl_remaining";
/// beneficiary changes when they carry both "old_beneficiary" and
/// "new_beneficiary".
pub open spec fn report_prefix(history: Seq<VaultEvent>, balance: i128, n: int) -> (
    Seq<(Timestamp, Seq<char>, i128, i128)>,
    Seq<(Timestamp, Seq<char>, Seq<char>)>,
    Seq<(Timestamp, Seq<char>, Option<u64>)>,
    int,
    int,
)
    decreases n,
{
    if n <= 0 {
        (Seq::empty(), Seq::empty(), Seq::empty(), 0, 0)
    } else {
        let prev = report_prefix(history, balance, n - 1);
        let e = history[n - 1];
        match e.event_type {
            EventType::Deposit => match spec_json_i64_field(e.data@, "amount"@) {
                Some(a) => (
                    prev.0.push((e.timestamp, "deposit"@, a as i128, balance)),
                    prev.1,
                    prev.2,
                    prev.3 + a,
                    prev.4,
                ),
                None => prev,
            },
            EventType::Withdrawal => match spec_json_i64_field(e.data@, "amount"@) {
                Some(a) => (
                    prev.0.push((e.timestamp, "withdrawal"@, a as i128, balance)),
                    prev.1,
                    prev.2,
                    prev.3,
                    prev.4 + a,
                ),
                None => prev,
            },
            EventType::TtlUpdate => match spec_json_u64_field(e.data@, "ttl_remaining"@) {
                Some(t) => (
                    prev.0,
                    prev.1,
                    prev.2.push((e.timestamp, "ttl_extended"@, Some(t))),
                    prev.3,
                    prev.4,
                ),
                None => prev,
            },
            EventType::StatusChange => match (
                spec_json_str_field(e.data@, "old_beneficiary"@),
                spec_json_str_field(e.data@, "new_beneficiary"@),
            ) {
                (Some(o), Some(nb)) => (
                    prev.0,
                    prev.1.push((e.timestamp, o, nb)),
                    prev.2,
                    prev.3,
                    prev.4,
                ),
                _ => prev,
            },
            _ => prev,
        }
    }
}

proof fn lemma_report_totals(history: Seq<VaultEvent>, balance: i128, n: int)
    requires
        0 <= n <= history.len(),
    ensures
        -n * 0x8000_0000_0000_0000 <= report_prefix(history, balance, n).3 <= n * 0x7fff_ffff_ffff_ffff,
        -n * 0x8000_0000_0000_0000 <= report_prefix(history, balance, n).4 <= n * 0x7fff_ffff_ffff_ffff,
    decreases n,
{
    if n > 0 {
        lemma_report_totals(history, balance, n - 1);
        assert(-(n - 1) * 0x8000_0000_0000_0000 - 0x8000_0000_0000_0000 == -n * 0x8000_0000_0000_0000)
            by (nonlinear_arith);
        assert((n - 1) * 0x7fff_ffff_ffff_ffff + 0x7fff_ffff_ffff_ffff == n * 0x7fff_ffff_ffff_ffff)
            by (nonlinear_arith);
    }
}

/// The compliance report of the vault stored under `vault_id`: its fund
/// movements, beneficiary changes and TTL history, drawn from its events, with
/// the totals of deposits and withdrawals and its current balance.
pub fn generate_compliance_report(store: &VaultStore, event_store: &EventStore, vault_id: &str) -> (r:
    Result<ComplianceReport, String>)
    requires
        store.vaults.wf(),
    ensures
        r is Err <==> !store.vaults@.contains_key(vault_id@),
        r matches Err(e) ==> e@ == "Vault not found"@,
        r matches Ok(rep) ==> {
            let v = store.vaults@[vault_id@];
            let h = history_prefix(event_store.events@, vault_id@, event_store.events@.len() as int);
            let s = report_prefix(h, v.balance, h.len() as int);
            &&& rep.vault_id == v.id
            &&& rep.owner == v.owner
            &&& rep.beneficiary == v.beneficiary
            &&& rep.current_balance == v.balance
            &&& rep.fund_movements@.map_values(|m: FundMovement| movement_view(m)) == s.0
            &&& rep.beneficiary_changes@.map_values(|c: BeneficiaryChange| change_view(c)) == s.1
            &&& rep.ttl_history@.map_values(|t: TtlEvent| ttl_view(t)) == s.2
            &&& rep.total_deposits == s.3
            &&& rep.total_withdrawals == s.4
        },
{
    let vault = match store.vaults.get(vault_id) {
        Some(v) => v.duplicate(),
        None => {
            return Err("Vault not found".to_owned());
        },
    };
    let history = get_vault_history(event_store, vault_id);
    let ghost h = history@;
    let n = history.len();
    let mut fund_movements: Vec<FundMovement> = Vec::new();
    let mut beneficiary_changes: Vec<BeneficiaryChange> = Vec::new();
    let mut ttl_history: Vec<TtlEvent> = Vec::new();
    let mut total_deposits: i128 = 0;
    let mut total_withdrawals: i128 = 0;
    let mut i: usize = 0;
    while i < n
        invariant
            n == h.len(),
            h == history@,
            0 <= i <= n,
            fund_movements@.map_values(|m: FundMovement| movement_view(m)) == report_prefix(h, vault.balance, i as int).0,
            beneficiary_changes@.map_values(|c: BeneficiaryChange| change_view(c)) == report_prefix(h, vault.balance, i as int).1,
            ttl_history@.map_values(|t: TtlEvent| ttl_view(t)) == report_prefix(h, vault.balance, i as int).2,
            total_deposits == report_prefix(h, vault.balance, i as int).3,
            total_withdrawals == report_prefix(h, vault.balance, i as int).4,
        decreases n - i,
    {
        proof {
            lemma_report_totals(h, vault.balance, i as int);
            assert(i * 0x8000_0000_0000_0000 <= 0xffff_ffff_ffff_ffff * 0x8000_0000_0000_0000) by (nonlinear_arith)
                requires
                    0 <= i <= 0xffff_ffff_ffff_ffff,
            ;
            assert(i * 0x7fff_ffff_ffff_ffff <= 0xffff_ffff_ffff_ffff * 0x7fff_ffff_ffff_ffff) by (nonlinear_arith)
                requires
                    0 <= i <= 0xffff_ffff_ffff_ffff,
            ;
        }
        let event = &history[i];
        let ghost ms0 = fund_movements@;
        let ghost cs0 = beneficiary_changes@;
        let ghost ts0 = ttl_history@;
        match event.event_type {
            EventType::Deposit => {
                if let Some(amount) = json_i64_field(event.data.as_str(), "amount") {
                    total_deposits = total_deposits + amount as i128;
                    let m = FundMovement {
                        timestamp: event.timestamp,
                        movement_type: "deposit".to_owned(),
                        amount: amount as i128,
                        balance_after: vault.balance,
                    };
                    fund_movements.push(m);
                    proof {
                        assert(fund_movements@.map_values(|m: FundMovement| movement_view(m))
                            =~= ms0.map_values(|m: FundMovement| movement_view(m)).push(movement_view(m)));
                    }
                }
            },
            EventType::Withdrawal => {
                if let Some(amount) = json_i64_field(event.data.as_str(), "amount") {
                    total_withdrawals = total_withdrawals + amount as i128;
                    let m = FundMovement {
                        timestamp: event.timestamp,
                        movement_type: "withdrawal".to_owned(),
                        amount: amount as i128,
                        balance_after: vault.balance,
                    };
                    fund_movements.push(m);
                    proof {
                        assert(fund_movements@.map_values(|m: FundMovement| movement_view(m))
                            =~= ms0.map_values(|m: FundMovement| movement_view(m)).push(movement_view(m)));
                    }
                }
            },
            EventType::TtlUpdate => {
                if let Some(ttl) = json_u64_field(event.data.as_str(), "ttl_remaining") {
                    let t = TtlEvent {
                        timestamp: event.timestamp,
                        event_type: "ttl_extended".to_owned(),
                        ttl_remaining: Some(ttl),
                    };
                    ttl_history.push(t);
                    proof {
                        assert(ttl_history@.map_values(|t: TtlEvent| ttl_view(t))
                            =~= ts0.map_values(|t: TtlEvent| ttl_view(t)).push(ttl_view(t)));
                    }
                }
            },
            EventType::StatusChange => {
                if let Some(old_ben) = json_str_field(event.data.as_str(), "old_beneficiary") {
                    if let Some(new_ben) = json_str_field(event.data.as_str(), "new_beneficiary") {
                        let c = BeneficiaryChange {
                            timestamp: event.timestamp,
                            old_beneficiary: old_ben,
                            new_beneficiary: new_ben,
                        };
                        beneficiary_changes.push(c);
                        proof {
                            assert(beneficiary_changes@.map_values(|c: BeneficiaryChange| change_view(c))
                                =~= cs0.map_values(|c: BeneficiaryChange| change_view(c)).push(change_view(c)));
                        }
                    }
                }
            },
            _ => {},
        }
        i = i + 1;
    }
    Ok(
        ComplianceReport {
            vault_id: vault.id,
            owner: vault.owner,
            beneficiary: vault.beneficiary,
            report_generated_at: now_timestamp(),
            fund_movements,
            beneficiary_changes,
            ttl_history,
            total_deposits,
            total_withdrawals,
            current_balance: vault.balance,
        },
    )
}

/// Deposits and withdrawals enter the totals exactly as the fund movements
/// list them: the totals are the sums of the listed amounts of each kind.
pub proof fn law_report_totals_match_movements(history: Seq<VaultEvent>, balance: i128, n: int)
    requires
        0 <= n <= history.len(),
    ensures
        report_prefix(history, balance, n).3 == movement_sum(report_prefix(history, balance, n).0, "deposit"@),
        report_prefix(history, balance, n).4 == movement_sum(report_prefix(history, balance, n).0, "withdrawal"@),
    decreases n,
{
    reveal_strlit("deposit");
    reveal_strlit("withdrawal");
    if n > 0 {
        law_report_totals_match_movements(history, balance, n - 1);
        let prev = report_prefix(history, balance, n - 1);
        let cur = report_prefix(history, balance, n);
        assert("deposit"@ != "withdrawal"@) by {
            assert("deposit"@.len() != "withdrawal"@.len());
        }
        let e = history[n - 1];
        if e.event_type == EventType::Deposit && spec_json_i64_field(e.data@, "amount"@).is_some() {
            assert(cur.0.drop_last() =~= prev.0);
            assert(cur.0.last().1 == "deposit"@);
        } else if e.event_type == EventType::Withdrawal && spec_json_i64_field(e.data@, "amount"@).is_some() {
            assert(cur.0.drop_last() =~= prev.0);
            assert(cur.0.last().1 == "withdrawal"@);
        } else {
            assert(cur.0 =~= prev.0);
            assert(cur.3 == prev.3);
            assert(cur.4 == prev.4);
        }
    }
}

// ── export ──────────────────────────────────────────────────────────────────

/// The formats a vault export or report can be written in.
#[derive(Clone, Copy, Debug, PartialEq, Eq, Structural)]
pub enum ExportFormat {
    Json,
    Csv,
    Pdf,
}

/// What an export hands back: the data for a JSON rendering, or finished text.
pub enum ExportOutput {
    Json(ExportData),
    Text(String),
}

/// What a report export hands back: a request to render the report as JSON,
/// or finished text.
pub enum ReportOutput {
    Json,
    Text(String),
}

/// The format that `format` names, if it is one of `allowed`'s.
pub open spec fn named_format(format: Seq<char>) -> Option<ExportFormat> {
    if format == "json"@ {
        Some(ExportFormat::Json)
    } else if format == "csv"@ {
        Some(ExportFormat::Csv)
    } else if format == "pdf"@ {
        Some(ExportFormat::Pdf)
    } else {
        None
    }
}

pub fn parse_format(format: &str) -> (r: Option<ExportFormat>)
    ensures
        r == named_format(format@),
{
    let f = format.to_owned();
    if f == "json".to_owned() {
        Some(ExportFormat::Json)
    } else if f == "csv".to_owned() {
        Some(ExportFormat::Csv)
    } else if f == "pdf".to_owned() {
        Some(ExportFormat::Pdf)
    } else {
        None
    }
}

/// The name that `Debug` gives a vault status.
pub open spec fn status_name(s: VaultStatus) -> Seq<char> {
    match s {
        VaultStatus::Active => "Active"@,
        VaultStatus::Paused => "Paused"@,
        VaultStatus::Expired => "Expired"@,
        VaultStatus::Released => "Released"@,
    }
}

/// The name of a vault status.
pub fn status_text(s: VaultStatus) -> (r: &'static str)
    ensures
        r@ == status_name(s),
{
    match s {
        VaultStatus::Active => "Active",
        VaultStatus::Paused => "Paused",
        VaultStatus::Expired => "Expired",
        VaultStatus::Released => "Released",
    }
}

/// The name that `Debug` gives an event type.
pub open spec fn event_type_name(t: EventType) -> Seq<char> {
    match t {
        EventType::Created => "Created"@,
        EventType::CheckIn => "CheckIn"@,
        EventType::Deposit => "Deposit"@,
        EventType::Withdrawal => "Withdrawal"@,
        EventType::TtlUpdate => "TtlUpdate"@,
        EventType::StatusChange => "StatusChange"@,
        EventType::Released => "Released"@,
    }
}

/// The name of an event type.
pub fn event_type_text(t: EventType) -> (r: &'static str)
    ensures
        r@ == event_type_name(t),
{
    match t {
        EventType::Created => "Created",
        EventType::CheckIn => "CheckIn",
        EventType::Deposit => "Deposit",
        EventType::Withdrawal => "Withdrawal",
        EventType::TtlUpdate => "TtlUpdate",
        EventType::StatusChange => "StatusChange",
        EventType::Released => "Released",
    }
}

/// Both parts, joined, when both exist.
pub open spec fn joined(a: Option<Seq<char>>, b: Option<Seq<char>>) -> Option<Seq<char>> {
    match (a, b) {
        (Some(x), Some(y)) => Some(x + y),
        _ => None,
    }
}

/// A CSV record's text, as one of the optional pieces of an export.
pub open spec fn csv_text(fields: Seq<Seq<char>>) -> Option<Seq<char>> {
    Some(csv_line(fields))
}

pub open spec fn csv_header() -> Seq<Seq<char>> {
    seq!["Type"@, "ID"@, "Owner"@, "Beneficiary"@, "Balance"@, "Status"@, "Created"@]
}

pub open spec fn csv_blank() -> Seq<Seq<char>> {
    seq![""@, ""@, ""@, ""@, ""@, ""@, ""@]
}

pub open spec fn csv_event_header() -> Seq<Seq<char>> {
    seq!["Event"@, "Type"@, "Timestamp"@, "Data"@, ""@, ""@, ""@]
}

/// The CSV line of the vault itself.
pub open spec fn csv_vault_line(v: Vault) -> Option<Seq<char>> {
    match spec_rfc3339(v.created_at.secs, v.created_at.nanos) {
        Some(created) => csv_text(
            seq![
                "Vault"@,
                v.id@,
                v.owner@,
                v.beneficiary@,
                signed_decimal(v.balance as int),
                status_name(v.status),
                created,
            ],
        ),
        None => None,
    }
}

/// The CSV line of an event.
pub open spec fn csv_event_line(e: VaultEvent) -> Option<Seq<char>> {
    match spec_rfc3339(e.timestamp.secs, e.timestamp.nanos) {
        Some(ts) => csv_text(
            seq!["Event"@, event_type_name(e.event_type), ts, e.data@, ""@, ""@, ""@],
        ),
        None => None,
    }
}

/// The CSV lines of the first `n` events.
pub open spec fn csv_event_lines(events: Seq<VaultEvent>, n: int) -> Option<Seq<char>>
    decreases n,
{
    if n <= 0 {
        Some(Seq::empty())
    } else {
        joined(csv_event_lines(events, n - 1), csv_event_line(events[n - 1]))
    }
}

/// The CSV export of a vault: a header, the vault's line, a blank line, the
/// events' header and one line per event.
pub open spec fn csv_export(vault: Vault, history: Seq<VaultEvent>) -> Option<Seq<char>> {
    joined(
        joined(
            joined(
                joined(csv_text(csv_header()), csv_vault_line(vault)),
                csv_text(csv_blank()),
            ),
            csv_text(csv_event_header()),
        ),
        csv_event_lines(history, history.len() as int),
    )
}

fn row7(a: String, b: String, c: String, d: String, e: String, f: String, g: String) -> (v: Vec<
    String,
>)
    ensures
        v.deep_view() == seq![a@, b@, c@, d@, e@, f@, g@],
{
    let mut v: Vec<String> = Vec::new();
    v.push(a);
    v.push(b);
    v.push(c);
    v.push(d);
    v.push(e);
    v.push(f);
    v.push(g);
    assert(v.deep_view() =~= seq![a@, b@, c@, d@, e@, f@, g@]);
    v
}

/// Append one CSV record to `out`.
fn append_record(out: &mut String, fields: &Vec<String>) -> (ok: bool)
    ensures
        ok,
        final(out)@ == old(out)@ + csv_line(fields.deep_view()),
{
    match csv_record(fields) {
        Some(line) => {
            out.append(line.as_str());
            true
        },
        None => false,
    }
}

/// Failure message of a CSV export.
pub open spec fn csv_failure() -> Seq<char> {
    "CSV export failed"@
}

/// A time that chrono writes: from 1970 to the end of year 9999, and not a
/// leap second.
pub open spec fn writable_time(t: Timestamp) -> bool {
    plain_instant(t.secs, t.nanos)
}

/// The CSV text of an export; it is made whenever the vault's and the events'
/// times are writable (see `writable_time`).
pub fn export_to_csv(data: &ExportData) -> (r: Result<String, String>)
    ensures
        r is Ok <==> csv_export(data.vault, data.history@).is_some(),
        writable_time(data.vault.created_at) && (forall|i: int|
            0 <= i < data.history@.len() ==> writable_time(#[trigger] data.history@[i].timestamp))
            ==> r is Ok,
        r matches Ok(s) ==> Some(s@) == csv_export(data.vault, data.history@),
        r matches Err(e) ==> e@ == csv_failure(),
{
    let mut out = String::new();
    let header = row7(
        "Type".to_owned(),
        "ID".to_owned(),
        "Owner".to_owned(),
        "Beneficiary".to_owned(),
        "Balance".to_owned(),
        "Status".to_owned(),
        "Created".to_owned(),
    );
    let ok1 = append_record(&mut out, &header);
    let created = rfc3339(data.vault.created_at.secs, data.vault.created_at.nanos);
    let ok2 = match created {
        Some(c) => {
            let row = row7(
                "Vault".to_owned(),
                data.vault.id.clone(),
                data.vault.owner.clone(),
                data.vault.beneficiary.clone(),
                i128_to_decimal(data.vault.balance),
                status_text(data.vault.status).to_owned(),
                c,
            );
            append_record(&mut out, &row)
        },
        None => false,
    };
    let blank = row7(
        "".to_owned(),
        "".to_owned(),
        "".to_owned(),
        "".to_owned(),
        "".to_owned(),
        "".to_owned(),
        "".to_owned(),
    );
    let ok3 = append_record(&mut out, &blank);
    let event_header = row7(
        "Event".to_owned(),
        "Type".to_owned(),
        "Timestamp".to_owned(),
        "Data".to_owned(),
        "".to_owned(),
        "".to_owned(),
        "".to_owned(),
    );
    let ok4 = append_record(&mut out, &event_header);
    if !(ok1 && ok2 && ok3 && ok4) {
        return Err("CSV export failed".to_owned());
    }
    let ghost head = out@;
    proof {
        assert(head == joined(
            joined(
                joined(csv_text(csv_header()), csv_vault_line(data.vault)),
                csv_text(csv_blank()),
            ),
            csv_text(csv_event_header()),
        ).unwrap());
    }
    let n = data.history.len();
    let mut i: usize = 0;
    while i < n
        invariant
            n == data.history@.len(),
            0 <= i <= n,
            csv_event_lines(data.history@, i as int).is_some(),
            out@ == head + csv_event_lines(data.history@, i as int).unwrap(),
        decreases n - i,
    {
        let event = &data.history[i];
        let ok = match rfc3339(event.timestamp.secs, event.timestamp.nanos) {
            Some(ts) => {
                let row = row7(
                    "Event".to_owned(),
                    event_type_text(event.event_type).to_owned(),
                    ts,
                    event.data.clone(),
                    "".to_owned(),
                    "".to_owned(),
                    "".to_owned(),
                );
                append_record(&mut out, &row)
            },
            None => false,
        };
        if !ok {
            proof {
                lemma_event_lines_fail(data.history@, i as int, n as int);
            }
            return Err("CSV export failed".to_owned());
        }
        proof {
            assert(out@ =~= head + csv_event_lines(data.history@, i as int + 1).unwrap());
        }
        i = i + 1;
    }
    Ok(out)
}

/// Once a line fails, the whole list of lines fails.
proof fn lemma_event_lines_fail(events: Seq<VaultEvent>, i: int, n: int)
    requires
        0 <= i < n <= events.len(),
        csv_event_line(events[i]).is_none(),
    ensures
        csv_event_lines(events, n).is_none(),
    decreases n,
{
    if n > i + 1 {
        lemma_event_lines_fail(events, i, n - 1);
    }
}

/// Export the vault stored under `vault_id` with its history and audit log, as
/// data for JSON or as CSV text.
pub fn export_vaults_handler(
    store: &VaultStore,
    event_store: &EventStore,
    audit_store: &AuditStore,
    vault_id: &str,
    format: &str,
) -> (r: Result<ExportOutput, String>)
    requires
        store.vaults.wf(),
    ensures
        !store.vaults@.contains_key(vault_id@) ==> (r matches Err(e) && e@ == "Vault not found"@),
        store.vaults@.contains_key(vault_id@) ==> ({
            let history = history_prefix(event_store.events@, vault_id@, event_store.events@.len() as int);
            let audit = audit_prefix(audit_store.entries@, vault_id@, audit_store.entries@.len() as int);
            match named_format(format@) {
                Some(ExportFormat::Json) => (r matches Ok(ExportOutput::Json(d)) && d.vault == store.vaults@[vault_id@]
                    && d.history@ == history && d.audit_log@ == audit),
                Some(ExportFormat::Csv) => match r {
                    Ok(ExportOutput::Text(t)) => csv_export(store.vaults@[vault_id@], history) == Some(t@),
                    Err(e) => e@ == csv_failure() && csv_export(store.vaults@[vault_id@], history).is_none(),
                    _ => false,
                },
                _ => (r matches Err(e) && e@ == "Unsupported format"@),
            }
        }),
{
    let vault = match store.vaults.get(vault_id) {
        Some(v) => v.duplicate(),
        None => {
            return Err("Vault not found".to_owned());
        },
    };
    let history = get_vault_history(event_store, vault_id);
    let audit_log = get_vault_audit_log(audit_store, vault_id);
    let export_data = ExportData { vault, history, audit_log };
    match parse_format(format) {
        Some(ExportFormat::Json) => Ok(ExportOutput::Json(export_data)),
        Some(ExportFormat::Csv) => match export_to_csv(&export_data) {
            Ok(text) => Ok(ExportOutput::Text(text)),
            Err(e) => Err(e),
        },
        _ => Err("Unsupported format".to_owned()),
    }
}

/// A fund movement's line of the text report.
pub open spec fn movement_line(m: FundMovement) -> Option<Seq<char>> {
    match spec_display_utc(m.timestamp.secs, m.timestamp.nanos) {
        Some(ts) => Some(ts + " - "@ + m.movement_type@ + " "@ + signed_decimal(m.amount as int) + "\n"@),
        None => None,
    }
}

pub open spec fn movement_lines(ms: Seq<FundMovement>, n: int) -> Option<Seq<char>>
    decreases n,
{
    if n <= 0 {
        Some(Seq::empty())
    } else {
        joined(movement_lines(ms, n - 1), movement_line(ms[n - 1]))
    }
}

/// A beneficiary change's line of the text report.
pub open spec fn change_line(c: BeneficiaryChange) -> Option<Seq<char>> {
    match spec_display_utc(c.timestamp.secs, c.timestamp.nanos) {
        Some(ts) => Some(ts + " - "@ + c.old_beneficiary@ + " -> "@ + c.new_beneficiary@ + "\n"@),
        None => None,
    }
}

pub open spec fn change_lines(cs: Seq<BeneficiaryChange>, n: int) -> Option<Seq<char>>
    decreases n,
{
    if n <= 0 {
        Some(Seq::empty())
    } else {
        joined(change_lines(cs, n - 1), change_line(cs[n - 1]))
    }
}

/// The report's head: title, generation time, vault, parties and totals.
pub open spec fn report_head(r: ComplianceReport) -> Option<Seq<char>> {
    match spec_display_utc(r.report_generated_at.secs, r.report_generated_at.nanos) {
        Some(generated) => Some(
            "COMPLIANCE REPORT\n"@ + "Generated: "@ + generated + "\n\n"@ + "Vault ID: "@ + r.vault_id@
                + "\n"@ + "Owner: "@ + r.owner@ + "\n"@ + "Beneficiary: "@ + r.beneficiary@ + "\n"@
                + "Current Balance: "@ + signed_decimal(r.current_balance as int) + "\n"@
                + "Total Deposits: "@ + signed_decimal(r.total_deposits as int) + "\n"@
                + "Total Withdrawals: "@ + signed_decimal(r.total_withdrawals as int) + "\n\n"@
                + "FUND MOVEMENTS:\n"@,
        ),
        None => None,
    }
}

/// The text rendering of a compliance report: its head, one line per fund
/// movement, then one line per beneficiary change.
pub open spec fn report_text(r: ComplianceReport) -> Option<Seq<char>> {
    joined(
        joined(
            joined(
                report_head(r),
                movement_lines(r.fund_movements@, r.fund_movements@.len() as int),
            ),
            Some("\nBENEFICIARY CHANGES:\n"@),
        ),
        change_lines(r.beneficiary_changes@, r.beneficiary_changes@.len() as int),
    )
}

pub open spec fn report_text_failure() -> Seq<char> {
    "Report time out of range"@
}

fn push_line_time(out: &mut String, ts: Timestamp) -> (ok: bool)
    ensures
        ok == spec_display_utc(ts.secs, ts.nanos).is_some(),
        !ok ==> !writable_time(ts),
        ok ==> final(out)@ == old(out)@ + spec_display_utc(ts.secs, ts.nanos).unwrap(),
{
    match display_utc(ts.secs, ts.nanos) {
        Some(t) => {
            out.append(t.as_str());
            true
        },
        None => false,
    }
}

/// Every time of a report is writable (see `writable_time`).
pub open spec fn report_times_writable(r: ComplianceReport) -> bool {
    &&& writable_time(r.report_generated_at)
    &&& forall|i: int| 0 <= i < r.fund_movements@.len() ==> writable_time(#[trigger] r.fund_movements@[i].timestamp)
    &&& forall|i: int|
        0 <= i < r.beneficiary_changes@.len() ==> writable_time(#[trigger] r.beneficiary_changes@[i].timestamp)
}

/// The text rendering of a compliance report; it is made whenever the report's
/// times are writable (see `writable_time`).
pub fn compliance_report_text(report: &ComplianceReport) -> (r: Result<String, String>)
    ensures
        r is Ok <==> report_text(*report).is_some(),
        report_times_writable(*report) ==> r is Ok,
        r matches Ok(t) ==> Some(t@) == report_text(*report),
        r matches Err(e) ==> e@ == report_text_failure(),
{
    let mut out = "COMPLIANCE REPORT\n".to_owned();
    out.append("Generated: ");
    if !push_line_time(&mut out, report.report_generated_at) {
        return Err("Report time out of range".to_owned());
    }
    out.append("\n\n");
    out.append("Vault ID: ");
    out.append(report.vault_id.as_str());
    out.append("\n");
    out.append("Owner: ");
    out.append(report.owner.as_str());
    out.append("\n");
    out.append("Beneficiary: ");
    out.append(report.beneficiary.as_str());
    out.append("\n");
    out.append("Current Balance: ");
    out.append(i128_to_decimal(report.current_balance).as_str());
    out.append("\n");
    out.append("Total Deposits: ");
    out.append(i128_to_decimal(report.total_deposits).as_str());
    out.append("\n");
    out.append("Total Withdrawals: ");
    out.append(i128_to_decimal(report.total_withdrawals).as_str());
    out.append("\n\n");
    out.append("FUND MOVEMENTS:\n");
    let ghost head = out@;
    proof {
        assert(Some(head) =~= report_head(*report));
    }
    let n = report.fund_movements.len();
    let mut i: usize = 0;
    while i < n
        invariant
            n == report.fund_movements@.len(),
            0 <= i <= n,
            movement_lines(report.fund_movements@, i as int).is_some(),
            out@ == head + movement_lines(report.fund_movements@, i as int).unwrap(),
        decreases n - i,
    {
        let m = &report.fund_movements[i];
        let ghost before = out@;
        if !push_line_time(&mut out, m.timestamp) {
            proof {
                lemma_movement_lines_fail(report.fund_movements@, i as int, n as int);
            }
            return Err("Report time out of range".to_owned());
        }
        out.append(" - ");
        out.append(m.movement_type.as_str());
        out.append(" ");
        out.append(i128_to_decimal(m.amount).as_str());
        out.append("\n");
        proof {
            assert(out@ =~= head + movement_lines(report.fund_movements@, i as int + 1).unwrap());
        }
        i = i + 1;
    }
    out.append("\nBENEFICIARY CHANGES:\n");
    let ghost middle = out@;
    let k = report.beneficiary_changes.len();
    let mut j: usize = 0;
    while j < k
        invariant
            k == report.beneficiary_changes@.len(),
            0 <= j <= k,
            change_lines(report.beneficiary_changes@, j as int).is_some(),
            out@ == middle + change_lines(report.beneficiary_changes@, j as int).unwrap(),
        decreases k - j,
    {
        let c = &report.beneficiary_changes[j];
        if !push_line_time(&mut out, c.timestamp) {
            proof {
                lemma_change_lines_fail(report.beneficiary_changes@, j as int, k as int);
            }
            return Err("Report time out of range".to_owned());
        }
        out.append(" - ");
        out.append(c.old_beneficiary.as_str());
        out.append(" -> ");
        out.append(c.new_beneficiary.as_str());
        out.append("\n");
        proof {
            assert(out@ =~= middle + change_lines(report.beneficiary_changes@, j as int + 1).unwrap());
        }
        j = j + 1;
    }
    proof {
        assert(Some(out@) =~= report_text(*report));
    }
    Ok(out)
}

proof fn lemma_movement_lines_fail(ms: Seq<FundMovement>, i: int, n: int)
    requires
        0 <= i < n <= ms.len(),
        movement_line(ms[i]).is_none(),
    ensures
        movement_lines(ms, n).is_none(),
    decreases n,
{
    if n > i + 1 {
        lemma_movement_lines_fail(ms, i, n - 1);
    }
}

proof fn lemma_change_lines_fail(cs: Seq<BeneficiaryChange>, i: int, n: int)
    requires
        0 <= i < n <= cs.len(),
        change_line(cs[i]).is_none(),
    ensures
        change_lines(cs, n).is_none(),
    decreases n,
{
    if n > i + 1 {
        lemma_change_lines_fail(cs, i, n - 1);
    }
}

/// Export a compliance report: as JSON (rendered by the caller) or as text
/// ("pdf"); other formats are refused.
pub fn export_compliance_report(report: &ComplianceReport, format: &str) -> (r: Result<
    ReportOutput,
    String,
>)
    ensures
        named_format(format@) == Some(ExportFormat::Json) ==> r matches Ok(ReportOutput::Json),
        named_format(format@) == Some(ExportFormat::Pdf) && report_times_writable(*report) ==> r is Ok,
        named_format(format@) == Some(ExportFormat::Pdf) ==> match r {
            Ok(ReportOutput::Text(t)) => report_text(*report) == Some(t@),
            Err(e) => e@ == report_text_failure() && report_text(*report).is_none(),
            _ => false,
        },
        named_format(format@) != Some(ExportFormat::Json) && named_format(format@) != Some(
            ExportFormat::Pdf,
        ) ==> (r matches Err(e) && e@ == "Unsupported format"@),
{
    match parse_format(format) {
        Some(ExportFormat::Json) => Ok(ReportOutput::Json),
        Some(ExportFormat::Pdf) => match compliance_report_text(report) {
            Ok(t) => Ok(ReportOutput::Text(t)),
            Err(e) => Err(e),
        },
        _ => Err("Unsupported format".to_owned()),
    }
}

/// Sum of the amounts of the listed movements of kind `kind`.
pub open spec fn movement_sum(ms: Seq<(Timestamp, Seq<char>, i128, i128)>, kind: Seq<char>) -> int
    decreases ms.len(),
{
    if ms.len() == 0 {
        0
    } else {
        movement_sum(ms.drop_last(), kind) + if ms.last().1 == kind {
            ms.last().2 as int
        } else {
            0
        }
    }
}

/// The number of the first `n` events that record a change of beneficiary:
/// status changes whose data names both the old and the new beneficiary.
pub open spec fn recorded_party_changes(history: Seq<VaultEvent>, n: int) -> int
    decreases n,
{
    if n <= 0 {
        0
    } else {
        recorded_party_changes(history, n - 1) + if history[n - 1].event_type == EventType::StatusChange
            && spec_json_str_field(history[n - 1].data@, "old_beneficiary"@) is Some
            && spec_json_str_field(history[n - 1].data@, "new_beneficiary"@) is Some {
            1int
        } else {
            0int
        }
    }
}

/// Event `e` is a status change at the change's time whose data names the
/// change's old beneficiary under "old_beneficiary" and its new beneficiary
/// under "new_beneficiary".
pub open spec fn event_records_change(e: VaultEvent, c: (Timestamp, Seq<char>, Seq<char>)) -> bool {
    &&& e.event_type == EventType::StatusChange
    &&& e.timestamp == c.0
    &&& spec_json_str_field(e.data@, "old_beneficiary"@) == Some(c.1)
    &&& spec_json_str_field(e.data@, "new_beneficiary"@) == Some(c.2)
}

/// The beneficiary changes of the report drawn from the first `n` events.
pub open spec fn report_changes(history: Seq<VaultEvent>, balance: i128, n: int) -> Seq<
    (Timestamp, Seq<char>, Seq<char>),
> {
    report_prefix(history, balance, n).1
}

/// A compliance report lists one beneficiary change for each status change
/// among the vault's events whose data names both beneficiaries.
pub proof fn law_report_change_count(history: Seq<VaultEvent>, balance: i128, n: int)
    requires
        0 <= n <= history.len(),
    ensures
        report_changes(history, balance, n).len() == recorded_party_changes(history, n),
    decreases n,
{
    if n > 0 {
        law_report_change_count(history, balance, n - 1);
    }
}

/// Each beneficiary change of a compliance report comes from one of the
/// vault's status-change events: it carries that event's time, its
/// "old_beneficiary" as the old beneficiary and its "new_beneficiary" as the
/// new one.
pub proof fn law_report_change_source(history: Seq<VaultEvent>, balance: i128, n: int, i: int)
    requires
        0 <= n <= history.len(),
        0 <= i < report_changes(history, balance, n).len(),
    ensures
        exists|j: int| 0 <= j < n && #[trigger] event_records_change(history[j], report_changes(history, balance, n)[i]),
    decreases n,
{
    if n > 0 {
        let prev = report_changes(history, balance, n - 1);
        let cur = report_changes(history, balance, n);
        if i < prev.len() {
            law_report_change_source(history, balance, n - 1, i);
            assert(cur[i] == prev[i]);
            let j = choose|j: int| 0 <= j < n - 1 && #[trigger] event_records_change(history[j], prev[i]);
            assert(event_records_change(history[j], cur[i]));
        } else {
            assert(event_records_change(history[n - 1], cur[i]));
        }
    }
}

} // verus!
