//! Vault templates, and the localized texts of notification e-mails.
use vstd::prelude::*;
use crate::models::{Locale, NotificationType, Vault, VaultStatus, VaultTemplate, VaultTemplateList};
use crate::outside::{new_uuid_string, now_timestamp};
use crate::store::VaultStore;
use crate::text::{contains_text, decimal, lemma_contains_extend, lemma_contains_middle, push_decimal};

verus! {

/// Seconds in a day.
pub const DAY_SECONDS: u64 = 86_400;

/// The check-in interval of the template with id `id`, if there is one.
pub open spec fn template_interval(id: Seq<char>) -> Option<u64> {
    if id == "simple-inheritance"@ {
        Some(2_592_000u64)
    } else if id == "family-trust"@ {
        Some(7_776_000u64)
    } else if id == "business-succession"@ {
        Some(5_184_000u64)
    } else {
        None
    }
}

/// The three vault templates: simple inheritance (30 days), family trust
/// (90 days) and business succession (60 days).
pub fn get_vault_templates() -> (r: VaultTemplateList)
    ensures
        r.templates@.len() == 3,
        r.templates@[0].id@ == "simple-inheritance"@,
        r.templates@[0].name@ == "Simple Inheritance"@,
        r.templates@[0].description@ == "Basic vault for single beneficiary inheritance"@,
        r.templates@[0].check_in_interval == 30 * DAY_SECONDS,
        r.templates@[0].recommended_for@ == "Individual asset protection"@,
        r.templates@[1].id@ == "family-trust"@,
        r.templates@[1].name@ == "Family Trust"@,
        r.templates@[1].description@ == "Multi-beneficiary vault for family wealth distribution"@,
        r.templates@[1].check_in_interval == 90 * DAY_SECONDS,
        r.templates@[1].recommended_for@ == "Family wealth management"@,
        r.templates@[2].id@ == "business-succession"@,
        r.templates@[2].name@ == "Business Succession"@,
        r.templates@[2].description@ == "Vault for business continuity and succession planning"@,
        r.templates@[2].check_in_interval == 60 * DAY_SECONDS,
        r.templates@[2].recommended_for@ == "Business asset protection"@,
{
    let mut templates: Vec<VaultTemplate> = Vec::new();
    templates.push(
        VaultTemplate {
            id: "simple-inheritance".to_owned(),
            name: "Simple Inheritance".to_owned(),
            description: "Basic vault for single beneficiary inheritance".to_owned(),
            check_in_interval: 30 * DAY_SECONDS,
            recommended_for: "Individual asset protection".to_owned(),
        },
    );
    templates.push(
        VaultTemplate {
            id: "family-trust".to_owned(),
            name: "Family Trust".to_owned(),
            description: "Multi-beneficiary vault for family wealth distribution".to_owned(),
            check_in_interval: 90 * DAY_SECONDS,
            recommended_for: "Family wealth management".to_owned(),
        },
    );
    templates.push(
        VaultTemplate {
            id: "business-succession".to_owned(),
            name: "Business Succession".to_owned(),
            description: "Vault for business continuity and succession planning".to_owned(),
            check_in_interval: 60 * DAY_SECONDS,
            recommended_for: "Business asset protection".to_owned(),
        },
    );
    VaultTemplateList { templates }
}

/// The templates' ids are distinct, so a template id names one template.
proof fn lemma_template_ids_distinct()
    ensures
        "simple-inheritance"@ != "family-trust"@,
        "simple-inheritance"@ != "business-succession"@,
        "family-trust"@ != "business-succession"@,
{
    reveal_strlit("simple-inheritance");
    reveal_strlit("family-trust");
    reveal_strlit("business-succession");
    assert("simple-inheritance"@.len() != "family-trust"@.len());
    assert("simple-inheritance"@.len() != "business-succession"@.len());
    assert("family-trust"@.len() != "business-succession"@.len());
}

/// Create a vault from the template `template_id` for `owner` and
/// `beneficiary`, with a fresh id, an empty balance, the template's check-in
/// interval as its remaining TTL, and store it.
pub fn create_vault_from_template(
    store: &mut VaultStore,
    template_id: &str,
    owner: String,
    beneficiary: String,
) -> (r: Result<Vault, String>)
    requires
        old(store).vaults.wf(),
    ensures
        final(store).vaults.wf(),
        r is Ok <==> template_interval(template_id@).is_some(),
        r matches Err(e) ==> e@ == "Template not found"@ && final(store).vaults@ == old(store).vaults@,
        r matches Ok(v) ==> {
            &&& v.owner == owner
            &&& v.beneficiary == beneficiary
            &&& v.balance == 0
            &&& Some(v.check_in_interval) == template_interval(template_id@)
            &&& v.ttl_remaining == Some(v.check_in_interval)
            &&& v.status == VaultStatus::Active
            &&& v.id@.len() == 36
            &&& v.id@[8] == '-' && v.id@[13] == '-' && v.id@[18] == '-' && v.id@[23] == '-'
            &&& v.id@[14] == '4'
            &&& final(store).vaults@ == old(store).vaults@.insert(v.id@, v)
        },
{
    let templates = get_vault_templates();
    proof {
        lemma_template_ids_distinct();
    }
    let id = template_id.to_owned();
    let mut found: Option<u64> = None;
    let mut i: usize = 0;
    while i < templates.templates.len()
        invariant
            templates.templates@.len() == 3,
            templates.templates@[0].id@ == "simple-inheritance"@,
            templates.templates@[0].check_in_interval == 30 * DAY_SECONDS,
            templates.templates@[1].id@ == "family-trust"@,
            templates.templates@[1].check_in_interval == 90 * DAY_SECONDS,
            templates.templates@[2].id@ == "business-succession"@,
            templates.templates@[2].check_in_interval == 60 * DAY_SECONDS,
            id@ == template_id@,
            0 <= i <= 3,
            found.is_none() ==> forall|j: int| 0 <= j < i ==> templates.templates@[j].id@ != id@,
            found matches Some(c) ==> found == template_interval(id@),
            found.is_some() ==> i == 3,
        decreases 3 - i,
    {
        if templates.templates[i].id == id {
            found = Some(templates.templates[i].check_in_interval);
            i = 3;
        } else {
            i = i + 1;
        }
    }
    let interval = match found {
        Some(c) => c,
        None => {
            return Err("Template not found".to_owned());
        },
    };
    let vault_id = new_uuid_string();
    let last_check_in = now_timestamp();
    let created_at = now_timestamp();
    let vault = Vault {
        id: vault_id,
        owner,
        beneficiary,
        balance: 0,
        check_in_interval: interval,
        last_check_in,
        created_at,
        status: VaultStatus::Active,
        ttl_remaining: Some(interval),
    };
    store.insert(vault.id.clone(), vault.duplicate());
    Ok(vault)
}

// ── localized e-mail texts ──────────────────────────────────────────────────

/// The locale to write in: English unless another is chosen.
pub open spec fn locale_or_english(locale: Option<Locale>) -> Locale {
    match locale {
        Some(l) => l,
        None => Locale::En,
    }
}

pub fn resolve_locale(locale: &Option<Locale>) -> (l: Locale)
    ensures
        l == locale_or_english(*locale),
{
    match locale {
        Some(l) => *l,
        None => Locale::En,
    }
}

/// The subject line of a notification.
pub open spec fn subject_text(l: Locale, nt: NotificationType) -> Seq<char> {
    match (l, nt) {
        (Locale::En, NotificationType::ExpiryWarning) => "Your vault is expiring soon"@,
        (Locale::En, NotificationType::CheckInReminder) => "Time to check in to your vault"@,
        (Locale::En, NotificationType::VaultReleased) => "Your vault has been released"@,
        (Locale::En, NotificationType::VaultPaused) => "Your vault has been paused"@,
        (Locale::Es, NotificationType::ExpiryWarning) => "Tu bóveda está por vencer"@,
        (Locale::Es, NotificationType::CheckInReminder) => "Es hora de registrarte en tu bóveda"@,
        (Locale::Es, NotificationType::VaultReleased) => "Tu bóveda ha sido liberada"@,
        (Locale::Es, NotificationType::VaultPaused) => "Tu bóveda ha sido pausada"@,
        (Locale::Fr, NotificationType::ExpiryWarning) => "Votre coffre expire bientôt"@,
        (Locale::Fr, NotificationType::CheckInReminder) => "Il est temps de vous enregistrer"@,
        (Locale::Fr, NotificationType::VaultReleased) => "Votre coffre a été libéré"@,
        (Locale::Fr, NotificationType::VaultPaused) => "Votre coffre a été mis en pause"@,
        (Locale::De, NotificationType::ExpiryWarning) => "Ihr Tresor läuft bald ab"@,
        (Locale::De, NotificationType::CheckInReminder) => "Zeit für Ihren Check-in"@,
        (Locale::De, NotificationType::VaultReleased) => "Ihr Tresor wurde freigegeben"@,
        (Locale::De, NotificationType::VaultPaused) => "Ihr Tresor wurde pausiert"@,
    }
}

/// The subject line of a notification in the chosen locale (English by default).
pub fn email_subject(notification_type: &NotificationType, locale: &Option<Locale>) -> (s: &'static str)
    ensures
        s@ == subject_text(locale_or_english(*locale), *notification_type),
{
    match (resolve_locale(locale), notification_type) {
        (Locale::En, NotificationType::ExpiryWarning) => "Your vault is expiring soon",
        (Locale::En, NotificationType::CheckInReminder) => "Time to check in to your vault",
        (Locale::En, NotificationType::VaultReleased) => "Your vault has been released",
        (Locale::En, NotificationType::VaultPaused) => "Your vault has been paused",
        (Locale::Es, NotificationType::ExpiryWarning) => "Tu bóveda está por vencer",
        (Locale::Es, NotificationType::CheckInReminder) => "Es hora de registrarte en tu bóveda",
        (Locale::Es, NotificationType::VaultReleased) => "Tu bóveda ha sido liberada",
        (Locale::Es, NotificationType::VaultPaused) => "Tu bóveda ha sido pausada",
        (Locale::Fr, NotificationType::ExpiryWarning) => "Votre coffre expire bientôt",
        (Locale::Fr, NotificationType::CheckInReminder) => "Il est temps de vous enregistrer",
        (Locale::Fr, NotificationType::VaultReleased) => "Votre coffre a été libéré",
        (Locale::Fr, NotificationType::VaultPaused) => "Votre coffre a été mis en pause",
        (Locale::De, NotificationType::ExpiryWarning) => "Ihr Tresor läuft bald ab",
        (Locale::De, NotificationType::CheckInReminder) => "Zeit für Ihren Check-in",
        (Locale::De, NotificationType::VaultReleased) => "Ihr Tresor wurde freigegeben",
        (Locale::De, NotificationType::VaultPaused) => "Ihr Tresor wurde pausiert",
    }
}

/// The hours an expiry warning names: the given number, 24 by default.
pub open spec fn warning_hours(hours_remaining: Option<u64>) -> u64 {
    match hours_remaining {
        Some(h) => h,
        None => 24,
    }
}

/// The text around the vault id (and hours) of a notification body:
/// `(before id, between id and hours, after hours)`; texts without hours have
/// everything after the id in the second part and nothing in the third.
pub open spec fn body_parts(l: Locale, nt: NotificationType) -> (Seq<char>, Seq<char>, Seq<char>) {
    match (l, nt) {
        (Locale::En, NotificationType::ExpiryWarning) => (
            "Your vault "@,
            " expires in approximately "@,
            " hours. Check in now to keep it active."@,
        ),
        (Locale::En, NotificationType::CheckInReminder) => (
            "Please check in to your vault "@,
            " to keep it active."@,
            ""@,
        ),
        (Locale::En, NotificationType::VaultReleased) => (
            "Vault "@,
            " has been released to the designated beneficiary."@,
            ""@,
        ),
        (Locale::En, NotificationType::VaultPaused) => ("Vault "@, " has been paused."@, ""@),
        (Locale::Es, NotificationType::ExpiryWarning) => (
            "Tu bóveda "@,
            " vence en aproximadamente "@,
            " horas. Regístrate ahora para mantenerla activa."@,
        ),
        (Locale::Es, NotificationType::CheckInReminder) => (
            "Por favor regístrate en tu bóveda "@,
            " para mantenerla activa."@,
            ""@,
        ),
        (Locale::Es, NotificationType::VaultReleased) => (
            "La bóveda "@,
            " ha sido liberada al beneficiario designado."@,
            ""@,
        ),
        (Locale::Es, NotificationType::VaultPaused) => ("La bóveda "@, " ha sido pausada."@, ""@),
        (Locale::Fr, NotificationType::ExpiryWarning) => (
            "Votre coffre "@,
            " expire dans environ "@,
            " heures. Enregistrez-vous maintenant."@,
        ),
        (Locale::Fr, NotificationType::CheckInReminder) => (
            "Veuillez vous enregistrer dans votre coffre "@,
            " pour le maintenir actif."@,
            ""@,
        ),
        (Locale::Fr, NotificationType::VaultReleased) => (
            "Le coffre "@,
            " a été libéré au bénéficiaire désigné."@,
            ""@,
        ),
        (Locale::Fr, NotificationType::VaultPaused) => ("Le coffre "@, " a été mis en pause."@, ""@),
        (Locale::De, NotificationType::ExpiryWarning) => (
            "Ihr Tresor "@,
            " läuft in etwa "@,
            " Stunden ab. Melden Sie sich jetzt an."@,
        ),
        (Locale::De, NotificationType::CheckInReminder) => (
            "Bitte melden Sie sich bei Ihrem Tresor "@,
            " an, um ihn aktiv zu halten."@,
            ""@,
        ),
        (Locale::De, NotificationType::VaultReleased) => (
            "Tresor "@,
            " wurde an den designierten Begünstigten freigegeben."@,
            ""@,
        ),
        (Locale::De, NotificationType::VaultPaused) => ("Tresor "@, " wurde pausiert."@, ""@),
    }
}

/// The body of a notification about `vault_id`; expiry warnings also name the
/// hours remaining.
pub open spec fn body_text(
    l: Locale,
    nt: NotificationType,
    vault_id: Seq<char>,
    hours_remaining: Option<u64>,
) -> Seq<char> {
    let p = body_parts(l, nt);
    if nt == NotificationType::ExpiryWarning {
        p.0 + vault_id + p.1 + decimal(warning_hours(hours_remaining) as nat) + p.2
    } else {
        p.0 + vault_id + p.1
    }
}

/// The body of a notification in the chosen locale (English by default).
pub fn email_body(
    notification_type: &NotificationType,
    locale: &Option<Locale>,
    vault_id: &str,
    hours_remaining: Option<u64>,
) -> (s: String)
    ensures
        s@ == body_text(
            locale_or_english(*locale),
            *notification_type,
            vault_id@,
            hours_remaining,
        ),
{
    let (before, after_id, after_hours): (&str, &str, &str) = match (
        resolve_locale(locale),
        notification_type,
    ) {
        (Locale::En, NotificationType::ExpiryWarning) => (
            "Your vault ",
            " expires in approximately ",
            " hours. Check in now to keep it active.",
        ),
        (Locale::En, NotificationType::CheckInReminder) => (
            "Please check in to your vault ",
            " to keep it active.",
            "",
        ),
        (Locale::En, NotificationType::VaultReleased) => (
            "Vault ",
            " has been released to the designated beneficiary.",
            "",
        ),
        (Locale::En, NotificationType::VaultPaused) => ("Vault ", " has been paused.", ""),
        (Locale::Es, NotificationType::ExpiryWarning) => (
            "Tu bóveda ",
            " vence en aproximadamente ",
            " horas. Regístrate ahora para mantenerla activa.",
        ),
        (Locale::Es, NotificationType::CheckInReminder) => (
            "Por favor regístrate en tu bóveda ",
            " para mantenerla activa.",
            "",
        ),
        (Locale::Es, NotificationType::VaultReleased) => (
            "La bóveda ",
            " ha sido liberada al beneficiario designado.",
            "",
        ),
        (Locale::Es, NotificationType::VaultPaused) => ("La bóveda ", " ha sido pausada.", ""),
        (Locale::Fr, NotificationType::ExpiryWarning) => (
            "Votre coffre ",
            " expire dans environ ",
            " heures. Enregistrez-vous maintenant.",
        ),
        (Locale::Fr, NotificationType::CheckInReminder) => (
            "Veuillez vous enregistrer dans votre coffre ",
            " pour le maintenir actif.",
            "",
        ),
        (Locale::Fr, NotificationType::VaultReleased) => (
            "Le coffre ",
            " a été libéré au bénéficiaire désigné.",
            "",
        ),
        (Locale::Fr, NotificationType::VaultPaused) => ("Le coffre ", " a été mis en pause.", ""),
        (Locale::De, NotificationType::ExpiryWarning) => (
            "Ihr Tresor ",
            " läuft in etwa ",
            " Stunden ab. Melden Sie sich jetzt an.",
        ),
        (Locale::De, NotificationType::CheckInReminder) => (
            "Bitte melden Sie sich bei Ihrem Tresor ",
            " an, um ihn aktiv zu halten.",
            "",
        ),
        (Locale::De, NotificationType::VaultReleased) => (
            "Tresor ",
            " wurde an den designierten Begünstigten freigegeben.",
            "",
        ),
        (Locale::De, NotificationType::VaultPaused) => ("Tresor ", " wurde pausiert.", ""),
    };
    let mut s = before.to_owned();
    s.append(vault_id);
    s.append(after_id);
    if *notification_type == NotificationType::ExpiryWarning {
        let h = match hours_remaining {
            Some(h) => h,
            None => 24,
        };
        push_decimal(&mut s, h as u128);
        s.append(after_hours);
    }
    s
}

/// Without a chosen locale, notifications are written in English.
pub proof fn law_english_is_default(nt: NotificationType, vault_id: Seq<char>, hours: Option<u64>)
    ensures
        subject_text(locale_or_english(None), nt) == subject_text(Locale::En, nt),
        body_text(locale_or_english(None), nt, vault_id, hours) == body_text(
            Locale::En,
            nt,
            vault_id,
            hours,
        ),
{
}

/// Every notification body names its vault.
pub proof fn law_body_names_vault(
    l: Locale,
    nt: NotificationType,
    vault_id: Seq<char>,
    hours: Option<u64>,
)
    ensures
        contains_text(body_text(l, nt, vault_id, hours), vault_id),
{
    let p = body_parts(l, nt);
    if nt == NotificationType::ExpiryWarning {
        let rest = p.1 + decimal(warning_hours(hours) as nat) + p.2;
        lemma_contains_middle(p.0, vault_id, rest);
        assert(body_text(l, nt, vault_id, hours) =~= p.0 + vault_id + rest);
    } else {
        lemma_contains_middle(p.0, vault_id, p.1);
    }
}

/// An expiry warning names the hours remaining, 24 when none are given.
pub proof fn law_expiry_body_names_hours(l: Locale, vault_id: Seq<char>, hours: Option<u64>)
    ensures
        contains_text(
            body_text(l, NotificationType::ExpiryWarning, vault_id, hours),
            decimal(warning_hours(hours) as nat),
        ),
{
    let p = body_parts(l, NotificationType::ExpiryWarning);
    let d = decimal(warning_hours(hours) as nat);
    lemma_contains_middle(p.0 + vault_id + p.1, d, p.2);
}

/// Every notification has a subject in every locale.
pub proof fn law_subject_not_empty(l: Locale, nt: NotificationType)
    ensures
        subject_text(l, nt).len() > 0,
{
    reveal_strlit("Your vault is expiring soon");
    reveal_strlit("Time to check in to your vault");
    reveal_strlit("Your vault has been released");
    reveal_strlit("Your vault has been paused");
    reveal_strlit("Tu bóveda está por vencer");
    reveal_strlit("Es hora de registrarte en tu bóveda");
    reveal_strlit("Tu bóveda ha sido liberada");
    reveal_strlit("Tu bóveda ha sido pausada");
    reveal_strlit("Votre coffre expire bientôt");
    reveal_strlit("Il est temps de vous enregistrer");
    reveal_strlit("Votre coffre a été libéré");
    reveal_strlit("Votre coffre a été mis en pause");
    reveal_strlit("Ihr Tresor läuft bald ab");
    reveal_strlit("Zeit für Ihren Check-in");
    reveal_strlit("Ihr Tresor wurde freigegeben");
    reveal_strlit("Ihr Tresor wurde pausiert");
}

} // verus!
