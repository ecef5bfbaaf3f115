//! Writing the accounts out, with their logins.

use vstd::prelude::*;
use vstd::string::*;

use crate::collect::{full_order, rotation_order, Credential};
use crate::errors::{error_about, is_error, ErrorCode, SwapdError};
use crate::json::{is_opt_text, is_text, Json};
use crate::slots::{lists, ProviderSlots, Slot};
use crate::text::{
    decimal, lower, lowercase, opt_is, opt_text, same, show, texts, trim, trimmed,
};
use crate::timefmt::{format_ts, rfc3339_text, whole_seconds};

verus! {

/// What a caller asks for.
#[derive(Debug)]
pub struct ExportOpts {
    /// Export this slot alone.
    pub slot: Option<u32>,
    /// Also carry the live configuration.
    pub full: bool,
}

/// What an export did.
#[derive(Debug)]
pub struct ExportOutput {
    pub schema_version: u32,
    pub path: String,
    pub accounts: usize,
    pub warnings: Vec<String>,
}

/// The slots that are exported: the one that is named, or all in rotation order.
pub fn targets(table: &ProviderSlots, provider: &str, slot: Option<u32>) -> (r: Result<
    Vec<u32>,
    SwapdError,
>)
    requires
        table.wf(),
    ensures
        if table.slots.items@.len() == 0 {
            r matches Err(e) && is_error(
                e,
                ErrorCode::InvalidInput,
                "no "@ + provider@ + " accounts to export"@,
            )
        } else {
            match slot {
                Some(n) => if table.slots@.contains_key(n) {
                    r matches Ok(v) && v@ == seq![n]
                } else {
                    r matches Err(e) && is_error(
                        e,
                        ErrorCode::NoSuchSlot,
                        "no slot "@ + decimal(n as nat) + (" for "@ + provider@),
                    )
                },
                None => r matches Ok(v) && v@ == full_order(*table),
            }
        },
{
    if table.slots.items.len() == 0 {
        return Err(
            error_about(ErrorCode::InvalidInput, "no ", provider, " accounts to export"),
        );
    }
    match slot {
        Some(n) => {
            if !table.slots.contains_key(n) {
                return Err(
                    error_about(
                        ErrorCode::NoSuchSlot,
                        "no slot ",
                        show(n as u64).as_str(),
                        " for ".to_owned().concat(provider).as_str(),
                    ),
                );
            }
            let mut v: Vec<u32> = Vec::new();
            v.push(n);
            assert(v@ =~= seq![n]);
            Ok(v)
        },
        None => Ok(rotation_order(table)),
    }
}

/// Whether a login is the account that a slot claims to hold: its own identity where it
/// has one, else the fingerprint that the slot recorded.
pub open spec fn is_account_of(login: Credential, meta: Slot) -> bool {
    match login.identity {
        Some(i) => lowercase(i.email@) == lowercase(meta.email@) && i.organization_uuid@
            == meta.organization_uuid@,
        None => opt_text(meta.fingerprint) == Some(login.fingerprint@),
    }
}

/// Whether a login is the account that a slot claims to hold.
pub fn is_same_account(login: &Credential, meta: &Slot) -> (r: bool)
    ensures
        r == is_account_of(*login, *meta),
{
    match &login.identity {
        Some(i) => same(lower(i.email.as_str()).as_str(), lower(meta.email.as_str()).as_str())
            && same(i.organization_uuid.as_str(), meta.organization_uuid.as_str()),
        None => opt_is(&meta.fingerprint, login.fingerprint.as_str()),
    }
}

/// Whether the live login is exported for a slot: the slot is active, and the login is
/// that of its account.
pub open spec fn takes_live(meta: Slot, active: bool, live: Result<Credential, String>) -> bool {
    active && (live matches Ok(l) && is_account_of(l, meta))
}

/// What is said where the live login is not exported though the slot is active.
pub open spec fn live_warning(
    slot: u32,
    meta: Slot,
    active: bool,
    live: Result<Credential, String>,
) -> Option<Seq<char>> {
    if !active || takes_live(meta, active, live) {
        None
    } else {
        match live {
            Ok(_) => Some(
                "the live login is not slot "@ + decimal(slot as nat) + " ("@ + meta.email@
                    + ") any more; exporting the stored copy"@,
            ),
            Err(why) => Some(
                "slot "@ + decimal(slot as nat) + "'s live login could not be read ("@ + why@
                    + "); exporting the stored copy"@,
            ),
        }
    }
}

/// Which login is exported for a slot: whether it is the live one, and what is said
/// where it is not though the slot is active.
///
/// The live login of the active slot is the newest, since the tool renews it in place.
/// Where it belongs to somebody else, or cannot be read, the stored copy is exported.
pub fn credential(slot: u32, meta: &Slot, active: bool, live: &Result<Credential, String>) -> (r: (
    bool,
    Option<String>,
))
    ensures
        r.0 == takes_live(*meta, active, *live),
        opt_text(r.1) == live_warning(slot, *meta, active, *live),
{
    if !active {
        return (false, None);
    }
    match live {
        Ok(l) => {
            if is_same_account(l, meta) {
                return (true, None);
            }
            (
                false,
                Some(
                    "the live login is not slot ".to_owned().concat(
                        show(slot as u64).as_str(),
                    ).concat(" (").concat(meta.email.as_str()).concat(
                        ") any more; exporting the stored copy",
                    ),
                ),
            )
        },
        Err(why) => (
            false,
            Some(
                "slot ".to_owned().concat(show(slot as u64).as_str()).concat(
                    "'s live login could not be read (",
                ).concat(why.as_str()).concat("); exporting the stored copy"),
            ),
        ),
    }
}

/// What is said of a slot without a login.
pub open spec fn missing_text(slot: u32, meta: Slot) -> Seq<char> {
    "slot "@ + decimal(slot as nat) + (" ("@ + meta.email@ + ") has no stored login"@)
}

/// What is said of a slot without a login: an error where it was named, else a warning.
pub fn missing_login(slot: u32, meta: &Slot, named: bool) -> (r: Result<String, SwapdError>)
    ensures
        named ==> (r matches Err(e) && is_error(
            e,
            ErrorCode::InvalidInput,
            missing_text(slot, *meta) + "; nothing to export"@ + ""@,
        )),
        !named ==> (r matches Ok(w) && w@ == missing_text(slot, *meta) + "; skipped"@),
{
    let reason: String = "slot ".to_owned().concat(show(slot as u64).as_str()).concat(
        " (".to_owned().concat(meta.email.as_str()).concat(") has no stored login").as_str(),
    );
    if named {
        return Err(
            error_about(ErrorCode::InvalidInput, reason.as_str(), "; nothing to export", ""),
        );
    }
    Ok(reason.concat("; skipped"))
}

/// Where the login of an exported slot comes from.
#[derive(Clone, Copy, Debug, PartialEq, Eq, Structural)]
pub enum Source {
    Live,
    Stored,
    /// There is none, and the slot is left out.
    Nowhere,
}

/// What an export does with a slot.
#[derive(Debug)]
pub struct Choice {
    pub source: Source,
    /// Whether the live configuration goes out beside it.
    pub config: bool,
    pub warnings: Vec<String>,
}

/// Whether the live configuration goes out beside a login: it is asked for, and the login
/// is the live one, which is the only one that it describes.
pub fn with_config(full: bool, from_live: bool) -> (r: bool)
    ensures
        r == (full && from_live),
{
    full && from_live
}

/// The texts that there are.
pub open spec fn present(texts: Seq<Option<Seq<char>>>) -> Seq<Seq<char>>
    decreases texts.len(),
{
    if texts.len() == 0 {
        Seq::empty()
    } else {
        let rest = present(texts.drop_last());
        match texts.last() {
            Some(t) => rest.push(t),
            None => rest,
        }
    }
}

/// What an export does with a slot, given whether its live login is taken and what was
/// said of that, and whether a login is stored for it: the live login goes out, else the
/// stored one; a slot with neither is left out with a warning, or an error where it was
/// named.
pub fn export_choice(
    slot: u32,
    meta: &Slot,
    from_live: bool,
    warning: Option<String>,
    stored: bool,
    named: bool,
    full: bool,
) -> (r: Result<Choice, SwapdError>)
    ensures
        if from_live || stored {
            r matches Ok(c) && c.source == (if from_live {
                Source::Live
            } else {
                Source::Stored
            }) && c.config == (full && from_live) && texts(c.warnings@) == present(
                seq![opt_text(warning)],
            )
        } else if named {
            r matches Err(e) && is_error(
                e,
                ErrorCode::InvalidInput,
                missing_text(slot, *meta) + "; nothing to export"@ + ""@,
            )
        } else {
            r matches Ok(c) && c.source == Source::Nowhere && !c.config && texts(c.warnings@)
                == present(
                seq![opt_text(warning), Some(missing_text(slot, *meta) + "; skipped"@)],
            )
        },
{
    let mut warnings: Vec<String> = Vec::new();
    let ghost said = opt_text(warning);
    proof {
        assert(texts(warnings@) =~= Seq::empty());
        assert(seq![said].drop_last() =~= Seq::empty());
        assert(present(seq![said].drop_last()) == Seq::<Seq<char>>::empty());
    }
    if let Some(w) = warning {
        warnings.push(w);
    }
    assert(texts(warnings@) =~= present(seq![said]));
    if from_live || stored {
        return Ok(
            Choice {
                source: if from_live {
                    Source::Live
                } else {
                    Source::Stored
                },
                config: with_config(full, from_live),
                warnings,
            },
        );
    }
    let skipped: String = match missing_login(slot, meta, named) {
        Ok(w) => w,
        Err(e) => {
            return Err(e);
        },
    };
    let ghost before = texts(warnings@);
    let ghost last = Some(skipped@);
    warnings.push(skipped);
    proof {
        assert(seq![said, last].drop_last() =~= seq![said]);
        assert(texts(warnings@) =~= before.push(last->0));
    }
    Ok(Choice { source: Source::Nowhere, config: false, warnings })
}

/// Whether named values are the entry of an account.
pub open spec fn is_entry(f: Seq<(String, Json)>, slot: u32, meta: Slot, credentials: Json) -> bool {
    &&& f.len() == 11
    &&& f[0].0@ == "slot"@ && f[0].1 == Json::Int(slot as i128)
    &&& f[1].0@ == "email"@ && is_text(f[1].1, meta.email@)
    &&& f[2].0@ == "organizationUuid"@ && is_text(f[2].1, meta.organization_uuid@)
    &&& f[3].0@ == "organizationName"@ && is_text(f[3].1, meta.organization_name@)
    &&& f[4].0@ == "plan"@ && is_opt_text(f[4].1, opt_text(meta.plan))
    &&& f[5].0@ == "alias"@ && is_opt_text(f[5].1, opt_text(meta.alias))
    &&& f[6].0@ == "icon"@ && is_opt_text(f[6].1, opt_text(meta.icon))
    &&& f[7].0@ == "disabled"@ && f[7].1 == Json::Bool(meta.disabled)
    &&& f[8].0@ == "preferred"@ && f[8].1 == Json::Bool(meta.preferred)
    &&& f[9].0@ == "added"@ && is_opt_text(f[9].1, opt_text(meta.added))
    &&& f[10].0@ == "credentials"@ && f[10].1 == credentials
}

fn text_or_null(o: &Option<String>) -> (j: Json)
    ensures
        is_opt_text(j, opt_text(*o)),
{
    match o {
        Some(s) => Json::Str(s.clone()),
        None => Json::Null,
    }
}

/// The entry of one account. A managed key is exported as it is, trimmed; any other login
/// must be an object: `parsed` is what its bytes are as JSON, where they are.
pub fn entry(slot: u32, meta: &Slot, bytes: &str, api_key: bool, parsed: Option<Json>) -> (r:
    Result<Vec<(String, Json)>, SwapdError>)
    ensures
        if api_key {
            r matches Ok(f) && f@.len() == 11 && is_entry(f@, slot, *meta, f@[10].1) && is_text(
                f@[10].1,
                trimmed(bytes@),
            )
        } else if parsed is Some && parsed->0 is Object {
            r matches Ok(f) && is_entry(f@, slot, *meta, parsed->0)
        } else {
            r matches Err(e) && is_error(
                e,
                ErrorCode::InvalidInput,
                "slot "@ + decimal(slot as nat) + (" ("@ + meta.email@
                    + ")'s stored login is neither a JSON object nor a managed key"@),
            )
        },
{
    let credentials: Option<Json> = if api_key {
        Some(Json::Str(trim(bytes)))
    } else {
        match parsed {
            Some(Json::Object(o)) => Some(Json::Object(o)),
            _ => None,
        }
    };
    match credentials {
        Some(c) => {
            let mut f: Vec<(String, Json)> = Vec::new();
            f.push(("slot".to_owned(), Json::Int(slot as i128)));
            f.push(("email".to_owned(), Json::Str(meta.email.clone())));
            f.push(("organizationUuid".to_owned(), Json::Str(meta.organization_uuid.clone())));
            f.push(("organizationName".to_owned(), Json::Str(meta.organization_name.clone())));
            f.push(("plan".to_owned(), text_or_null(&meta.plan)));
            f.push(("alias".to_owned(), text_or_null(&meta.alias)));
            f.push(("icon".to_owned(), text_or_null(&meta.icon)));
            f.push(("disabled".to_owned(), Json::Bool(meta.disabled)));
            f.push(("preferred".to_owned(), Json::Bool(meta.preferred)));
            f.push(("added".to_owned(), text_or_null(&meta.added)));
            f.push(("credentials".to_owned(), c));
            Ok(f)
        },
        None => Err(
            error_about(
                ErrorCode::InvalidInput,
                "slot ",
                show(slot as u64).as_str(),
                " (".to_owned().concat(meta.email.as_str()).concat(
                    ")'s stored login is neither a JSON object nor a managed key",
                ).as_str(),
            ),
        ),
    }
}

/// The slot that an envelope calls active: the active one, where it is exported.
pub fn exported_active(active: Option<u32>, exported: &Vec<u32>) -> (r: Option<u32>)
    ensures
        r == (match active {
            Some(n) => if exported@.contains(n) {
                Some(n)
            } else {
                None
            },
            None => None,
        }),
{
    match active {
        Some(n) => if lists(exported, n) {
            Some(n)
        } else {
            None
        },
        None => None,
    }
}

/// The head of an envelope: its format, when it was made, and the provider's section but
/// for the accounts.
#[derive(Debug)]
pub struct EnvelopeHead {
    pub format: &'static str,
    pub exported_at: Option<String>,
    pub provider: String,
    pub active_slot: Option<u32>,
}

/// The head of the envelope of an export, or the error where nothing is exported.
pub fn envelope_head(provider: &str, active: Option<u32>, exported: &Vec<u32>, now: i64) -> (r:
    Result<EnvelopeHead, SwapdError>)
    ensures
        if exported@.len() == 0 {
            r matches Err(e) && is_error(
                e,
                ErrorCode::InvalidInput,
                "no exportable "@ + provider@
                    + " accounts — every slot is missing its stored login"@,
            )
        } else {
            r matches Ok(h) && h.format@ == "swapd/1"@ && opt_text(h.exported_at) == rfc3339_text(
                whole_seconds(now),
            ) && h.provider@ == provider@ && h.active_slot == (match active {
                Some(n) => if exported@.contains(n) {
                    Some(n)
                } else {
                    None
                },
                None => None,
            })
        },
{
    if exported.len() == 0 {
        return Err(
            error_about(
                ErrorCode::InvalidInput,
                "no exportable ",
                provider,
                " accounts — every slot is missing its stored login",
            ),
        );
    }
    Ok(
        EnvelopeHead {
            format: "swapd/1",
            exported_at: format_ts(now),
            provider: provider.to_owned(),
            active_slot: exported_active(active, exported),
        },
    )
}

/// What an exported entry says, an import reads back: the members that both name hold the
/// same texts and flags.
pub proof fn law_export_is_read_back(f: Seq<(String, Json)>, slot: u32, meta: Slot, credentials: Json)
    requires
        is_entry(f, slot, meta, credentials),
        slot >= 1,
    ensures
        crate::import::slot_in(f) == Some(slot),
        crate::import::text_in(f, "organizationUuid"@) == Some(meta.organization_uuid@),
        crate::import::text_in(f, "organizationName"@) == Some(meta.organization_name@),
        crate::import::text_in(f, "alias"@) == Some(
            match meta.alias {
                Some(a) => a@,
                None => Seq::empty(),
            },
        ),
        crate::import::text_in(f, "icon"@) == Some(
            match meta.icon {
                Some(a) => a@,
                None => Seq::empty(),
            },
        ),
        crate::import::text_in(f, "plan"@) == Some(
            match meta.plan {
                Some(a) => a@,
                None => Seq::empty(),
            },
        ),
        crate::import::text_in(f, "added"@) == Some(
            match meta.added {
                Some(a) => a@,
                None => Seq::empty(),
            },
        ),
        crate::import::flag_in(f, "disabled"@) == Some(meta.disabled),
        crate::import::flag_in(f, "preferred"@) == Some(meta.preferred),
        crate::json::member(f, "credentials"@) == Some(credentials),
        crate::json::text_of(crate::json::member(f, "email"@)) == Some(meta.email@),
{
    lemma_entry_names_differ();
    reveal_with_fuel(crate::json::member, 12);
}

pub proof fn lemma_entry_names_differ()
    ensures
        "number"@.len() == 6 && "slot"@.len() == 4 && "email"@.len() == 5,
        "organizationUuid"@.len() == 16 && "organizationName"@.len() == 16,
        "organizationUuid"@[12] == 'U' && "organizationName"@[12] == 'N',
        "plan"@.len() == 4 && "alias"@.len() == 5 && "icon"@.len() == 4,
        "disabled"@.len() == 8 && "preferred"@.len() == 9 && "added"@.len() == 5,
        "credentials"@.len() == 11,
        "slot"@[0] == 's' && "plan"@[0] == 'p' && "icon"@[0] == 'i',
        "email"@[0] == 'e' && "alias"@[1] == 'l' && "added"@[1] == 'd',
        "alias"@[0] == 'a' && "added"@[0] == 'a',
{
    reveal_strlit("number");
    reveal_strlit("slot");
    reveal_strlit("email");
    reveal_strlit("organizationUuid");
    reveal_strlit("organizationName");
    reveal_strlit("plan");
    reveal_strlit("alias");
    reveal_strlit("icon");
    reveal_strlit("disabled");
    reveal_strlit("preferred");
    reveal_strlit("added");
    reveal_strlit("credentials");
}

} // verus!
