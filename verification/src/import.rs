//! Reading an export back in.
//!
//! Everything is validated before anything is written, and what becomes of every
//! account is decided before the first is. An account that its slot already holds keeps
//! its stored login, unless the file's is provably newer.

use vstd::prelude::*;
use vstd::string::*;

use crate::errors::{error_about, is_error, ErrorCode, SwapdError};
use crate::json::{
    as_unsigned, member, member_of, member_text, set_member, take_member, text_of, unsigned_of, Json,
};
use crate::numfmt::{show_slots, slot_list};
use crate::slots::{ProviderSlots, Slot};
use crate::split::{pieces, split, Sep};
use crate::table::Table;
use crate::text::{
    chars_of, copy_opt, decimal, has_char, opt_text, same, same_opt, show, texts, trim, trimmed,
};

verus! {

/// What an import did.
#[derive(Debug)]
pub struct ImportResult {
    pub imported: Vec<u32>,
    /// Slots that held the account, and whose login the file replaced.
    pub refreshed: Vec<u32>,
    /// Slots that held the account, kept their login, and took the file's labels.
    pub updated: Vec<u32>,
    pub skipped: Vec<Skipped>,
    /// The slot that the file called active. It is never activated.
    pub active_slot: Option<u32>,
}

/// An account that was left alone, and why.
#[derive(Debug)]
pub struct Skipped {
    pub slot: u32,
    pub email: String,
    pub reason: String,
}

/// An error about input.
pub open spec fn is_invalid<T>(r: Result<T, SwapdError>, message: Seq<char>) -> bool {
    r matches Err(e) && is_error(e, ErrorCode::InvalidInput, message)
}

fn invalid(message: &str) -> (e: SwapdError)
    ensures
        is_error(e, ErrorCode::InvalidInput, message@),
{
    SwapdError::new(ErrorCode::InvalidInput, message.to_owned())
}

/// What is wrong with the form of a file, if anything: it is encrypted, of another
/// format or version, or no export.
pub open spec fn format_problem(envelope: Seq<(String, Json)>) -> Option<Seq<char>> {
    if member(envelope, "encrypted"@) == Some(Json::Bool(true)) {
        Some("encrypted exports are not supported — decrypt before piping"@)
    } else {
        match text_of(member(envelope, "format"@)) {
            Some(f) => if f == "swapd/1"@ {
                None
            } else {
                Some("unsupported export format: "@ + f + ""@)
            },
            None => match unsigned_of(member(envelope, "version"@)) {
                Some(v) => if v == 1 {
                    None
                } else {
                    Some("unsupported export version: "@ + decimal(v as nat) + ""@)
                },
                None => Some("not an export: expected a 'format' or 'version' member"@),
            },
        }
    }
}

/// Accepts the two forms of a file, and refuses any other by name.
pub fn check_format(envelope: &Table<Json>) -> (r: Result<(), SwapdError>)
    ensures
        match format_problem(envelope.items@) {
            Some(m) => is_invalid(r, m),
            None => r is Ok,
        },
{
    let encrypted: bool = match member_of(envelope, "encrypted") {
        Some(Json::Bool(b)) => *b,
        _ => false,
    };
    if encrypted {
        return Err(invalid("encrypted exports are not supported — decrypt before piping"));
    }
    if let Some(f) = member_text(envelope, "format") {
        if same(f.as_str(), "swapd/1") {
            return Ok(());
        }
        return Err(
            error_about(ErrorCode::InvalidInput, "unsupported export format: ", f.as_str(), ""),
        );
    }
    match as_unsigned(member_of(envelope, "version")) {
        Some(v) => {
            if v == 1 {
                return Ok(());
            }
            Err(
                error_about(
                    ErrorCode::InvalidInput,
                    "unsupported export version: ",
                    show(v).as_str(),
                    "",
                ),
            )
        },
        None => Err(invalid("not an export: expected a 'format' or 'version' member")),
    }
}

/// The slot that an envelope or a section calls active, under either name.
pub open spec fn active_in(items: Seq<(String, Json)>) -> Option<u32> {
    let named = match member(items, "activeSlot"@) {
        Some(j) => Some(j),
        None => member(items, "activeAccountNumber"@),
    };
    match unsigned_of(named) {
        Some(n) => if n <= u32::MAX {
            Some(n as u32)
        } else {
            None
        },
        None => None,
    }
}

/// The slot that an envelope or a section calls active.
pub fn active_slot(items: &Table<Json>) -> (r: Option<u32>)
    ensures
        r == active_in(items.items@),
{
    let named: Option<&Json> = match member_of(items, "activeSlot") {
        Some(j) => Some(j),
        None => member_of(items, "activeAccountNumber"),
    };
    match as_unsigned(named) {
        Some(n) => if n <= 0xffff_ffff {
            Some(n as u32)
        } else {
            None
        },
        None => None,
    }
}

/// Whether a value is the section of a provider.
pub open spec fn is_section(j: Json, provider: Seq<char>) -> bool {
    j matches Json::Object(o) && text_of(member(o.items@, "provider"@)) == Some(provider)
}

/// The first section of a provider.
pub open spec fn section_for(list: Seq<Json>, provider: Seq<char>) -> Option<Json>
    decreases list.len(),
{
    if list.len() == 0 {
        None
    } else if is_section(list[0], provider) {
        Some(list[0])
    } else {
        section_for(list.drop_first(), provider)
    }
}

fn find_section<'a>(list: &'a Vec<Json>, provider: &str) -> (r: Option<&'a Table<Json>>)
    ensures
        r is Some == section_for(list@, provider@) is Some,
        r matches Some(o) ==> section_for(list@, provider@) == Some(Json::Object(*o)),
{
    let mut i: usize = 0;
    assert(list@.skip(0) =~= list@);
    while i < list.len()
        invariant
            i <= list.len(),
            section_for(list@, provider@) == section_for(list@.skip(i as int), provider@),
        decreases list.len() - i,
    {
        assert(list@.skip(i as int)[0] == list@[i as int]);
        assert(list@.skip(i as int).drop_first() =~= list@.skip(i + 1));
        if let Json::Object(o) = &list[i] {
            let ours: bool = match member_text(o, "provider") {
                Some(p) => same(p.as_str(), provider),
                None => false,
            };
            if ours {
                return Some(o);
            }
        }
        i += 1;
    }
    None
}

/// The accounts of a file for a provider, with the slot that it calls active, or what is
/// wrong: a flat list counts for every provider, a grouped file is read by section.
pub open spec fn accounts_in(envelope: Seq<(String, Json)>, provider: Seq<char>) -> Result<
    (Vec<Json>, Option<u32>),
    Seq<char>,
> {
    match member(envelope, "accounts"@) {
        Some(Json::List(flat)) => if flat@.len() == 0 {
            Err("export file has no accounts to import"@)
        } else {
            Ok((flat, active_in(envelope)))
        },
        _ => match member(envelope, "providers"@) {
            Some(Json::List(list)) => match section_for(list@, provider) {
                Some(Json::Object(s)) => match member(s.items@, "accounts"@) {
                    Some(Json::List(accounts)) => if accounts@.len() == 0 {
                        Err("export file has no accounts to import"@)
                    } else {
                        Ok((accounts, active_in(s.items@)))
                    },
                    _ => Err("the "@ + provider + " section has no accounts"@),
                },
                _ => Err("export file carries no "@ + provider + " accounts"@),
            },
            _ => Err("export file has no accounts to import"@),
        },
    }
}

/// The accounts of a file for a provider, and the slot that it calls active.
pub fn accounts_for<'a>(envelope: &'a Table<Json>, provider: &str) -> (r: Result<
    (&'a Vec<Json>, Option<u32>),
    SwapdError,
>)
    ensures
        match accounts_in(envelope.items@, provider@) {
            Ok(x) => r matches Ok(y) && *y.0 == x.0 && y.1 == x.1,
            Err(m) => is_invalid(r, m),
        },
{
    if let Some(Json::List(flat)) = member_of(envelope, "accounts") {
        if flat.len() == 0 {
            return Err(invalid("export file has no accounts to import"));
        }
        return Ok((flat, active_slot(envelope)));
    }
    let list: &Vec<Json> = match member_of(envelope, "providers") {
        Some(Json::List(list)) => list,
        _ => {
            return Err(invalid("export file has no accounts to import"));
        },
    };
    let section: &Table<Json> = match find_section(list, provider) {
        Some(s) => s,
        None => {
            return Err(
                error_about(
                    ErrorCode::InvalidInput,
                    "export file carries no ",
                    provider,
                    " accounts",
                ),
            );
        },
    };
    match member_of(section, "accounts") {
        Some(Json::List(accounts)) => {
            if accounts.len() == 0 {
                return Err(invalid("export file has no accounts to import"));
            }
            Ok((accounts, active_slot(section)))
        },
        _ => Err(
            error_about(
                ErrorCode::InvalidInput,
                "the ",
                provider,
                " section has no accounts",
            ),
        ),
    }
}

/// Where a file holds the accounts of a provider.
#[derive(Clone, Copy, Debug, PartialEq, Eq, Structural)]
pub enum Place {
    /// In one list for all.
    Flat,
    /// In the section at this position.
    Section(usize),
}

/// Where a file holds the accounts that `accounts_for` answers with; `None` where it
/// holds none.
pub fn place_of_accounts(envelope: &Table<Json>, provider: &str) -> (r: Option<Place>)
    ensures
        r is Some <==> accounts_in(envelope.items@, provider@) is Ok,
        r == Some(Place::Flat) ==> (member(envelope.items@, "accounts"@) matches Some(Json::List(l))
            && accounts_in(envelope.items@, provider@)->Ok_0.0 == l),
        r matches Some(Place::Section(i)) ==> (member(envelope.items@, "providers"@) matches Some(
            Json::List(l),
        ) && i < l@.len() && (l@[i as int] matches Json::Object(s) && (member(
            s.items@,
            "accounts"@,
        ) matches Some(Json::List(a)) && accounts_in(envelope.items@, provider@)->Ok_0.0 == a))),
{
    match accounts_for(envelope, provider) {
        Ok(_) => {},
        Err(_) => {
            return None;
        },
    }
    if let Some(Json::List(_)) = member_of(envelope, "accounts") {
        return Some(Place::Flat);
    }
    if let Some(Json::List(list)) = member_of(envelope, "providers") {
        let mut i: usize = 0;
        assert(list@.skip(0) =~= list@);
        while i < list.len()
            invariant
                i <= list.len(),
                section_for(list@.skip(i as int), provider@) == section_for(list@, provider@),
                member(envelope.items@, "providers"@) == Some(Json::List(*list)),
                !(member(envelope.items@, "accounts"@) matches Some(Json::List(_))),
                accounts_in(envelope.items@, provider@) is Ok,
            decreases list.len() - i,
        {
            assert(list@.skip(i as int)[0] == list@[i as int]);
            assert(list@.skip(i as int).drop_first() =~= list@.skip(i + 1));
            if let Json::Object(o) = &list[i] {
                let ours: bool = match member_text(o, "provider") {
                    Some(p) => same(p.as_str(), provider),
                    None => false,
                };
                if ours {
                    return Some(Place::Section(i));
                }
            }
            i += 1;
        }
    }
    None
}

/// Whether a text has the structure of an address: one at sign, something before it, a
/// dot behind it that is neither first nor last, and none of the characters of paths.
pub open spec fn is_address(email: Seq<char>) -> bool {
    let parts = pieces(email, Sep::Is('@'));
    &&& parts.len() == 2
    &&& parts[0].len() > 0
    &&& parts[1].contains('.')
    &&& parts[1][0] != '.'
    &&& parts[1].last() != '.'
    &&& !email.contains('/')
    &&& !email.contains('\\')
    &&& !email.contains(' ')
    &&& !email.contains(':')
}

/// Whether a text can be the address of an account: enough that it cannot be a path or a
/// name, and no more.
pub fn valid_email(email: &str) -> (r: bool)
    ensures
        r == is_address(email@),
{
    let parts: Vec<String> = split(email, Sep::Is('@'));
    assert(texts(parts@).len() == parts@.len());
    if parts.len() != 2 {
        return false;
    }
    assert(texts(parts@)[0] == parts@[0]@ && texts(parts@)[1] == parts@[1]@);
    if parts[0].as_str().is_empty() || !has_char(parts[1].as_str(), '.') {
        return false;
    }
    let domain: Vec<char> = chars_of(parts[1].as_str());
    let n: usize = domain.len();
    assert(n > 0) by {
        let i = choose|i: int| 0 <= i < parts@[1]@.len() && parts@[1]@[i] == '.';
    }
    domain[0] != '.' && domain[n - 1] != '.' && !has_char(email, '/') && !has_char(email, '\\')
        && !has_char(email, ' ') && !has_char(email, ':')
}

/// What is stored for an imported account: a managed key as it is, or the credential
/// object with the account beside it.
#[derive(Debug)]
pub enum ImportLogin {
    Key(String),
    Object(Table<Json>),
}

/// One validated account, ready to write.
#[derive(Debug)]
pub struct Entry {
    pub slot: u32,
    pub email: String,
    pub organization_uuid: String,
    pub organization_name: String,
    pub alias: Option<String>,
    pub icon: Option<String>,
    pub plan: Option<String>,
    pub disabled: bool,
    pub preferred: bool,
    pub added: Option<String>,
    pub login: ImportLogin,
}

/// The address of an account.
pub open spec fn email_in(account: Seq<(String, Json)>) -> Option<Seq<char>> {
    match text_of(member(account, "email"@)) {
        Some(e) => if is_address(trimmed(e)) {
            Some(trimmed(e))
        } else {
            None
        },
        None => None,
    }
}

/// The slot of an account, under either name.
pub open spec fn slot_in(account: Seq<(String, Json)>) -> Option<u32> {
    let named = match member(account, "number"@) {
        Some(j) => Some(j),
        None => member(account, "slot"@),
    };
    match unsigned_of(named) {
        Some(n) => if 1 <= n <= u32::MAX {
            Some(n as u32)
        } else {
            None
        },
        None => None,
    }
}

/// A text of an account: empty where it is missing, an error where it is something else.
pub open spec fn text_in(account: Seq<(String, Json)>, key: Seq<char>) -> Option<Seq<char>> {
    match member(account, key) {
        None => Some(Seq::empty()),
        Some(Json::Null) => Some(Seq::empty()),
        Some(Json::Str(s)) => Some(s@),
        _ => None,
    }
}

/// A flag of an account: false where it is missing, an error where it is something else.
pub open spec fn flag_in(account: Seq<(String, Json)>, key: Seq<char>) -> Option<bool> {
    match member(account, key) {
        None => Some(false),
        Some(Json::Null) => Some(false),
        Some(Json::Bool(b)) => Some(b),
        _ => None,
    }
}

/// A text, or nothing where it is empty.
pub open spec fn unless_empty(s: Seq<char>) -> Option<Seq<char>> {
    if s.len() == 0 {
        None
    } else {
        Some(s)
    }
}

/// The account object that an export carries beside the credential.
pub open spec fn account_beside(account: Seq<(String, Json)>) -> Option<Json> {
    match member(account, "config"@) {
        Some(Json::Object(c)) => match member(c.items@, "oauthAccount"@) {
            Some(Json::Object(o)) => Some(Json::Object(o)),
            _ => None,
        },
        _ => None,
    }
}

/// What is wrong with the credential of an account; `key_ok` says whether a text is a
/// managed key.
pub open spec fn credential_problem(
    account: Seq<(String, Json)>,
    email: Seq<char>,
    key_ok: bool,
) -> Option<Seq<char>> {
    match member(account, "credentials"@) {
        Some(Json::Str(_)) => if key_ok {
            None
        } else {
            Some("string credentials for "@ + email + " must be a raw managed API key"@)
        },
        Some(Json::Object(_)) => None,
        _ => Some("credentials for "@ + email + " must be a JSON object or a raw API key"@),
    }
}

/// Whether a login is that of an account: the trimmed key, or the credential object with
/// the account beside it, where there is one.
pub open spec fn is_login(login: ImportLogin, account: Seq<(String, Json)>) -> bool {
    match member(account, "credentials"@) {
        Some(Json::Str(s)) => login matches ImportLogin::Key(k) && k@ == trimmed(s@),
        Some(Json::Object(c)) => login matches ImportLogin::Object(o) && forall|k: Seq<char>|
         #[trigger]
            member(o.items@, k) == if k == "oauthAccount"@ && account_beside(account) is Some {
                account_beside(account)
            } else {
                member(c.items@, k)
            },
        _ => false,
    }
}

/// Whether an account of a file comes with an account beside it, which is put into its
/// login.
pub fn has_account_beside(raw: &Json) -> (r: bool)
    ensures
        r == (raw matches Json::Object(o) && account_beside(o.items@) is Some),
{
    if let Json::Object(o) = raw {
        if let Some(Json::Object(c)) = member_of(o, "config") {
            if let Some(Json::Object(_)) = member_of(c, "oauthAccount") {
                return true;
            }
        }
    }
    false
}

/// What is wrong with an account, in the order in which it is looked for.
pub open spec fn account_problem(account: Seq<(String, Json)>, key_ok: bool) -> Option<Seq<char>> {
    match email_in(account) {
        None => Some("invalid or missing email in imported account"@),
        Some(email) => if slot_in(account) is None {
            Some("invalid or missing slot number for "@ + email + ""@)
        } else if text_in(account, "organizationUuid"@) is None {
            Some(not_text("organizationUuid"@, email))
        } else if text_in(account, "organizationName"@) is None {
            Some(not_text("organizationName"@, email))
        } else if text_in(account, "added"@) is None {
            Some(not_text("added"@, email))
        } else if text_in(account, "alias"@) is None {
            Some(not_text("alias"@, email))
        } else if text_in(account, "icon"@) is None {
            Some(not_text("icon"@, email))
        } else if text_in(account, "plan"@) is None {
            Some(not_text("plan"@, email))
        } else if flag_in(account, "disabled"@) is None {
            Some(not_flag("disabled"@, email))
        } else if flag_in(account, "preferred"@) is None {
            Some(not_flag("preferred"@, email))
        } else {
            credential_problem(account, email, key_ok)
        },
    }
}

/// What is said of a member that is no text.
pub open spec fn not_text(key: Seq<char>, email: Seq<char>) -> Seq<char> {
    key + " for "@ + (email + " must be a string"@)
}

/// What is said of a member that is no flag.
pub open spec fn not_flag(key: Seq<char>, email: Seq<char>) -> Seq<char> {
    key + " for "@ + (email + " must be true or false"@)
}

/// Whether an entry is that of an account.
pub open spec fn is_entry(e: Entry, account: Seq<(String, Json)>) -> bool {
    &&& Some(e.email@) == email_in(account)
    &&& Some(e.slot) == slot_in(account)
    &&& Some(e.organization_uuid@) == text_in(account, "organizationUuid"@)
    &&& Some(e.organization_name@) == text_in(account, "organizationName"@)
    &&& opt_text(e.added) == unless_empty(text_in(account, "added"@)->0)
    &&& opt_text(e.alias) == unless_empty(trimmed(text_in(account, "alias"@)->0))
    &&& opt_text(e.icon) == unless_empty(trimmed(text_in(account, "icon"@)->0))
    &&& opt_text(e.plan) == unless_empty(text_in(account, "plan"@)->0)
    &&& Some(e.disabled) == flag_in(account, "disabled"@)
    &&& Some(e.preferred) == flag_in(account, "preferred"@)
    &&& is_login(e.login, account)
}

fn read_text(account: &Table<Json>, key: &str, email: &str) -> (r: Result<String, SwapdError>)
    ensures
        match text_in(account.items@, key@) {
            Some(t) => r matches Ok(s) && s@ == t,
            None => is_invalid(r, not_text(key@, email@)),
        },
{
    match member_of(account, key) {
        None => Ok(String::new()),
        Some(Json::Null) => Ok(String::new()),
        Some(Json::Str(s)) => Ok(s.clone()),
        Some(_) => Err(
            error_about(
                ErrorCode::InvalidInput,
                key,
                " for ",
                email.to_owned().concat(" must be a string").as_str(),
            ),
        ),
    }
}

fn read_flag(account: &Table<Json>, key: &str, email: &str) -> (r: Result<bool, SwapdError>)
    ensures
        match flag_in(account.items@, key@) {
            Some(b) => r == Ok::<bool, SwapdError>(b),
            None => is_invalid(r, not_flag(key@, email@)),
        },
{
    match member_of(account, key) {
        None => Ok(false),
        Some(Json::Null) => Ok(false),
        Some(Json::Bool(b)) => Ok(*b),
        Some(_) => Err(
            error_about(
                ErrorCode::InvalidInput,
                key,
                " for ",
                email.to_owned().concat(" must be true or false").as_str(),
            ),
        ),
    }
}

fn some_text(s: String) -> (r: Option<String>)
    ensures
        opt_text(r) == unless_empty(s@),
{
    if s.as_str().is_empty() {
        None
    } else {
        Some(s)
    }
}

/// The trimmed text credential of an account, where it has one: the driver is asked
/// whether it is a managed key.
pub fn string_credential(raw: &Json) -> (r: Option<String>)
    ensures
        opt_text(r) == (match raw {
            Json::Object(o) => match text_of(member(o.items@, "credentials"@)) {
                Some(s) => Some(trimmed(s)),
                None => None,
            },
            _ => None,
        }),
{
    match raw {
        Json::Object(o) => match member_text(o, "credentials") {
            Some(s) => Some(trim(s.as_str())),
            None => None,
        },
        _ => None,
    }
}

/// The credential of an account: a managed key, or the credential object with the
/// account beside it, so that the slot has an identity of its own.
fn login_of(account: Table<Json>, email: &str, key_ok: bool) -> (r: Result<ImportLogin, SwapdError>)
    requires
        crate::json::unique(account.items@),
    ensures
        match credential_problem(account.items@, email@, key_ok) {
            Some(m) => is_invalid(r, m),
            None => r matches Ok(login) && is_login(login, account.items@),
        },
{
    proof {
        reveal_strlit("credentials");
        reveal_strlit("config");
        assert("credentials"@.len() == 11 && "config"@.len() == 6);
    }
    let mut account: Table<Json> = account;
    match take_member(&mut account, "credentials") {
        Some(Json::Str(s)) => {
            if !key_ok {
                return Err(
                    error_about(
                        ErrorCode::InvalidInput,
                        "string credentials for ",
                        email,
                        " must be a raw managed API key",
                    ),
                );
            }
            Ok(ImportLogin::Key(trim(s.as_str())))
        },
        Some(Json::Object(c)) => {
            let mut credentials: Table<Json> = c;
            if let Some(Json::Object(mut config)) = take_member(&mut account, "config") {
                if let Some(Json::Object(o)) = take_member(&mut config, "oauthAccount") {
                    set_member(&mut credentials, "oauthAccount", Json::Object(o));
                }
            }
            Ok(ImportLogin::Object(credentials))
        },
        _ => Err(
            error_about(
                ErrorCode::InvalidInput,
                "credentials for ",
                email,
                " must be a JSON object or a raw API key",
            ),
        ),
    }
}

/// One account of a file, validated whole.
pub fn validate(raw: Json, key_ok: bool) -> (r: Result<Entry, SwapdError>)
    requires
        raw matches Json::Object(o) ==> crate::json::unique(o.items@),
    ensures
        match raw {
            Json::Object(o) => match account_problem(o.items@, key_ok) {
                Some(m) => is_invalid(r, m),
                None => r matches Ok(e) && is_entry(e, o.items@),
            },
            _ => is_invalid(r, "account entry must be a JSON object"@),
        },
{
    let account: Table<Json> = match raw {
        Json::Object(o) => o,
        _ => {
            return Err(invalid("account entry must be a JSON object"));
        },
    };
    let email: String = match member_text(&account, "email") {
        Some(e) => trim(e.as_str()),
        None => {
            return Err(invalid("invalid or missing email in imported account"));
        },
    };
    if !valid_email(email.as_str()) {
        return Err(invalid("invalid or missing email in imported account"));
    }
    let named: Option<&Json> = match member_of(&account, "number") {
        Some(j) => Some(j),
        None => member_of(&account, "slot"),
    };
    let slot: u32 = match as_unsigned(named) {
        Some(n) => if 1 <= n && n <= 0xffff_ffff {
            n as u32
        } else {
            return Err(
                error_about(
                    ErrorCode::InvalidInput,
                    "invalid or missing slot number for ",
                    email.as_str(),
                    "",
                ),
            );
        },
        None => {
            return Err(
                error_about(
                    ErrorCode::InvalidInput,
                    "invalid or missing slot number for ",
                    email.as_str(),
                    "",
                ),
            );
        },
    };
    let organization_uuid: String = match read_text(&account, "organizationUuid", email.as_str()) {
        Ok(t) => t,
        Err(e) => {
            return Err(e);
        },
    };
    let organization_name: String = match read_text(&account, "organizationName", email.as_str()) {
        Ok(t) => t,
        Err(e) => {
            return Err(e);
        },
    };
    let added: String = match read_text(&account, "added", email.as_str()) {
        Ok(t) => t,
        Err(e) => {
            return Err(e);
        },
    };
    let alias: String = match read_text(&account, "alias", email.as_str()) {
        Ok(t) => trim(t.as_str()),
        Err(e) => {
            return Err(e);
        },
    };
    let icon: String = match read_text(&account, "icon", email.as_str()) {
        Ok(t) => trim(t.as_str()),
        Err(e) => {
            return Err(e);
        },
    };
    let plan: String = match read_text(&account, "plan", email.as_str()) {
        Ok(t) => t,
        Err(e) => {
            return Err(e);
        },
    };
    let disabled: bool = match read_flag(&account, "disabled", email.as_str()) {
        Ok(b) => b,
        Err(e) => {
            return Err(e);
        },
    };
    let preferred: bool = match read_flag(&account, "preferred", email.as_str()) {
        Ok(b) => b,
        Err(e) => {
            return Err(e);
        },
    };
    let login: ImportLogin = match login_of(account, email.as_str(), key_ok) {
        Ok(l) => l,
        Err(e) => {
            return Err(e);
        },
    };
    Ok(
        Entry {
            slot,
            email,
            organization_uuid,
            organization_name,
            alias: some_text(alias),
            icon: some_text(icon),
            plan: some_text(plan),
            disabled,
            preferred,
            added: some_text(added),
            login,
        },
    )
}

/// What is wrong with a list of accounts: the first that names a slot that one before it
/// names.
pub open spec fn named_twice(entries: Seq<Entry>) -> Option<Seq<char>>
    decreases entries.len(),
{
    if entries.len() == 0 {
        None
    } else {
        match named_twice(entries.drop_last()) {
            Some(m) => Some(m),
            None => {
                let last = entries.last();
                match last_on(entries.drop_last(), last.slot) {
                    Some(email) => Some(
                        "export names slot "@ + decimal(last.slot as nat) + (" twice ("@ + email
                            + ", "@ + last.email@ + ")"@),
                    ),
                    None => None,
                }
            },
        }
    }
}

/// The address of the last account on a slot.
pub open spec fn last_on(entries: Seq<Entry>, slot: u32) -> Option<Seq<char>>
    decreases entries.len(),
{
    if entries.len() == 0 {
        None
    } else if entries.last().slot == slot {
        Some(entries.last().email@)
    } else {
        last_on(entries.drop_last(), slot)
    }
}

proof fn lemma_named_twice_stays(entries: Seq<Entry>, n: int)
    requires
        0 <= n <= entries.len(),
        named_twice(entries.take(n)) is Some,
    ensures
        named_twice(entries) == named_twice(entries.take(n)),
    decreases entries.len() - n,
{
    if n == entries.len() {
        assert(entries.take(n) =~= entries);
    } else {
        assert(entries.take(n + 1).drop_last() =~= entries.take(n));
        lemma_named_twice_stays(entries, n + 1);
    }
}

/// Checks that no two accounts of a file name one slot.
pub fn check_slots(entries: &Vec<Entry>) -> (r: Result<(), SwapdError>)
    ensures
        match named_twice(entries@) {
            Some(m) => is_invalid(r, m),
            None => r is Ok,
        },
{
    let mut i: usize = 0;
    assert(entries@.take(0) =~= Seq::empty());
    while i < entries.len()
        invariant
            i <= entries.len(),
            named_twice(entries@.take(i as int)) is None,
        decreases entries.len() - i,
    {
        let ghost part = entries@.take(i as int);
        assert(entries@.take(i + 1).drop_last() =~= part);
        let slot: u32 = entries[i].slot;
        let mut k: usize = i;
        assert(part.take(i as int) =~= part);
        while k > 0
            invariant
                k <= i < entries.len(),
                part == entries@.take(i as int),
                entries@.take(i + 1).drop_last() == part,
                entries@.take(i + 1).last() == entries@[i as int],
                named_twice(part) is None,
                slot == entries@[i as int].slot,
                last_on(part, slot) == last_on(part.take(k as int), slot),
            decreases k,
        {
            assert(part.take(k as int).drop_last() =~= part.take(k - 1));
            assert(part.take(k as int).last() == entries@[k - 1]);
            if entries[k - 1].slot == slot {
                proof {
                    lemma_named_twice_stays(entries@, i + 1);
                }
                return Err(
                    error_about(
                        ErrorCode::InvalidInput,
                        "export names slot ",
                        show(slot as u64).as_str(),
                        " twice (".to_owned().concat(entries[k - 1].email.as_str()).concat(
                            ", ",
                        ).concat(entries[i].email.as_str()).concat(")").as_str(),
                    ),
                );
            }
            k -= 1;
        }
        assert(part.take(0) =~= Seq::empty());
        i += 1;
    }
    assert(entries@.take(entries@.len() as int) =~= entries@);
    Ok(())
}

/// What becomes of an account of a file.
#[derive(Clone, Copy, Debug, PartialEq, Eq, Structural)]
pub enum Fate {
    /// Login and row from the file.
    New,
    /// The slot's account, with a newer login in the file: both are rewritten.
    Refresh,
    /// The slot's account: the login stays, the labels come from the file.
    Update,
    /// The slot's account, and nothing differs.
    Skip,
}

/// Whether the labels and choices of an account differ from those of a row.
pub open spec fn labels_differ(e: Entry, s: Slot) -> bool {
    opt_text(e.alias) != opt_text(s.alias) || opt_text(e.icon) != opt_text(s.icon) || e.disabled
        != s.disabled || e.preferred != s.preferred
}

impl Entry {
    /// Whether the labels and choices differ from those of a row.
    pub fn metadata_differs(&self, slot: &Slot) -> (r: bool)
        ensures
            r == labels_differ(*self, *slot),
    {
        !same_opt(&self.alias, &slot.alias) || !same_opt(&self.icon, &slot.icon) || self.disabled
            != slot.disabled || self.preferred != slot.preferred
    }

    /// Whether a row is that of the account.
    pub open spec fn is_account_of(&self, s: Slot) -> bool {
        crate::text::lowercase(s.email@) == crate::text::lowercase(self.email@) && (
        self.organization_uuid@.len() == 0 || s.organization_uuid@ == self.organization_uuid@)
    }

    /// Whether a row is that of the account.
    pub fn owns(&self, s: &Slot) -> (r: bool)
        ensures
            r == self.is_account_of(*s),
    {
        same(
            crate::text::lower(s.email.as_str()).as_str(),
            crate::text::lower(self.email.as_str()).as_str(),
        ) && (self.organization_uuid.as_str().is_empty() || same(
            s.organization_uuid.as_str(),
            self.organization_uuid.as_str(),
        ))
    }
}

/// What is said of a slot that another account holds.
pub open spec fn occupied(slot: u32, s: Slot) -> Seq<char> {
    "slot "@ + decimal(slot as nat) + (" holds "@ + s.email@ + " ("@ + (
    if s.organization_uuid@.len() == 0 {
        "personal"@
    } else {
        s.organization_uuid@
    }) + "); pass --force to overwrite it"@)
}

/// What becomes of an account, or why the import is refused. `newer` says whether the
/// stored login is missing or provably older than the file's.
pub open spec fn fate_of(e: Entry, slots: Map<u32, Slot>, newer: bool, force: bool) -> Result<
    Fate,
    Seq<char>,
> {
    if !slots.contains_key(e.slot) || force {
        Ok(Fate::New)
    } else {
        let s = slots[e.slot];
        if !e.is_account_of(s) {
            Err(occupied(e.slot, s))
        } else if newer {
            Ok(Fate::Refresh)
        } else if labels_differ(e, s) {
            Ok(Fate::Update)
        } else {
            Ok(Fate::Skip)
        }
    }
}

/// What becomes of an account of a file.
pub fn decide(e: &Entry, slots: &ProviderSlots, newer: bool, force: bool) -> (r: Result<
    Fate,
    SwapdError,
>)
    requires
        slots.wf(),
    ensures
        match fate_of(*e, slots.slots@, newer, force) {
            Ok(f) => r == Ok::<Fate, SwapdError>(f),
            Err(m) => is_invalid(r, m),
        },
{
    let s: &Slot = match slots.slots.get(e.slot) {
        Some(s) => s,
        None => {
            return Ok(Fate::New);
        },
    };
    if force {
        return Ok(Fate::New);
    }
    if !e.owns(s) {
        let org: &str = if s.organization_uuid.as_str().is_empty() {
            "personal"
        } else {
            s.organization_uuid.as_str()
        };
        return Err(
            error_about(
                ErrorCode::InvalidInput,
                "slot ",
                show(e.slot as u64).as_str(),
                " holds ".to_owned().concat(s.email.as_str()).concat(" (").concat(org).concat(
                    "); pass --force to overwrite it",
                ).as_str(),
            ),
        );
    }
    if newer {
        Ok(Fate::Refresh)
    } else if e.metadata_differs(s) {
        Ok(Fate::Update)
    } else {
        Ok(Fate::Skip)
    }
}

/// What becomes of the accounts of a file, in turn; the first refusal refuses all.
pub open spec fn fates_of(
    entries: Seq<Entry>,
    slots: Map<u32, Slot>,
    newer: Seq<bool>,
    force: bool,
) -> Result<Seq<Fate>, Seq<char>>
    decreases entries.len(),
{
    if entries.len() == 0 {
        Ok(Seq::empty())
    } else {
        match fates_of(entries.drop_last(), slots, newer, force) {
            Err(m) => Err(m),
            Ok(fates) => match fate_of(entries.last(), slots, newer[entries.len() - 1], force) {
                Ok(f) => Ok(fates.push(f)),
                Err(m) => Err(m),
            },
        }
    }
}

proof fn lemma_refusal_stays(
    entries: Seq<Entry>,
    slots: Map<u32, Slot>,
    newer: Seq<bool>,
    force: bool,
    n: int,
)
    requires
        0 <= n <= entries.len(),
        fates_of(entries.take(n), slots, newer, force) is Err,
    ensures
        fates_of(entries, slots, newer, force) == fates_of(entries.take(n), slots, newer, force),
    decreases entries.len() - n,
{
    if n == entries.len() {
        assert(entries.take(n) =~= entries);
    } else {
        assert(entries.take(n + 1).drop_last() =~= entries.take(n));
        lemma_refusal_stays(entries, slots, newer, force, n + 1);
    }
}

/// What becomes of the accounts of a file. A refusal comes before anything is written.
pub fn decide_all(entries: &Vec<Entry>, slots: &ProviderSlots, newer: &Vec<bool>, force: bool) -> (r:
    Result<Vec<Fate>, SwapdError>)
    requires
        slots.wf(),
        newer@.len() == entries@.len(),
    ensures
        match fates_of(entries@, slots.slots@, newer@, force) {
            Ok(fates) => r matches Ok(v) && v@ == fates,
            Err(m) => is_invalid(r, m),
        },
        r matches Ok(v) ==> v@.len() == entries@.len() && forall|i: int|
            0 <= i < v@.len() && (#[trigger] v@[i]) is Update ==> slots.slots@.contains_key(
                entries@[i].slot,
            ),
{
    let mut fates: Vec<Fate> = Vec::new();
    let mut i: usize = 0;
    assert(entries@.take(0) =~= Seq::empty());
    while i < entries.len()
        invariant
            i <= entries.len(),
            slots.wf(),
            newer@.len() == entries@.len(),
            fates_of(entries@.take(i as int), slots.slots@, newer@, force) == Ok::<
                Seq<Fate>,
                Seq<char>,
            >(fates@),
            fates@.len() == i,
            forall|k: int|
                0 <= k < i && (#[trigger] fates@[k]) is Update ==> slots.slots@.contains_key(
                    entries@[k].slot,
                ),
        decreases entries.len() - i,
    {
        assert(entries@.take(i + 1).drop_last() =~= entries@.take(i as int));
        match decide(&entries[i], slots, newer[i], force) {
            Ok(f) => {
                fates.push(f);
            },
            Err(e) => {
                proof {
                    lemma_refusal_stays(entries@, slots.slots@, newer@, force, i + 1);
                }
                return Err(e);
            },
        }
        i += 1;
    }
    assert(entries@.take(entries@.len() as int) =~= entries@);
    Ok(fates)
}

/// The row of an account, given the row that stands there and the fingerprint of the
/// login in the file.
pub open spec fn imported_row(e: Entry, fate: Fate, occupant: Option<Slot>, print: String) -> Slot {
    if fate is Update {
        Slot {
            alias: e.alias,
            icon: e.icon,
            disabled: e.disabled,
            preferred: e.preferred,
            ..occupant->0
        }
    } else {
        Slot {
            email: e.email,
            organization_uuid: e.organization_uuid,
            organization_name: e.organization_name,
            plan: e.plan,
            alias: e.alias,
            icon: e.icon,
            disabled: e.disabled,
            preferred: e.preferred,
            auto_ignite: false,
            added: e.added,
            fingerprint: Some(print),
        }
    }
}

/// Whether a row is the one that is written for an account, given the row that stood
/// there, whatever the fingerprint of its login.
pub open spec fn is_row(r: Slot, e: Entry, fate: Fate, occupant: Option<Slot>) -> bool {
    exists|print: String| r == #[trigger] imported_row(e, fate, occupant, print)
}

/// The row that is written for an account. One whose login stays keeps the row, but for
/// the labels and choices; any other is made of the file.
pub fn row_of(e: &Entry, fate: Fate, occupant: Option<&Slot>, fingerprint: &str) -> (r: Slot)
    requires
        fate is Update ==> occupant is Some,
    ensures
        is_row(
            r,
            *e,
            fate,
            match occupant {
                Some(s) => Some(*s),
                None => None,
            },
        ),
        !(fate is Update) ==> opt_text(r.fingerprint) == Some(fingerprint@),
{
    if fate == Fate::Update {
        if let Some(s) = occupant {
            let mut row: Slot = s.clone();
            row.alias = copy_opt(&e.alias);
            row.icon = copy_opt(&e.icon);
            row.disabled = e.disabled;
            row.preferred = e.preferred;
            proof {
                let print: String = arbitrary();
                assert(row == imported_row(*e, fate, Some(*s), print));
            }
            return row;
        }
    }
    let print: String = fingerprint.to_owned();
    let row: Slot = Slot {
        email: e.email.clone(),
        organization_uuid: e.organization_uuid.clone(),
        organization_name: e.organization_name.clone(),
        plan: copy_opt(&e.plan),
        alias: copy_opt(&e.alias),
        icon: copy_opt(&e.icon),
        disabled: e.disabled,
        preferred: e.preferred,
        auto_ignite: false,
        added: copy_opt(&e.added),
        fingerprint: Some(print),
    };
    assert(row == imported_row(
        *e,
        fate,
        match occupant {
            Some(s) => Some(*s),
            None => None,
        },
        print,
    ));
    row
}

/// What is said when a login could not be stored: what was imported before it.
pub fn store_failure(code: ErrorCode, slot: u32, why: &str, imported: &Vec<u32>) -> (e: SwapdError)
    ensures
        is_error(
            e,
            code,
            "slot "@ + decimal(slot as nat) + ("'s credential could not be stored ("@ + why@
                + "); "@ + (if imported@.len() == 0 {
                "nothing was imported"@
            } else {
                "already imported: "@ + slot_list(imported@)
            })),
        ),
{
    let tail: String = if imported.len() == 0 {
        "nothing was imported".to_owned()
    } else {
        "already imported: ".to_owned().concat(show_slots(imported).as_str())
    };
    error_about(
        code,
        "slot ",
        show(slot as u64).as_str(),
        "'s credential could not be stored (".to_owned().concat(why).concat("); ").concat(
            tail.as_str(),
        ).as_str(),
    )
}

/// The slots of the accounts of a fate.
pub open spec fn with_fate(entries: Seq<Entry>, fates: Seq<Fate>, fate: Fate) -> Seq<u32>
    decreases fates.len(),
{
    if fates.len() == 0 {
        Seq::empty()
    } else {
        let rest = with_fate(entries, fates.drop_last(), fate);
        if fates.last() == fate {
            rest.push(entries[fates.len() - 1].slot)
        } else {
            rest
        }
    }
}

fn slots_with(entries: &Vec<Entry>, fates: &Vec<Fate>, fate: Fate) -> (r: Vec<u32>)
    requires
        entries@.len() == fates@.len(),
    ensures
        r@ == with_fate(entries@, fates@, fate),
{
    let mut r: Vec<u32> = Vec::new();
    let mut i: usize = 0;
    assert(fates@.take(0) =~= Seq::empty());
    while i < fates.len()
        invariant
            i <= fates.len(),
            entries@.len() == fates@.len(),
            r@ == with_fate(entries@, fates@.take(i as int), fate),
        decreases fates.len() - i,
    {
        assert(fates@.take(i + 1).drop_last() =~= fates@.take(i as int));
        if fates[i] == fate {
            r.push(entries[i].slot);
        }
        i += 1;
    }
    assert(fates@.take(fates@.len() as int) =~= fates@);
    r
}

/// The accounts with a fate, in the order of the file.
pub open spec fn entries_with(entries: Seq<Entry>, fates: Seq<Fate>, fate: Fate) -> Seq<Entry>
    decreases fates.len(),
{
    if fates.len() == 0 {
        Seq::empty()
    } else {
        let rest = entries_with(entries, fates.drop_last(), fate);
        if fates.last() == fate {
            rest.push(entries[fates.len() - 1])
        } else {
            rest
        }
    }
}

/// Whether what is said of skipped accounts is said of these.
pub open spec fn tells_skipped(skipped: Seq<Skipped>, entries: Seq<Entry>) -> bool {
    skipped.len() == entries.len() && forall|i: int|
        0 <= i < skipped.len() ==> (#[trigger] skipped[i]).slot == entries[i].slot
            && skipped[i].email@ == entries[i].email@ && skipped[i].reason@ == "already-present"@
}

/// What an import that stored every login did.
pub fn import_result(entries: &Vec<Entry>, fates: &Vec<Fate>, active_slot: Option<u32>) -> (r:
    ImportResult)
    requires
        entries@.len() == fates@.len(),
    ensures
        r.imported@ == with_fate(entries@, fates@, Fate::New),
        r.refreshed@ == with_fate(entries@, fates@, Fate::Refresh),
        r.updated@ == with_fate(entries@, fates@, Fate::Update),
        tells_skipped(r.skipped@, entries_with(entries@, fates@, Fate::Skip)),
        r.active_slot == active_slot,
{
    let mut skipped: Vec<Skipped> = Vec::new();
    let mut i: usize = 0;
    assert(fates@.take(0) =~= Seq::empty());
    while i < fates.len()
        invariant
            i <= fates.len(),
            entries@.len() == fates@.len(),
            tells_skipped(skipped@, entries_with(entries@, fates@.take(i as int), Fate::Skip)),
        decreases fates.len() - i,
    {
        assert(fates@.take(i + 1).drop_last() =~= fates@.take(i as int));
        if fates[i] == Fate::Skip {
            skipped.push(
                Skipped {
                    slot: entries[i].slot,
                    email: entries[i].email.clone(),
                    reason: "already-present".to_owned(),
                },
            );
        }
        i += 1;
    }
    assert(fates@.take(fates@.len() as int) =~= fates@);
    ImportResult {
        imported: slots_with(entries, fates, Fate::New),
        refreshed: slots_with(entries, fates, Fate::Refresh),
        updated: slots_with(entries, fates, Fate::Update),
        skipped,
        active_slot,
    }
}

/// The row of a slot, where it has one.
pub open spec fn row_at(slots: Map<u32, Slot>, n: u32) -> Option<Slot> {
    if slots.contains_key(n) {
        Some(slots[n])
    } else {
        None
    }
}

/// The slots after the first `n` accounts of a file landed: each has its row, and one
/// that is skipped changes nothing.
pub open spec fn imported_slots(
    slots: Map<u32, Slot>,
    entries: Seq<Entry>,
    fates: Seq<Fate>,
    prints: Seq<String>,
    n: int,
) -> Map<u32, Slot>
    decreases n,
{
    if n <= 0 {
        slots
    } else {
        let rest = imported_slots(slots, entries, fates, prints, n - 1);
        let e = entries[n - 1];
        if fates[n - 1] is Skip {
            rest
        } else {
            rest.insert(
                e.slot,
                imported_row(e, fates[n - 1], row_at(slots, e.slot), prints[n - 1]),
            )
        }
    }
}

/// The rotation after the first `n` accounts of a file landed: new slots come last.
pub open spec fn imported_order(
    order: Seq<u32>,
    entries: Seq<Entry>,
    fates: Seq<Fate>,
    n: int,
) -> Seq<u32>
    decreases n,
{
    if n <= 0 {
        order
    } else {
        let rest = imported_order(order, entries, fates, n - 1);
        if fates[n - 1] is Skip || rest.contains(entries[n - 1].slot) {
            rest
        } else {
            rest.push(entries[n - 1].slot)
        }
    }
}

/// Rows put in one after the other.
pub open spec fn with_rows(slots: Map<u32, Slot>, rows: Seq<(u32, Slot)>) -> Map<u32, Slot>
    decreases rows.len(),
{
    if rows.len() == 0 {
        slots
    } else {
        with_rows(slots, rows.drop_last()).insert(rows.last().0, rows.last().1)
    }
}

/// Numbers listed one after the other, each where it is not yet.
pub open spec fn with_numbers(order: Seq<u32>, rows: Seq<(u32, Slot)>) -> Seq<u32>
    decreases rows.len(),
{
    if rows.len() == 0 {
        order
    } else {
        let rest = with_numbers(order, rows.drop_last());
        if rest.contains(rows.last().0) {
            rest
        } else {
            rest.push(rows.last().0)
        }
    }
}

/// The rows of the first `landed` accounts.
fn landed_rows(
    slots: &ProviderSlots,
    entries: &Vec<Entry>,
    fates: &Vec<Fate>,
    prints: &Vec<String>,
    landed: usize,
) -> (rows: Vec<(u32, Slot)>)
    requires
        slots.wf(),
        landed <= entries@.len(),
        landed <= fates@.len(),
        landed <= prints@.len(),
        forall|i: int|
            0 <= i < landed && (#[trigger] fates@[i]) is Update ==> slots.slots@.contains_key(
                entries@[i].slot,
            ),
    ensures
        with_rows(slots.slots@, rows@) == imported_slots(
            slots.slots@,
            entries@,
            fates@,
            prints@,
            landed as int,
        ),
        with_numbers(slots.order@, rows@) == imported_order(
            slots.order@,
            entries@,
            fates@,
            landed as int,
        ),
        rows@.len() == 0 <==> forall|i: int| 0 <= i < landed ==> (#[trigger] fates@[i]) is Skip,
{
    let mut rows: Vec<(u32, Slot)> = Vec::new();
    let mut i: usize = 0;
    while i < landed
        invariant
            i <= landed,
            slots.wf(),
            landed <= entries@.len(),
            landed <= fates@.len(),
            landed <= prints@.len(),
            forall|k: int|
                0 <= k < landed && (#[trigger] fates@[k]) is Update ==> slots.slots@.contains_key(
                    entries@[k].slot,
                ),
            with_rows(slots.slots@, rows@) == imported_slots(
                slots.slots@,
                entries@,
                fates@,
                prints@,
                i as int,
            ),
            with_numbers(slots.order@, rows@) == imported_order(
                slots.order@,
                entries@,
                fates@,
                i as int,
            ),
            rows@.len() == 0 <==> forall|k: int| 0 <= k < i ==> (#[trigger] fates@[k]) is Skip,
        decreases landed - i,
    {
        let fate: Fate = fates[i];
        if fate != Fate::Skip {
            let e: &Entry = &entries[i];
            let occupant: Option<&Slot> = slots.slots.get(e.slot);
            let mut row: Slot = row_of(e, fate, occupant, prints[i].as_str());
            if fate != Fate::Update {
                row.fingerprint = Some(prints[i].clone());
            }
            assert(row == imported_row(*e, fate, row_at(slots.slots@, e.slot), prints@[i as int]));
            let ghost before = rows@;
            rows.push((e.slot, row));
            assert(rows@.drop_last() =~= before);
            assert(!(fates@[i as int] is Skip));
        }
        i += 1;
    }
    rows
}

/// Writes the rows of the first `landed` accounts of a file, as their fates were decided
/// on the slots as they stand: an import whose store fails stops there, and what landed
/// before is kept. Answers whether anything was written.
pub fn apply_rows(
    slots: &mut ProviderSlots,
    entries: &Vec<Entry>,
    fates: &Vec<Fate>,
    prints: &Vec<String>,
    landed: usize,
) -> (r: bool)
    requires
        old(slots).wf(),
        landed <= entries@.len(),
        landed <= fates@.len(),
        landed <= prints@.len(),
        forall|i: int|
            0 <= i < landed && (#[trigger] fates@[i]) is Update ==> old(slots).slots@.contains_key(
                entries@[i].slot,
            ),
    ensures
        final(slots).wf(),
        final(slots).slots@ == imported_slots(
            old(slots).slots@,
            entries@,
            fates@,
            prints@,
            landed as int,
        ),
        final(slots).order@ == imported_order(
            old(slots).order@,
            entries@,
            fates@,
            landed as int,
        ),
        final(slots).active_slot == old(slots).active_slot,
        !r <==> forall|i: int| 0 <= i < landed ==> (#[trigger] fates@[i]) is Skip,
{
    let rows: Vec<(u32, Slot)> = landed_rows(slots, entries, fates, prints, landed);
    let ghost all = rows@;
    let mut i: usize = 0;
    assert(all.take(0) =~= Seq::empty());
    while i < rows.len()
        invariant
            i <= rows.len(),
            all == rows@,
            slots.wf(),
            slots.slots@ == with_rows(old(slots).slots@, all.take(i as int)),
            slots.order@ == with_numbers(old(slots).order@, all.take(i as int)),
            slots.active_slot == old(slots).active_slot,
        decreases rows.len() - i,
    {
        assert(all.take(i + 1).drop_last() =~= all.take(i as int));
        slots.insert(rows[i].0, rows[i].1.clone());
        i += 1;
    }
    assert(all.take(all.len() as int) =~= all);
    rows.len() > 0
}

/// What a file says nothing of stays: a slot that none of its accounts names has the row
/// that it had.
pub proof fn law_import_leaves_other_slots(
    slots: Map<u32, Slot>,
    entries: Seq<Entry>,
    fates: Seq<Fate>,
    prints: Seq<String>,
    landed: int,
    n: u32,
)
    requires
        landed <= entries.len(),
        forall|i: int| 0 <= i < landed ==> (#[trigger] entries[i]).slot != n,
    ensures
        imported_slots(slots, entries, fates, prints, landed).contains_key(n)
            == slots.contains_key(n),
        imported_slots(slots, entries, fates, prints, landed)[n] == slots[n],
    decreases landed,
{
    if landed > 0 {
        law_import_leaves_other_slots(slots, entries, fates, prints, landed - 1, n);
        assert(entries[landed - 1].slot != n);
    }
}

/// Every account that landed has its row, where the file names no slot twice.
pub proof fn law_every_account_that_landed_has_its_row(
    slots: Map<u32, Slot>,
    entries: Seq<Entry>,
    fates: Seq<Fate>,
    prints: Seq<String>,
    landed: int,
    i: int,
)
    requires
        0 <= i < landed <= entries.len(),
        forall|a: int, b: int|
            0 <= a < b < entries.len() ==> (#[trigger] entries[a]).slot != (
            #[trigger] entries[b]).slot,
    ensures
        ({
            let after = imported_slots(slots, entries, fates, prints, landed);
            let e = entries[i];
            if fates[i] is Skip {
                after.contains_key(e.slot) == slots.contains_key(e.slot) && after[e.slot]
                    == slots[e.slot]
            } else {
                after.contains_key(e.slot) && after[e.slot] == imported_row(
                    e,
                    fates[i],
                    row_at(slots, e.slot),
                    prints[i],
                )
            }
        }),
    decreases landed,
{
    if i < landed - 1 {
        law_every_account_that_landed_has_its_row(slots, entries, fates, prints, landed - 1, i);
        assert(entries[i].slot != entries[landed - 1].slot);
    } else {
        assert forall|a: int| 0 <= a < landed - 1 implies (#[trigger] entries[a]).slot
            != entries[i].slot by {
            assert(entries[a].slot != entries[i].slot);
        }
        law_import_leaves_other_slots(slots, entries, fates, prints, landed - 1, entries[i].slot);
    }
}

/// Without force, an import never writes a login over one that it cannot prove older,
/// nor over that of another account.
pub proof fn law_import_replaces_no_newer_login(
    e: Entry,
    slots: Map<u32, Slot>,
    newer: bool,
)
    requires
        slots.contains_key(e.slot),
        !newer,
    ensures
        fate_of(e, slots, newer, false) matches Ok(f) ==> f is Update || f is Skip,
{
}

/// A second import of the same file changes nothing: an account that was imported, or
/// was there and took the file's labels, is skipped while its login is not older.
pub proof fn law_second_import_skips(
    e: Entry,
    before: Map<u32, Slot>,
    newer: bool,
    force: bool,
    row: Slot,
)
    requires
        fate_of(e, before, newer, force) is Ok,
        !(fate_of(e, before, newer, force)->Ok_0 is Skip),
        is_row(
            row,
            e,
            fate_of(e, before, newer, force)->Ok_0,
            if before.contains_key(e.slot) {
                Some(before[e.slot])
            } else {
                None
            },
        ),
    ensures
        fate_of(e, before.insert(e.slot, row), false, false) == Ok::<Fate, Seq<char>>(Fate::Skip),
        fate_of(e, before.insert(e.slot, row), false, true) == Ok::<Fate, Seq<char>>(Fate::New),
{
}

} // verus!
