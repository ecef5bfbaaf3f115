//! Registering a raw token: what kind it is, which slot and address it gets.

use vstd::prelude::*;
use vstd::string::*;

use crate::add::{alias_problem, check_alias};
use crate::errors::{error_about, is_error, ErrorCode, SwapdError};
use crate::import::{is_address, valid_email};
use crate::json::{is_text, Json};
use crate::slots::{by_email, first_with, has_email, lemma_first_with_stays, ProviderSlots};
use crate::table::Table;
use crate::text::{decimal, lower, lowercase, opt_str, same, show, trim, trimmed};

verus! {

/// What a caller asks for.
#[derive(Debug)]
pub struct AddTokenOpts {
    pub slot: Option<u32>,
    pub email: Option<String>,
    pub alias: Option<String>,
    pub force: bool,
}

/// What kind of credential a token is.
#[derive(Clone, Copy, Debug, PartialEq, Eq, Structural)]
pub enum TokenKind {
    ApiKey,
    Oauth,
}

impl TokenKind {
    /// The label that an address is made of.
    pub open spec fn text(self) -> Seq<char> {
        match self {
            TokenKind::ApiKey => "api-key"@,
            TokenKind::Oauth => "setup-token"@,
        }
    }

    /// The label that an address is made of.
    pub fn label(self) -> (r: &'static str)
        ensures
            r@ == self.text(),
    {
        match self {
            TokenKind::ApiKey => "api-key",
            TokenKind::Oauth => "setup-token",
        }
    }
}

/// The address of a token that names none.
pub open spec fn default_address(kind: TokenKind, slot: u32) -> Seq<char> {
    kind.text() + "-"@ + decimal(slot as nat) + "@token.local"@
}

/// The address of a token that names none: the slot number makes it unique.
pub fn synthesized(kind: TokenKind, slot: u32) -> (r: String)
    ensures
        r@ == default_address(kind, slot),
{
    kind.label().to_owned().concat("-").concat(show(slot as u64).as_str()).concat("@token.local")
}

/// Two tokens of one kind on different slots get different addresses.
pub proof fn law_addresses_differ(kind: TokenKind, a: u32, b: u32)
    requires
        default_address(kind, a) == default_address(kind, b),
    ensures
        a == b,
{
    let head = kind.text() + "-"@;
    let tail = "@token.local"@;
    let x = default_address(kind, a);
    let y = default_address(kind, b);
    let n = head.len() as int;
    assert(x.subrange(n, x.len() - tail.len()) =~= decimal(a as nat));
    assert(y.subrange(n, y.len() - tail.len()) =~= decimal(b as nat));
    crate::text::law_decimal_is_injective(a as nat, b as nat);
}

/// The first slot with an email, but for case.
pub open spec fn slot_with_email(slots: ProviderSlots, email: Seq<char>) -> Option<u32> {
    first_with(slots.slots.items@, by_email(lowercase(email)))
}

/// The first slot with an email, but for case.
pub fn find_email(slots: &ProviderSlots, email: &str) -> (r: Option<u32>)
    ensures
        r == slot_with_email(*slots, email@),
{
    let l: String = lower(email);
    let ghost items = slots.slots.items@;
    let mut i: usize = 0;
    assert(items.take(0) =~= Seq::empty());
    while i < slots.slots.items.len()
        invariant
            i <= items.len(),
            items == slots.slots.items@,
            l@ == lowercase(email@),
            first_with(items.take(i as int), by_email(l@)) is None,
        decreases items.len() - i,
    {
        assert(items.take(i + 1).drop_last() =~= items.take(i as int));
        if has_email(&slots.slots.items[i].1, l.as_str()) {
            proof {
                lemma_first_with_stays(items, by_email(l@), i + 1);
            }
            return Some(slots.slots.items[i].0);
        }
        i += 1;
    }
    assert(items.take(items.len() as int) =~= items);
    None
}

/// The slot that a token goes to: the one asked for, the one that has the address, or
/// the least free one.
pub fn token_slot(slots: &ProviderSlots, slot: Option<u32>, email: &Option<String>) -> (r: u32)
    requires
        slots.wf(),
        exists|n: u32| n >= 1 && !#[trigger] slots.slots@.contains_key(n),
    ensures
        match slot {
            Some(n) => r == n,
            None => {
                let owner = match email {
                    Some(e) => slot_with_email(*slots, e@),
                    None => None,
                };
                match owner {
                    Some(n) => r == n,
                    None => r >= 1 && !slots.slots@.contains_key(r) && forall|n: u32|
                        #![trigger slots.slots@.contains_key(n)]
                        1 <= n < r ==> slots.slots@.contains_key(n),
                }
            },
        },
{
    if let Some(n) = slot {
        return n;
    }
    if let Some(e) = email {
        if let Some(n) = find_email(slots, e.as_str()) {
            return n;
        }
    }
    slots.next_free()
}

/// The address that a token gets.
pub fn token_email(kind: TokenKind, slot: u32, email: &Option<String>) -> (r: String)
    ensures
        r@ == (match email {
            Some(e) => e@,
            None => default_address(kind, slot),
        }),
{
    match email {
        Some(e) => e.clone(),
        None => synthesized(kind, slot),
    }
}

/// How an account of a kind is called.
pub open spec fn kind_noun(kind: TokenKind) -> Seq<char> {
    match kind {
        TokenKind::ApiKey => "n API-key"@,
        TokenKind::Oauth => "n OAuth"@,
    }
}

/// Why a token cannot be registered: slots start at 1, the address belongs to an
/// account of the other kind, or the slot holds another account.
pub open spec fn token_problem(
    slots: ProviderSlots,
    slot: u32,
    email: Seq<char>,
    kind: TokenKind,
    owner_kind: Option<TokenKind>,
    force: bool,
) -> Option<Seq<char>> {
    if slot < 1 {
        Some("slot numbers start at 1"@)
    } else if slot_with_email(slots, email) is Some && owner_kind is Some && owner_kind != Some(
        kind,
    ) {
        Some(
            "'"@ + email + ("' already exists as a"@ + kind_noun(owner_kind->0) + " account (slot "@
                + decimal(slot_with_email(slots, email)->0 as nat)
                + "); pass a distinct --email"@),
        )
    } else if slots.slots@.contains_key(slot) && lowercase(slots.slots@[slot].email@) != lowercase(
        email,
    ) && !force {
        Some(
            "slot "@ + decimal(slot as nat) + (" holds "@ + slots.slots@[slot].email@
                + "; pass --force to overwrite it"@),
        )
    } else {
        None
    }
}

/// Checks that a token may be registered in a slot under an address. `owner_kind` is
/// the kind of what is stored for the account that has the address, where anything is.
pub fn check_token(
    slots: &ProviderSlots,
    slot: u32,
    email: &str,
    kind: TokenKind,
    owner_kind: Option<TokenKind>,
    force: bool,
) -> (r: Result<(), SwapdError>)
    requires
        slots.wf(),
    ensures
        match token_problem(*slots, slot, email@, kind, owner_kind, force) {
            Some(m) => r matches Err(e) && is_error(e, ErrorCode::InvalidInput, m),
            None => r is Ok,
        },
{
    if slot < 1 {
        return Err(
            SwapdError::new(ErrorCode::InvalidInput, "slot numbers start at 1".to_owned()),
        );
    }
    if let Some(n) = find_email(slots, email) {
        if let Some(other) = owner_kind {
            if other != kind {
                let noun: &str = match other {
                    TokenKind::ApiKey => "n API-key",
                    TokenKind::Oauth => "n OAuth",
                };
                return Err(
                    error_about(
                        ErrorCode::InvalidInput,
                        "'",
                        email,
                        "' already exists as a".to_owned().concat(noun).concat(
                            " account (slot ",
                        ).concat(show(n as u64).as_str()).concat(
                            "); pass a distinct --email",
                        ).as_str(),
                    ),
                );
            }
        }
    }
    if let Some(prior) = slots.slots.get(slot) {
        if !same(lower(prior.email.as_str()).as_str(), lower(email).as_str()) && !force {
            return Err(
                error_about(
                    ErrorCode::InvalidInput,
                    "slot ",
                    show(slot as u64).as_str(),
                    " holds ".to_owned().concat(prior.email.as_str()).concat(
                        "; pass --force to overwrite it",
                    ).as_str(),
                ),
            );
        }
    }
    Ok(())
}

/// Why a token cannot be registered under an alias, in the order in which it is asked:
/// what is wrong with the token, then with the alias, and last that the slot holds
/// another account.
pub open spec fn admission_problem(
    slots: ProviderSlots,
    slot: u32,
    email: Seq<char>,
    alias: Option<Seq<char>>,
    kind: TokenKind,
    owner_kind: Option<TokenKind>,
    force: bool,
) -> Option<Seq<char>> {
    match token_problem(slots, slot, email, kind, owner_kind, true) {
        Some(m) => Some(m),
        None => match alias {
            Some(a) => match alias_problem(slots, a, Some(slot)) {
                Some(m) => Some(m),
                None => token_problem(slots, slot, email, kind, owner_kind, force),
            },
            None => token_problem(slots, slot, email, kind, owner_kind, force),
        },
    }
}

/// Checks that a token may be registered in a slot, under an address and an alias.
pub fn admit_token(
    slots: &ProviderSlots,
    slot: u32,
    email: &str,
    alias: Option<&str>,
    kind: TokenKind,
    owner_kind: Option<TokenKind>,
    force: bool,
) -> (r: Result<(), SwapdError>)
    requires
        slots.wf(),
    ensures
        match admission_problem(*slots, slot, email@, opt_str(alias), kind, owner_kind, force) {
            Some(m) => r matches Err(e) && is_error(e, ErrorCode::InvalidInput, m),
            None => r is Ok,
        },
{
    match check_token(slots, slot, email, kind, owner_kind, true) {
        Ok(_) => {},
        Err(e) => {
            return Err(e);
        },
    }
    if let Some(a) = alias {
        match check_alias(slots, a, Some(slot)) {
            Ok(_) => {},
            Err(e) => {
                return Err(e);
            },
        }
    }
    check_token(slots, slot, email, kind, owner_kind, force)
}

/// Checks where a token is read from: from stdin, never from an argument, which every
/// process of the machine can see.
pub fn check_source(source: &str) -> (r: Result<(), SwapdError>)
    ensures
        source@ == "-"@ ==> r is Ok,
        source@ != "-"@ ==> (r matches Err(e) && is_error(
            e,
            ErrorCode::InvalidInput,
            "the token is read from stdin: `swapd add-token -`"@,
        )),
{
    if same(source, "-") {
        return Ok(());
    }
    Err(
        SwapdError::new(
            ErrorCode::InvalidInput,
            "the token is read from stdin: `swapd add-token -`".to_owned(),
        ),
    )
}

/// Checks that a provider takes raw tokens.
pub fn check_takes_tokens(provider: &str, can: bool) -> (r: Result<(), SwapdError>)
    ensures
        can ==> r is Ok,
        !can ==> (r matches Err(e) && is_error(
            e,
            ErrorCode::Unsupported,
            provider@ + " cannot register a raw token"@,
        )),
{
    if can {
        return Ok(());
    }
    Err(SwapdError::new(ErrorCode::Unsupported, provider.to_owned().concat(" cannot register a raw token")))
}

/// The token that was read, without the white space around it, or the error: there is
/// none, or the address that is asked for is none.
pub fn read_token(raw: &str, email: &Option<String>) -> (r: Result<String, SwapdError>)
    ensures
        if trimmed(raw@).len() == 0 {
            r matches Err(e) && is_error(e, ErrorCode::InvalidInput, "empty token"@)
        } else if email matches Some(a) && !is_address(a@) {
            r matches Err(e) && is_error(
                e,
                ErrorCode::InvalidInput,
                "invalid email format: "@ + email->0@,
            )
        } else {
            r matches Ok(token) && token@ == trimmed(raw@)
        },
{
    let token: String = trim(raw);
    if token.as_str().is_empty() {
        return Err(SwapdError::new(ErrorCode::InvalidInput, "empty token".to_owned()));
    }
    if let Some(a) = email {
        if !valid_email(a.as_str()) {
            return Err(
                SwapdError::new(
                    ErrorCode::InvalidInput,
                    "invalid email format: ".to_owned().concat(a.as_str()),
                ),
            );
        }
    }
    Ok(token)
}

/// What is stored for a token.
#[derive(Debug)]
pub enum TokenLogin {
    /// The bytes as they are.
    Raw(String),
    /// An object.
    Wrapped(Json),
}

/// Whether a value is an object with exactly two members.
pub open spec fn has_two(j: Json, a: Seq<char>, b: Seq<char>) -> bool {
    j matches Json::Object(o) && o.wf() && o@.dom() == set![a, b]
}

/// Whether a value is a setup token wrapped in the credential that the tool reads,
/// with an account beside it.
pub open spec fn wraps(j: Json, token: Seq<char>, email: Seq<char>) -> bool {
    &&& has_two(j, "claudeAiOauth"@, "oauthAccount"@)
    &&& has_two(j->Object_0@["claudeAiOauth"@], "accessToken"@, "scopes"@)
    &&& is_text(j->Object_0@["claudeAiOauth"@]->Object_0@["accessToken"@], token)
    &&& j->Object_0@["claudeAiOauth"@]->Object_0@["scopes"@] matches Json::List(l) && l@.len() == 1
        && is_text(l@[0], "user:inference"@)
    &&& j->Object_0@["oauthAccount"@] matches Json::Object(o) && o.wf() && o@.dom() == set![
        "emailAddress"@,
        "accountUuid"@,
        "organizationUuid"@,
        "organizationName"@,
    ] && is_text(o@["emailAddress"@], email) && is_text(o@["accountUuid"@], ""@)
        && o@["organizationUuid"@] is Null && o@["organizationName"@] is Null
}

proof fn lemma_member_names_differ()
    ensures
        "claudeAiOauth"@ != "oauthAccount"@,
        "accessToken"@ != "scopes"@,
        "emailAddress"@ != "accountUuid"@,
        "emailAddress"@ != "organizationUuid"@,
        "emailAddress"@ != "organizationName"@,
        "accountUuid"@ != "organizationUuid"@,
        "accountUuid"@ != "organizationName"@,
        "organizationUuid"@ != "organizationName"@,
{
    reveal_strlit("claudeAiOauth");
    reveal_strlit("oauthAccount");
    reveal_strlit("accessToken");
    reveal_strlit("scopes");
    reveal_strlit("emailAddress");
    reveal_strlit("accountUuid");
    reveal_strlit("organizationUuid");
    reveal_strlit("organizationName");
    assert("claudeAiOauth"@.len() == 13 && "oauthAccount"@.len() == 12);
    assert("accessToken"@.len() == 11 && "scopes"@.len() == 6);
    assert("emailAddress"@.len() == 12 && "accountUuid"@.len() == 11);
    assert("organizationUuid"@.len() == 16 && "organizationName"@.len() == 16);
    assert("organizationUuid"@[12] == 'U' && "organizationName"@[12] == 'N');
}

/// The credential to store: a managed key as it is, a setup token wrapped, so that the
/// account has an identity from the moment it is registered.
pub fn compose_login(kind: TokenKind, token: &str, email: &str) -> (r: TokenLogin)
    ensures
        match kind {
            TokenKind::ApiKey => r matches TokenLogin::Raw(s) && s@ == token@,
            TokenKind::Oauth => r matches TokenLogin::Wrapped(j) && wraps(j, token@, email@),
        },
{
    if kind == TokenKind::ApiKey {
        return TokenLogin::Raw(token.to_owned());
    }
    proof {
        lemma_member_names_differ();
    }
    let mut scopes: Vec<Json> = Vec::new();
    scopes.push(Json::Str("user:inference".to_owned()));
    let mut oauth: Table<Json> = Table::new();
    oauth.insert("accessToken".to_owned(), Json::Str(token.to_owned()));
    oauth.insert("scopes".to_owned(), Json::List(scopes));
    assert(oauth@.dom() =~= set!["accessToken"@, "scopes"@]);
    let mut account: Table<Json> = Table::new();
    account.insert("emailAddress".to_owned(), Json::Str(email.to_owned()));
    account.insert("accountUuid".to_owned(), Json::Str("".to_owned()));
    account.insert("organizationUuid".to_owned(), Json::Null);
    account.insert("organizationName".to_owned(), Json::Null);
    assert(account@.dom() =~= set![
        "emailAddress"@,
        "accountUuid"@,
        "organizationUuid"@,
        "organizationName"@,
    ]);
    let mut envelope: Table<Json> = Table::new();
    envelope.insert("claudeAiOauth".to_owned(), Json::Object(oauth));
    envelope.insert("oauthAccount".to_owned(), Json::Object(account));
    assert(envelope@.dom() =~= set!["claudeAiOauth"@, "oauthAccount"@]);
    TokenLogin::Wrapped(Json::Object(envelope))
}

} // verus!
