//! The policy knobs, one section per provider.
//!
//! Loading is lenient: a value out of range is clamped, and one of the wrong type
//! leaves the default. Setting is strict: a bad value is an error that names the range
//! or the choices. Keys outside the known ones survive a write.

use vstd::prelude::*;
use vstd::string::*;

use crate::errors::{error_about, is_error, ErrorCode, SwapdError};
use crate::json::{
    as_unsigned, is_text_list, member, member_of, set_member, take_member, text_list, unique,
    unsigned_of, Json,
};
use crate::numfmt::{pct_label, pct_text};
use crate::split::{lemma_ascii_pieces, pieces, split, Sep};
use crate::table::Table;
use crate::text::{
    decimal, is_ascii_text, lemma_ascii_names, lemma_trimmed_stays, lower, lowercase, number64,
    parse_i64, same, show, texts, trim, trimmed,
};

verus! {

/// The version of the settings that this library writes.
pub const SCHEMA_VERSION: u32 = 1;

/// The policy knobs that the collector, the ranking and the loop read.
/// Percentages and durations are in millionths.
#[derive(Debug)]
pub struct Settings {
    /// Whether the loop may switch at all.
    pub enabled: bool,
    /// Binding utilization from which on an account is no rotation candidate.
    pub threshold: i64,
    /// The loop's poll interval.
    pub interval_seconds: i64,
    /// Least time between two discretionary switches.
    pub cooldown_seconds: i64,
    /// How far a candidate must beat the active account.
    pub hysteresis_pct: i64,
    /// The loop's ranking strategy.
    pub strategy: String,
    /// Whether managed API-key accounts may be rotated onto.
    pub include_api_key_accounts: bool,
    /// Consecutive failed polls before an account counts as unhealthy.
    pub unhealthy_ticks: u32,
    /// Accounts to land on first, as lower-case emails, aliases or slot numbers.
    pub preferred: Vec<String>,
    /// Scoped-window model names that gate an account, beside the account-wide
    /// windows.
    pub models: Vec<String>,
}

/// Whether settings are the default ones.
pub open spec fn is_default(s: Settings) -> bool {
    &&& s.enabled
    &&& s.threshold == 90_000_000
    &&& s.interval_seconds == 60_000_000
    &&& s.cooldown_seconds == 300_000_000
    &&& s.hysteresis_pct == 10_000_000
    &&& s.strategy@ == "best"@
    &&& !s.include_api_key_accounts
    &&& s.unhealthy_ticks == 3
    &&& s.preferred@.len() == 0
    &&& s.models@.len() == 0
}

impl Default for Settings {
    fn default() -> (r: Settings)
        ensures
            is_default(r),
    {
        Settings {
            enabled: true,
            threshold: 90_000_000,
            interval_seconds: 60_000_000,
            cooldown_seconds: 300_000_000,
            hysteresis_pct: 10_000_000,
            strategy: "best".to_owned(),
            include_api_key_accounts: false,
            unhealthy_ticks: 3,
            preferred: Vec::new(),
            models: Vec::new(),
        }
    }
}

/// What a key accepts. Bounds of a fraction are in millionths.
#[derive(Clone, Copy, Debug, PartialEq, Eq, Structural)]
pub enum Kind {
    Bool,
    Float { lo: i64, hi: i64 },
    Int { lo: i64, hi: i64 },
    /// One of the strategies.
    Choice,
    /// A list of names, in lower case or as given.
    List { lowercase: bool },
}

/// One of the known keys.
#[derive(Clone, Copy, Debug, PartialEq, Eq, Structural)]
pub enum SettingKey {
    Enabled,
    Threshold,
    IntervalSeconds,
    CooldownSeconds,
    HysteresisPct,
    Strategy,
    IncludeApiKeyAccounts,
    UnhealthyTicks,
    Preferred,
    Model,
}

/// A key with what it accepts.
#[derive(Clone, Copy, Debug)]
pub struct Spec {
    pub id: SettingKey,
    /// The name of the key inside a provider's section.
    pub key: &'static str,
    pub kind: Kind,
    pub help: &'static str,
}

impl SettingKey {
    /// The name of the key.
    pub open spec fn text(self) -> Seq<char> {
        match self {
            SettingKey::Enabled => "enabled"@,
            SettingKey::Threshold => "threshold"@,
            SettingKey::IntervalSeconds => "intervalSeconds"@,
            SettingKey::CooldownSeconds => "cooldownSeconds"@,
            SettingKey::HysteresisPct => "hysteresisPct"@,
            SettingKey::Strategy => "strategy"@,
            SettingKey::IncludeApiKeyAccounts => "includeApiKeyAccounts"@,
            SettingKey::UnhealthyTicks => "unhealthyTicks"@,
            SettingKey::Preferred => "preferred"@,
            SettingKey::Model => "model"@,
        }
    }

    /// The line that describes the key.
    pub open spec fn help_text(self) -> Seq<char> {
        match self {
            SettingKey::Enabled =>
                "Auto-switching on/off — off keeps polling usage, never switches"@,
            SettingKey::Threshold => "Switch when the binding 5h/7d window reaches this pct"@,
            SettingKey::IntervalSeconds => "Poll interval for the auto loop, in seconds"@,
            SettingKey::CooldownSeconds => "Minimum seconds between proactive switches"@,
            SettingKey::HysteresisPct => "A target must beat the active account by this many pct"@,
            SettingKey::Strategy => "How the auto loop picks the target account"@,
            SettingKey::IncludeApiKeyAccounts =>
                "Allow rotating onto managed API-key accounts (bill per token) — stored only in phase 1: a managed key cannot be made the live login"@,
            SettingKey::UnhealthyTicks =>
                "Consecutive failed polls before an account is unhealthy"@,
            SettingKey::Preferred =>
                "Accounts to land on first (emails, aliases and/or slot numbers, comma-separated)"@,
            SettingKey::Model =>
                "Also switch on these models' weekly limits (e.g. Fable, Fable,Opus, or all)"@,
        }
    }

    /// What the key accepts.
    pub open spec fn accepts(self) -> Kind {
        match self {
            SettingKey::Enabled => Kind::Bool,
            SettingKey::Threshold => Kind::Float { lo: 50_000_000, hi: 99_900_000 },
            SettingKey::IntervalSeconds => Kind::Float { lo: 15_000_000, hi: 3_600_000_000 },
            SettingKey::CooldownSeconds => Kind::Float { lo: 0, hi: 86_400_000_000 },
            SettingKey::HysteresisPct => Kind::Float { lo: 0, hi: 50_000_000 },
            SettingKey::Strategy => Kind::Choice,
            SettingKey::IncludeApiKeyAccounts => Kind::Bool,
            SettingKey::UnhealthyTicks => Kind::Int { lo: 1, hi: 100 },
            SettingKey::Preferred => Kind::List { lowercase: true },
            SettingKey::Model => Kind::List { lowercase: false },
        }
    }
}

impl Spec {
    /// The name, the kind and the description are those of the key.
    pub open spec fn wf(&self) -> bool {
        self.key@ == self.id.text() && self.kind == self.id.accepts() && self.help@
            == self.id.help_text()
    }
}

/// The key with what it accepts.
pub fn spec_of(id: SettingKey) -> (r: Spec)
    ensures
        r.wf(),
        r.id == id,
{
    match id {
        SettingKey::Enabled => Spec {
            id,
            key: "enabled",
            kind: Kind::Bool,
            help: "Auto-switching on/off — off keeps polling usage, never switches",
        },
        SettingKey::Threshold => Spec {
            id,
            key: "threshold",
            kind: Kind::Float { lo: 50_000_000, hi: 99_900_000 },
            help: "Switch when the binding 5h/7d window reaches this pct",
        },
        SettingKey::IntervalSeconds => Spec {
            id,
            key: "intervalSeconds",
            kind: Kind::Float { lo: 15_000_000, hi: 3_600_000_000 },
            help: "Poll interval for the auto loop, in seconds",
        },
        SettingKey::CooldownSeconds => Spec {
            id,
            key: "cooldownSeconds",
            kind: Kind::Float { lo: 0, hi: 86_400_000_000 },
            help: "Minimum seconds between proactive switches",
        },
        SettingKey::HysteresisPct => Spec {
            id,
            key: "hysteresisPct",
            kind: Kind::Float { lo: 0, hi: 50_000_000 },
            help: "A target must beat the active account by this many pct",
        },
        SettingKey::Strategy => Spec {
            id,
            key: "strategy",
            kind: Kind::Choice,
            help: "How the auto loop picks the target account",
        },
        SettingKey::IncludeApiKeyAccounts => Spec {
            id,
            key: "includeApiKeyAccounts",
            kind: Kind::Bool,
            help:
                "Allow rotating onto managed API-key accounts (bill per token) — stored only in phase 1: a managed key cannot be made the live login",
        },
        SettingKey::UnhealthyTicks => Spec {
            id,
            key: "unhealthyTicks",
            kind: Kind::Int { lo: 1, hi: 100 },
            help: "Consecutive failed polls before an account is unhealthy",
        },
        SettingKey::Preferred => Spec {
            id,
            key: "preferred",
            kind: Kind::List { lowercase: true },
            help:
                "Accounts to land on first (emails, aliases and/or slot numbers, comma-separated)",
        },
        SettingKey::Model => Spec {
            id,
            key: "model",
            kind: Kind::List { lowercase: false },
            help:
                "Also switch on these models' weekly limits (e.g. Fable, Fable,Opus, or all)",
        },
    }
}

/// The known keys, in the order in which they are listed.
pub open spec fn known_keys() -> Seq<SettingKey> {
    seq![
        SettingKey::Enabled,
        SettingKey::Threshold,
        SettingKey::IntervalSeconds,
        SettingKey::CooldownSeconds,
        SettingKey::HysteresisPct,
        SettingKey::Strategy,
        SettingKey::IncludeApiKeyAccounts,
        SettingKey::UnhealthyTicks,
        SettingKey::Preferred,
        SettingKey::Model,
    ]
}

/// The known keys with what they accept, in the order in which they are listed.
pub fn specs() -> (r: Vec<Spec>)
    ensures
        r@.len() == known_keys().len(),
        forall|i: int| 0 <= i < r@.len() ==> (#[trigger] r@[i]).wf() && r@[i].id == known_keys()[i],
{
    let mut r: Vec<Spec> = Vec::new();
    r.push(spec_of(SettingKey::Enabled));
    r.push(spec_of(SettingKey::Threshold));
    r.push(spec_of(SettingKey::IntervalSeconds));
    r.push(spec_of(SettingKey::CooldownSeconds));
    r.push(spec_of(SettingKey::HysteresisPct));
    r.push(spec_of(SettingKey::Strategy));
    r.push(spec_of(SettingKey::IncludeApiKeyAccounts));
    r.push(spec_of(SettingKey::UnhealthyTicks));
    r.push(spec_of(SettingKey::Preferred));
    r.push(spec_of(SettingKey::Model));
    r
}

/// Whether a text is the name of a known key.
pub open spec fn is_known(key: Seq<char>) -> bool {
    exists|i: int| 0 <= i < known_keys().len() && (#[trigger] known_keys()[i]).text() == key
}

/// The key of a name, if it is a known one.
pub fn spec(key: &str) -> (r: Option<Spec>)
    ensures
        r is Some == is_known(key@),
        r matches Some(s) ==> s.wf() && s.key@ == key@,
{
    let all: Vec<Spec> = specs();
    let mut i: usize = 0;
    while i < all.len()
        invariant
            i <= all.len(),
            all@.len() == known_keys().len(),
            forall|k: int|
                0 <= k < all@.len() ==> (#[trigger] all@[k]).wf() && all@[k].id == known_keys()[k],
            forall|k: int| 0 <= k < i ==> (#[trigger] known_keys()[k]).text() != key@,
        decreases all.len() - i,
    {
        assert(all@[i as int].wf());
        if same(all[i].key, key) {
            assert(known_keys()[i as int].text() == key@);
            return Some(all[i]);
        }
        i += 1;
    }
    None
}

/// Whether a name is that of a strategy.
pub open spec fn is_strategy(s: Seq<char>) -> bool {
    s == "best"@ || s == "consume-first"@ || s == "next-available"@
}

fn names_strategy(s: &str) -> (r: bool)
    ensures
        r == is_strategy(s@),
{
    same(s, "best") || same(s, "consume-first") || same(s, "next-available")
}

/// A number in millionths, if the value is one.
pub open spec fn number_of(raw: Json) -> Option<int> {
    match raw {
        Json::Int(n) => Some(n * 1_000_000),
        Json::Micro(n) => Some(n as int),
        _ => None,
    }
}

/// A number between two others.
pub open spec fn clamp(x: int, lo: int, hi: int) -> int {
    if x < lo {
        lo
    } else if x > hi {
        hi
    } else {
        x
    }
}

/// A stored number, between two others.
fn clamped(raw: &Json, lo: i64, hi: i64) -> (r: Option<i64>)
    requires
        lo <= hi,
        -1_000_000_000_000 < lo,
        hi < 1_000_000_000_000,
    ensures
        r is Some == number_of(*raw) is Some,
        r matches Some(v) ==> v == clamp(number_of(*raw)->0, lo as int, hi as int),
{
    let v: i128 = match raw {
        Json::Int(n) => if *n > 1_000_000 {
            1_000_000_000_000
        } else if *n < -1_000_000 {
            -1_000_000_000_000
        } else {
            *n * 1_000_000
        },
        Json::Micro(n) => *n as i128,
        _ => {
            return None;
        },
    };
    if v < lo as i128 {
        Some(lo)
    } else if v > hi as i128 {
        Some(hi)
    } else {
        Some(v as i64)
    }
}

/// Whether a list has a name, but for case.
pub open spec fn has_name(kept: Seq<Seq<char>>, l: Seq<char>) -> bool {
    exists|i: int| 0 <= i < kept.len() && lowercase(#[trigger] kept[i]) == l
}

/// Names trimmed, the empty ones dropped, each once without regard to case; in lower
/// case where asked.
pub open spec fn normal(tokens: Seq<Seq<char>>, fold: bool) -> Seq<Seq<char>>
    decreases tokens.len(),
{
    if tokens.len() == 0 {
        Seq::empty()
    } else {
        let kept = normal(tokens.drop_last(), fold);
        let t = trimmed(tokens.last());
        let name = if fold {
            lowercase(t)
        } else {
            t
        };
        if t.len() == 0 || has_name(kept, lowercase(name)) {
            kept
        } else {
            kept.push(name)
        }
    }
}

fn keeps_name(kept: &Vec<String>, l: &str) -> (r: bool)
    ensures
        r == has_name(texts(kept@), l@),
{
    let ghost all = texts(kept@);
    let mut i: usize = 0;
    while i < kept.len()
        invariant
            i <= kept.len(),
            all == texts(kept@),
            forall|k: int| 0 <= k < i ==> lowercase(#[trigger] all[k]) != l@,
        decreases kept.len() - i,
    {
        assert(all[i as int] == kept@[i as int]@);
        if same(lower(kept[i].as_str()).as_str(), l) {
            assert(lowercase(all[i as int]) == l@);
            return true;
        }
        i += 1;
    }
    false
}

/// Whether every text of a list is ASCII.
pub open spec fn all_ascii(list: Seq<Seq<char>>) -> bool {
    forall|i: int| 0 <= i < list.len() ==> is_ascii_text(#[trigger] list[i])
}

/// Whether a name is left as it is by trimming and by lower-casing.
pub open spec fn stable_name(n: Seq<char>) -> bool {
    n.len() > 0 && trimmed(n) == n && lowercase(n) == n
}

/// Names trimmed, the empty ones dropped, each once; the first spelling wins. Names that
/// are made of ASCII are in lower case for good where lower case is asked for.
pub fn normalize(tokens: &Vec<String>, fold: bool) -> (r: Vec<String>)
    ensures
        texts(r@) == normal(texts(tokens@), fold),
        fold && all_ascii(texts(tokens@)) ==> forall|i: int|
            0 <= i < texts(r@).len() ==> stable_name(#[trigger] texts(r@)[i]),
{
    let ghost all = texts(tokens@);
    let mut r: Vec<String> = Vec::new();
    let mut i: usize = 0;
    assert(all.take(0) =~= Seq::empty());
    assert(texts(r@) =~= Seq::empty());
    while i < tokens.len()
        invariant
            i <= tokens.len(),
            all == texts(tokens@),
            texts(r@) == normal(all.take(i as int), fold),
            fold && all_ascii(all) ==> forall|k: int|
                0 <= k < texts(r@).len() ==> stable_name(#[trigger] texts(r@)[k]),
        decreases tokens.len() - i,
    {
        broadcast use crate::text::lemma_texts_push;

        assert(all.take(i + 1).drop_last() =~= all.take(i as int));
        assert(all[i as int] == tokens@[i as int]@);
        let t: String = trim(tokens[i].as_str());
        if !t.as_str().is_empty() {
            let name: String = if fold {
                lower(t.as_str())
            } else {
                t
            };
            let folded: String = lower(name.as_str());
            proof {
                if fold && all_ascii(all) {
                    lemma_ascii_names(all[i as int]);
                    assert(stable_name(name@));
                }
            }
            if !keeps_name(&r, folded.as_str()) {
                let ghost before = texts(r@);
                r.push(name);
                assert(texts(r@) == before.push(name@));
            }
        }
        i += 1;
    }
    assert(all.take(all.len() as int) =~= all);
    r
}

/// No two names of a normal list are the same but for case.
pub proof fn law_normal_lists_hold_no_name_twice(tokens: Seq<Seq<char>>, fold: bool)
    ensures
        forall|i: int, j: int|
            0 <= i < j < normal(tokens, fold).len() ==> lowercase(
                #[trigger] normal(tokens, fold)[i],
            ) != lowercase(#[trigger] normal(tokens, fold)[j]),
    decreases tokens.len(),
{
    if tokens.len() > 0 {
        law_normal_lists_hold_no_name_twice(tokens.drop_last(), fold);
        let kept = normal(tokens.drop_last(), fold);
        let out = normal(tokens, fold);
        assert forall|i: int, j: int| 0 <= i < j < out.len() implies lowercase(#[trigger] out[i])
            != lowercase(#[trigger] out[j]) by {
            assert(out[i] == kept[i]);
            if j < kept.len() {
                assert(out[j] == kept[j]);
            } else {
                assert(lowercase(kept[i]) == lowercase(kept[i]));
            }
        }
    }
}

/// Whether every value of a list is a text.
pub open spec fn all_text(items: Seq<Json>) -> bool {
    forall|i: int| 0 <= i < items.len() ==> #[trigger] items[i] is Str
}

/// The texts of a list of values.
pub open spec fn json_texts(items: Seq<Json>) -> Seq<Seq<char>> {
    items.map_values(
        |j: Json|
            match j {
                Json::Str(s) => s@,
                _ => Seq::empty(),
            },
    )
}

/// The names of a stored list: a list of names, or names with commas between them.
pub open spec fn names_of(raw: Json, fold: bool) -> Option<Seq<Seq<char>>> {
    match raw {
        Json::Str(s) => Some(normal(pieces(s@, Sep::Is(',')), fold)),
        Json::List(items) => if all_text(items@) {
            Some(normal(json_texts(items@), fold))
        } else {
            None
        },
        Json::Null => Some(Seq::empty()),
        _ => None,
    }
}

/// The names of a stored list.
pub fn list(raw: &Json, fold: bool) -> (r: Option<Vec<String>>)
    ensures
        match names_of(*raw, fold) {
            Some(names) => r matches Some(v) && texts(v@) == names,
            None => r is None,
        },
{
    match raw {
        Json::Str(s) => {
            let tokens: Vec<String> = split(s.as_str(), Sep::Is(','));
            Some(normalize(&tokens, fold))
        },
        Json::List(items) => {
            let ghost goal = json_texts(items@);
            let mut tokens: Vec<String> = Vec::new();
            let mut i: usize = 0;
            while i < items.len()
                invariant
                    i <= items.len(),
                    *raw == Json::List(*items),
                    goal == json_texts(items@),
                    texts(tokens@) =~= goal.take(i as int),
                    forall|k: int| 0 <= k < i ==> #[trigger] items@[k] is Str,
                decreases items.len() - i,
            {
                broadcast use crate::text::lemma_texts_push;

                match &items[i] {
                    Json::Str(s) => {
                        tokens.push(s.clone());
                        assert(goal[i as int] == s@);
                    },
                    _ => {
                        assert(!(items@[i as int] is Str));
                        return None;
                    },
                }
                i += 1;
            }
            assert(goal.take(goal.len() as int) =~= goal);
            Some(normalize(&tokens, fold))
        },
        Json::Null => {
            let none: Vec<String> = Vec::new();
            assert(texts(none@) =~= Seq::empty());
            Some(none)
        },
        _ => None,
    }
}

impl Settings {
    /// Whether a value is what a section writes for a key.
    pub open spec fn writes(&self, id: SettingKey, j: Json) -> bool {
        match id {
            SettingKey::Enabled => j == Json::Bool(self.enabled),
            SettingKey::Threshold => j == Json::Micro(self.threshold),
            SettingKey::IntervalSeconds => j == Json::Micro(self.interval_seconds),
            SettingKey::CooldownSeconds => j == Json::Micro(self.cooldown_seconds),
            SettingKey::HysteresisPct => j == Json::Micro(self.hysteresis_pct),
            SettingKey::Strategy => j == Json::Str(self.strategy),
            SettingKey::IncludeApiKeyAccounts => j == Json::Bool(self.include_api_key_accounts),
            SettingKey::UnhealthyTicks => j == Json::Int(self.unhealthy_ticks as i128),
            SettingKey::Preferred => is_text_list(j, self.preferred@),
            SettingKey::Model => is_text_list(j, self.models@),
        }
    }

    /// The value of a key, as a section writes it.
    pub fn value_of(&self, id: SettingKey) -> (j: Json)
        ensures
            self.writes(id, j),
    {
        match id {
            SettingKey::Enabled => Json::Bool(self.enabled),
            SettingKey::Threshold => Json::Micro(self.threshold),
            SettingKey::IntervalSeconds => Json::Micro(self.interval_seconds),
            SettingKey::CooldownSeconds => Json::Micro(self.cooldown_seconds),
            SettingKey::HysteresisPct => Json::Micro(self.hysteresis_pct),
            SettingKey::Strategy => Json::Str(self.strategy.clone()),
            SettingKey::IncludeApiKeyAccounts => Json::Bool(self.include_api_key_accounts),
            SettingKey::UnhealthyTicks => Json::Int(self.unhealthy_ticks as i128),
            SettingKey::Preferred => text_list(&self.preferred),
            SettingKey::Model => text_list(&self.models),
        }
    }

    /// The value of a key by its name; null for an unknown one.
    pub fn value(&self, key: &str) -> (j: Json)
        ensures
            is_known(key@) ==> exists|i: int|
                0 <= i < known_keys().len() && (#[trigger] known_keys()[i]).text() == key@
                    && self.writes(known_keys()[i], j),
            !is_known(key@) ==> j is Null,
    {
        match spec(key) {
            Some(s) => {
                proof {
                    let i = choose|i: int|
                        0 <= i < known_keys().len() && (#[trigger] known_keys()[i]).text() == key@;
                    lemma_key_names_differ(s.id, known_keys()[i]);
                }
                self.value_of(s.id)
            },
            None => Json::Null,
        }
    }

    /// Whether `after` is what a stored value makes of the settings: a number is
    /// clamped into its range; a value of the wrong type changes nothing.
    pub open spec fn takes(self, id: SettingKey, raw: Json, after: Settings) -> bool {
        match id {
            SettingKey::Enabled => after == Settings {
                enabled: match raw {
                    Json::Bool(b) => b,
                    _ => self.enabled,
                },
                ..self
            },
            SettingKey::IncludeApiKeyAccounts => after == Settings {
                include_api_key_accounts: match raw {
                    Json::Bool(b) => b,
                    _ => self.include_api_key_accounts,
                },
                ..self
            },
            SettingKey::Threshold => after == Settings {
                threshold: fraction(raw, self.threshold, 50_000_000, 99_900_000),
                ..self
            },
            SettingKey::IntervalSeconds => after == Settings {
                interval_seconds: fraction(raw, self.interval_seconds, 15_000_000, 3_600_000_000),
                ..self
            },
            SettingKey::CooldownSeconds => after == Settings {
                cooldown_seconds: fraction(raw, self.cooldown_seconds, 0, 86_400_000_000),
                ..self
            },
            SettingKey::HysteresisPct => after == Settings {
                hysteresis_pct: fraction(raw, self.hysteresis_pct, 0, 50_000_000),
                ..self
            },
            SettingKey::UnhealthyTicks => after == Settings {
                unhealthy_ticks: match number_of(raw) {
                    Some(v) => (clamp(v, 1_000_000, 100_000_000) / 1_000_000) as u32,
                    None => self.unhealthy_ticks,
                },
                ..self
            },
            SettingKey::Strategy => {
                &&& after == Settings { strategy: after.strategy, ..self }
                &&& after.strategy@ == match raw {
                    Json::Str(s) => if is_strategy(s@) {
                        s@
                    } else {
                        self.strategy@
                    },
                    _ => self.strategy@,
                }
            },
            SettingKey::Preferred => {
                &&& after == Settings { preferred: after.preferred, ..self }
                &&& texts(after.preferred@) == match names_of(raw, true) {
                    Some(names) => names,
                    None => texts(self.preferred@),
                }
            },
            SettingKey::Model => {
                &&& after == Settings { models: after.models, ..self }
                &&& texts(after.models@) == match names_of(raw, false) {
                    Some(names) => names,
                    None => texts(self.models@),
                }
            },
        }
    }

    /// Whether a stored value has the type that a key accepts.
    pub open spec fn well_typed(id: SettingKey, raw: Json) -> bool {
        match id.accepts() {
            Kind::Bool => raw is Bool,
            Kind::Float { .. } | Kind::Int { .. } => number_of(raw) is Some,
            Kind::Choice => raw matches Json::Str(s) && is_strategy(s@),
            Kind::List { lowercase } => names_of(raw, lowercase) is Some,
        }
    }

    /// Takes one stored value, leniently. Answers whether it had the right type.
    pub fn apply(&mut self, spec: &Spec, raw: &Json) -> (r: bool)
        requires
            spec.wf(),
        ensures
            old(self).takes(spec.id, *raw, *final(self)),
            r == Settings::well_typed(spec.id, *raw),
    {
        match spec.id {
            SettingKey::Enabled => match raw {
                Json::Bool(b) => {
                    self.enabled = *b;
                    true
                },
                _ => false,
            },
            SettingKey::IncludeApiKeyAccounts => match raw {
                Json::Bool(b) => {
                    self.include_api_key_accounts = *b;
                    true
                },
                _ => false,
            },
            SettingKey::Threshold => match clamped(raw, 50_000_000, 99_900_000) {
                Some(v) => {
                    self.threshold = v;
                    true
                },
                None => false,
            },
            SettingKey::IntervalSeconds => match clamped(raw, 15_000_000, 3_600_000_000) {
                Some(v) => {
                    self.interval_seconds = v;
                    true
                },
                None => false,
            },
            SettingKey::CooldownSeconds => match clamped(raw, 0, 86_400_000_000) {
                Some(v) => {
                    self.cooldown_seconds = v;
                    true
                },
                None => false,
            },
            SettingKey::HysteresisPct => match clamped(raw, 0, 50_000_000) {
                Some(v) => {
                    self.hysteresis_pct = v;
                    true
                },
                None => false,
            },
            SettingKey::UnhealthyTicks => match clamped(raw, 1_000_000, 100_000_000) {
                Some(v) => {
                    self.unhealthy_ticks = (v / 1_000_000) as u32;
                    true
                },
                None => false,
            },
            SettingKey::Strategy => match raw {
                Json::Str(s) => if names_strategy(s.as_str()) {
                    self.strategy = s.clone();
                    true
                } else {
                    false
                },
                _ => false,
            },
            SettingKey::Preferred => match list(raw, true) {
                Some(v) => {
                    self.preferred = v;
                    true
                },
                None => false,
            },
            SettingKey::Model => match list(raw, false) {
                Some(v) => {
                    self.models = v;
                    true
                },
                None => false,
            },
        }
    }
}

/// A fraction of a section, clamped; another where it is none.
pub open spec fn fraction(raw: Json, or: i64, lo: i64, hi: i64) -> i64 {
    match number_of(raw) {
        Some(v) => clamp(v, lo as int, hi as int) as i64,
        None => or,
    }
}

proof fn lemma_key_names_differ(a: SettingKey, b: SettingKey)
    requires
        a.text() == b.text(),
    ensures
        a == b,
{
    reveal_strlit("enabled");
    reveal_strlit("threshold");
    reveal_strlit("intervalSeconds");
    reveal_strlit("cooldownSeconds");
    reveal_strlit("hysteresisPct");
    reveal_strlit("strategy");
    reveal_strlit("includeApiKeyAccounts");
    reveal_strlit("unhealthyTicks");
    reveal_strlit("preferred");
    reveal_strlit("model");
    assert("enabled"@.len() == 7 && "threshold"@.len() == 9 && "intervalSeconds"@.len() == 15);
    assert("cooldownSeconds"@.len() == 15 && "hysteresisPct"@.len() == 13 && "strategy"@.len() == 8);
    assert("includeApiKeyAccounts"@.len() == 21 && "unhealthyTicks"@.len() == 14);
    assert("preferred"@.len() == 9 && "model"@.len() == 5);
    assert("intervalSeconds"@[0] == 'i' && "cooldownSeconds"@[0] == 'c');
    assert("threshold"@[0] == 't' && "preferred"@[0] == 'p');
}

/// The value of a key in a section.
pub open spec fn stored(section: Option<Table<Json>>, id: SettingKey) -> Option<Json> {
    match section {
        Some(s) => member(s.items@, id.text()),
        None => None,
    }
}

/// A truth value of a section, or another where it has none.
pub open spec fn flag(raw: Option<Json>, or: bool) -> bool {
    match raw {
        Some(Json::Bool(b)) => b,
        _ => or,
    }
}

/// A fraction of a section, clamped, or another where it has none.
pub open spec fn stored_fraction(raw: Option<Json>, or: i64, lo: i64, hi: i64) -> i64 {
    match raw {
        Some(j) => fraction(j, or, lo, hi),
        None => or,
    }
}

/// The names of a section, or none.
pub open spec fn stored_names(raw: Option<Json>, fold: bool) -> Seq<Seq<char>> {
    match raw {
        Some(j) => match names_of(j, fold) {
            Some(names) => names,
            None => Seq::empty(),
        },
        None => Seq::empty(),
    }
}

/// Whether settings are those of a section: each key as it is stored, a number clamped
/// into its range, and the default where it is missing or of the wrong type.
pub open spec fn loaded(s: Settings, section: Option<Table<Json>>) -> bool {
    &&& s.enabled == flag(stored(section, SettingKey::Enabled), true)
    &&& s.threshold == stored_fraction(
        stored(section, SettingKey::Threshold),
        90_000_000,
        50_000_000,
        99_900_000,
    )
    &&& s.interval_seconds == stored_fraction(
        stored(section, SettingKey::IntervalSeconds),
        60_000_000,
        15_000_000,
        3_600_000_000,
    )
    &&& s.cooldown_seconds == stored_fraction(
        stored(section, SettingKey::CooldownSeconds),
        300_000_000,
        0,
        86_400_000_000,
    )
    &&& s.hysteresis_pct == stored_fraction(
        stored(section, SettingKey::HysteresisPct),
        10_000_000,
        0,
        50_000_000,
    )
    &&& s.strategy@ == match stored(section, SettingKey::Strategy) {
        Some(Json::Str(x)) => if is_strategy(x@) {
            x@
        } else {
            "best"@
        },
        _ => "best"@,
    }
    &&& s.include_api_key_accounts == flag(
        stored(section, SettingKey::IncludeApiKeyAccounts),
        false,
    )
    &&& s.unhealthy_ticks == match stored(section, SettingKey::UnhealthyTicks) {
        Some(raw) => match number_of(raw) {
            Some(v) => (clamp(v, 1_000_000, 100_000_000) / 1_000_000) as u32,
            None => 3,
        },
        None => 3,
    }
    &&& texts(s.preferred@) == stored_names(stored(section, SettingKey::Preferred), true)
    &&& texts(s.models@) == stored_names(stored(section, SettingKey::Model), false)
}

/// Takes one key of a section, where it has it.
fn take_key(settings: &mut Settings, section: &Table<Json>, id: SettingKey)
    ensures
        match stored(Some(*section), id) {
            Some(raw) => old(settings).takes(id, raw, *final(settings)),
            None => *final(settings) == *old(settings),
        },
{
    let spec: Spec = spec_of(id);
    if let Some(raw) = member_of(section, spec.key) {
        settings.apply(&spec, raw);
    }
}

/// The settings of a section that is there.
pub fn from_table(section: &Table<Json>) -> (r: Settings)
    ensures
        loaded(r, Some(*section)),
{
    let mut settings: Settings = Settings::default();
    assert(texts(settings.preferred@) =~= Seq::empty());
    assert(texts(settings.models@) =~= Seq::empty());
    take_key(&mut settings, section, SettingKey::Enabled);
    take_key(&mut settings, section, SettingKey::Threshold);
    take_key(&mut settings, section, SettingKey::IntervalSeconds);
    take_key(&mut settings, section, SettingKey::CooldownSeconds);
    take_key(&mut settings, section, SettingKey::HysteresisPct);
    take_key(&mut settings, section, SettingKey::Strategy);
    take_key(&mut settings, section, SettingKey::IncludeApiKeyAccounts);
    take_key(&mut settings, section, SettingKey::UnhealthyTicks);
    take_key(&mut settings, section, SettingKey::Preferred);
    take_key(&mut settings, section, SettingKey::Model);
    settings
}

/// The settings of an optional section: the defaults where there is none.
pub fn from_section(section: &Option<Table<Json>>) -> (r: Settings)
    ensures
        loaded(r, *section),
{
    match section {
        Some(s) => from_table(s),
        None => {
            let r: Settings = Settings::default();
            assert(texts(r.preferred@) =~= Seq::empty());
            assert(texts(r.models@) =~= Seq::empty());
            r
        },
    }
}

/// Whether the bounded settings lie within their bounds.
pub open spec fn within_bounds(s: Settings) -> bool {
    &&& 50_000_000 <= s.threshold <= 99_900_000
    &&& 15_000_000 <= s.interval_seconds <= 3_600_000_000
    &&& 0 <= s.cooldown_seconds <= 86_400_000_000
    &&& 0 <= s.hysteresis_pct <= 50_000_000
    &&& 1 <= s.unhealthy_ticks <= 100
    &&& is_strategy(s.strategy@)
}

/// Whatever a section holds, the settings that are loaded from it lie within their
/// bounds.
pub proof fn law_loaded_settings_are_bounded(section: Option<Table<Json>>, s: Settings)
    requires
        loaded(s, section),
    ensures
        within_bounds(s),
{
}

/// The section of a provider.
pub open spec fn section_in(raw: Seq<(String, Json)>, provider: Seq<char>) -> Option<Table<Json>> {
    match member(raw, "providers"@) {
        Some(Json::Object(p)) => match member(p.items@, provider) {
            Some(Json::Object(s)) => Some(s),
            _ => None,
        },
        _ => None,
    }
}

/// The section of a provider.
pub fn section_of<'a>(raw: &'a Table<Json>, provider: &str) -> (r: Option<&'a Table<Json>>)
    ensures
        r is Some == section_in(raw.items@, provider@) is Some,
        r matches Some(s) ==> section_in(raw.items@, provider@) == Some(*s),
{
    match member_of(raw, "providers") {
        Some(Json::Object(p)) => match member_of(p, provider) {
            Some(Json::Object(s)) => Some(s),
            _ => None,
        },
        _ => None,
    }
}

/// The version of a file, where it is another than the one that is written.
pub open spec fn other_version(raw: Seq<(String, Json)>) -> Option<u64> {
    match unsigned_of(member(raw, "schemaVersion"@)) {
        Some(v) => if v != SCHEMA_VERSION {
            Some(v)
        } else {
            None
        },
        None => None,
    }
}

/// The version of a file, where it is another than the one that is written.
pub fn foreign_version(raw: &Table<Json>) -> (r: Option<u64>)
    ensures
        r == other_version(raw.items@),
{
    match as_unsigned(member_of(raw, "schemaVersion")) {
        Some(v) => if v != SCHEMA_VERSION as u64 {
            Some(v)
        } else {
            None
        },
        None => None,
    }
}

/// Checks that a file may be written: one of another version is refused.
pub fn check_version(raw: &Table<Json>) -> (r: Result<(), SwapdError>)
    ensures
        match other_version(raw.items@) {
            Some(v) => r matches Err(e) && is_error(
                e,
                ErrorCode::Unsupported,
                "settings.json is schemaVersion "@ + decimal(v as nat) + "; this build writes 1"@,
            ),
            None => r is Ok,
        },
{
    match foreign_version(raw) {
        Some(v) => Err(
            error_about(
                ErrorCode::Unsupported,
                "settings.json is schemaVersion ",
                show(v).as_str(),
                "; this build writes 1",
            ),
        ),
        None => Ok(()),
    }
}

/// Whether a file's sections are objects, so that a key can be set.
pub open spec fn settable(raw: Seq<(String, Json)>, provider: Seq<char>) -> Option<Seq<char>> {
    match member(raw, "providers"@) {
        Some(Json::Object(p)) => match member(p.items@, provider) {
            Some(Json::Object(_)) => None,
            None => None,
            _ => Some("settings.json: '"@ + provider + "' is not a JSON object"@),
        },
        None => None,
        _ => Some("settings.json: 'providers' is not a JSON object"@),
    }
}

/// Whether no member of a file or of its `providers` is named twice.
pub open spec fn well_named(raw: Seq<(String, Json)>) -> bool {
    &&& unique(raw)
    &&& member(raw, "providers"@) matches Some(Json::Object(p)) ==> unique(p.items@)
}

/// Whether two files differ at most in the section of one provider and in the version,
/// which is stamped.
pub open spec fn differs_in_section(
    before: Seq<(String, Json)>,
    after: Seq<(String, Json)>,
    provider: Seq<char>,
) -> bool {
    &&& forall|k: Seq<char>|
        k != "providers"@ && k != "schemaVersion"@ ==> #[trigger] member(after, k) == member(
            before,
            k,
        )
    &&& member(after, "schemaVersion"@) == Some(Json::Int(SCHEMA_VERSION as i128))
    &&& forall|other: Seq<char>|
        other != provider ==> #[trigger] section_in(after, other) == section_in(before, other)
}

/// Stores one key's value in a provider's section, and stamps the version. Every other
/// key of the section, section and member of the file keeps its value.
pub fn set(raw: &mut Table<Json>, provider: &str, key: &str, value: Json) -> (r: Result<
    (),
    SwapdError,
>)
    requires
        well_named(old(raw).items@),
    ensures
        match settable(old(raw).items@, provider@) {
            Some(m) => *final(raw) == *old(raw) && (r matches Err(e) && is_error(
                e,
                ErrorCode::InvalidInput,
                m,
            )),
            None => {
                &&& r is Ok
                &&& differs_in_section(old(raw).items@, final(raw).items@, provider@)
                &&& section_in(final(raw).items@, provider@) matches Some(s) && (forall|k: Seq<char>|
                 #[trigger]
                    member(s.items@, k) == if k == key@ {
                        Some(value)
                    } else {
                        match section_in(old(raw).items@, provider@) {
                            Some(was) => member(was.items@, k),
                            None => None,
                        }
                    })
            },
        },
{
    proof {
        reveal_strlit("providers");
        reveal_strlit("schemaVersion");
        assert("providers"@.len() == 9 && "schemaVersion"@.len() == 13);
    }
    match member_of(raw, "providers") {
        Some(Json::Object(p)) => match member_of(p, provider) {
            Some(Json::Object(_)) => {},
            None => {},
            _ => {
                return Err(
                    error_about(
                        ErrorCode::InvalidInput,
                        "settings.json: '",
                        provider,
                        "' is not a JSON object",
                    ),
                );
            },
        },
        None => {},
        _ => {
            return Err(
                SwapdError::new(
                    ErrorCode::InvalidInput,
                    "settings.json: 'providers' is not a JSON object".to_owned(),
                ),
            );
        },
    }
    let mut providers: Table<Json> = match take_member(raw, "providers") {
        Some(Json::Object(p)) => p,
        _ => Table::new(),
    };
    let mut section: Table<Json> = match take_member(&mut providers, provider) {
        Some(Json::Object(s)) => s,
        _ => Table::new(),
    };
    set_member(&mut section, key, value);
    set_member(&mut providers, provider, Json::Object(section));
    set_member(raw, "providers", Json::Object(providers));
    set_member(raw, "schemaVersion", Json::Int(SCHEMA_VERSION as i128));
    Ok(())
}

/// Drops one key of a provider's section, so that the default applies again, and stamps
/// the version where anything changed. Answers whether the key was there.
pub fn unset(raw: &mut Table<Json>, provider: &str, key: &str) -> (r: bool)
    requires
        well_named(old(raw).items@),
        section_in(old(raw).items@, provider@) matches Some(s) ==> unique(s.items@),
    ensures
        r == (section_in(old(raw).items@, provider@) matches Some(s) && member(
            s.items@,
            key@,
        ) is Some),
        !r ==> *final(raw) == *old(raw),
        r ==> differs_in_section(old(raw).items@, final(raw).items@, provider@),
        r ==> (section_in(final(raw).items@, provider@) matches Some(s) && (forall|k: Seq<char>|
         #[trigger]
            member(s.items@, k) == if k == key@ {
                None
            } else {
                member(section_in(old(raw).items@, provider@)->0.items@, k)
            })),
{
    proof {
        reveal_strlit("providers");
        reveal_strlit("schemaVersion");
        assert("providers"@.len() == 9 && "schemaVersion"@.len() == 13);
    }
    let there: bool = match section_of(raw, provider) {
        Some(s) => member_of(s, key).is_some(),
        None => false,
    };
    if !there {
        return false;
    }
    let mut providers: Table<Json> = match take_member(raw, "providers") {
        Some(Json::Object(p)) => p,
        _ => Table::new(),
    };
    let mut section: Table<Json> = match take_member(&mut providers, provider) {
        Some(Json::Object(s)) => s,
        _ => Table::new(),
    };
    take_member(&mut section, key);
    set_member(&mut providers, provider, Json::Object(section));
    set_member(raw, "providers", Json::Object(providers));
    set_member(raw, "schemaVersion", Json::Int(SCHEMA_VERSION as i128));
    true
}

/// The truth value that a word spells.
pub open spec fn truth_of(raw: Seq<char>) -> Option<bool> {
    let w = lowercase(trimmed(raw));
    if w == "true"@ || w == "1"@ || w == "yes"@ {
        Some(true)
    } else if w == "false"@ || w == "0"@ || w == "no"@ {
        Some(false)
    } else {
        None
    }
}

/// Whether a result is an error about input.
pub open spec fn is_invalid(r: Result<Json, SwapdError>, message: Seq<char>) -> bool {
    r matches Err(e) && is_error(e, ErrorCode::InvalidInput, message)
}

/// Whether `r` is what a text is read as for a key, strictly.
pub open spec fn reads(
    spec: Spec,
    raw: Seq<char>,
    float: Option<i64>,
    r: Result<Json, SwapdError>,
) -> bool {
    match spec.kind {
        Kind::Bool => match truth_of(raw) {
            Some(b) => r == Ok::<Json, SwapdError>(Json::Bool(b)),
            None => is_invalid(
                r,
                spec.key@ + " expects true or false (or 1/0, yes/no), got '"@ + (raw + "'"@),
            ),
        },
        Kind::Choice => if is_strategy(raw) {
            r matches Ok(j) && crate::json::is_text(j, raw)
        } else {
            is_invalid(
                r,
                spec.key@ + " must be one of: "@ + "best, consume-first, next-available"@,
            )
        },
        Kind::Float { lo, hi } => match float {
            None => is_invalid(r, spec.key@ + " expects a number, got '"@ + (raw + "'"@)),
            Some(v) => if lo <= v <= hi {
                r == Ok::<Json, SwapdError>(Json::Micro(v))
            } else {
                is_invalid(
                    r,
                    spec.key@ + " must be between "@ + (pct_text(lo as int) + " and "@
                        + pct_text(hi as int)),
                )
            },
        },
        Kind::Int { lo, hi } => match number64(trimmed(raw)) {
            None => is_invalid(r, spec.key@ + " expects an integer, got '"@ + (raw + "'"@)),
            Some(v) => if lo <= v <= hi {
                r == Ok::<Json, SwapdError>(Json::Int(v as i128))
            } else {
                is_invalid(
                    r,
                    spec.key@ + " must be between "@ + (decimal(lo as nat) + " and "@ + decimal(
                        hi as nat,
                    )),
                )
            },
        },
        Kind::List { lowercase } => {
            let names = normal(pieces(raw, Sep::Is(',')), lowercase);
            if names.len() == 0 {
                is_invalid(
                    r,
                    spec.key@
                        + " expects a non-empty value; use 'swapd config unset' to clear it"@
                        + ""@,
                )
            } else {
                r matches Ok(Json::List(items)) && all_text(items@) && json_texts(items@)
                    == names
            }
        },
    }
}

/// Reads a value for a key from a text, strictly. `float` is the number that the text
/// spells, in millionths, where it spells one; it counts for fractions only.
pub fn parse_value(spec: &Spec, raw: &str, float: Option<i64>) -> (r: Result<Json, SwapdError>)
    requires
        spec.wf(),
    ensures
        reads(*spec, raw@, float, r),
        spec.id is Preferred && is_ascii_text(raw@) ==> (r matches Ok(Json::List(items)) ==> (
        forall|i: int|
            0 <= i < json_texts(items@).len() ==> stable_name(#[trigger] json_texts(items@)[i]))),
{
    match spec.kind {
        Kind::Bool => {
            let w: String = lower(trim(raw).as_str());
            if same(w.as_str(), "true") || same(w.as_str(), "1") || same(w.as_str(), "yes") {
                return Ok(Json::Bool(true));
            }
            if same(w.as_str(), "false") || same(w.as_str(), "0") || same(w.as_str(), "no") {
                return Ok(Json::Bool(false));
            }
            Err(
                error_about(
                    ErrorCode::InvalidInput,
                    spec.key,
                    " expects true or false (or 1/0, yes/no), got '",
                    raw.to_owned().concat("'").as_str(),
                ),
            )
        },
        Kind::Choice => {
            if names_strategy(raw) {
                return Ok(Json::Str(raw.to_owned()));
            }
            Err(
                error_about(
                    ErrorCode::InvalidInput,
                    spec.key,
                    " must be one of: ",
                    "best, consume-first, next-available",
                ),
            )
        },
        Kind::Float { lo, hi } => match float {
            None => Err(
                error_about(
                    ErrorCode::InvalidInput,
                    spec.key,
                    " expects a number, got '",
                    raw.to_owned().concat("'").as_str(),
                ),
            ),
            Some(v) => {
                if lo <= v && v <= hi {
                    return Ok(Json::Micro(v));
                }
                Err(
                    error_about(
                        ErrorCode::InvalidInput,
                        spec.key,
                        " must be between ",
                        pct_label(lo).concat(" and ").concat(pct_label(hi).as_str()).as_str(),
                    ),
                )
            },
        },
        Kind::Int { lo, hi } => match parse_i64(trim(raw).as_str()) {
            None => Err(
                error_about(
                    ErrorCode::InvalidInput,
                    spec.key,
                    " expects an integer, got '",
                    raw.to_owned().concat("'").as_str(),
                ),
            ),
            Some(v) => {
                if lo <= v && v <= hi {
                    return Ok(Json::Int(v as i128));
                }
                assert(lo == 1 && hi == 100);
                Err(
                    error_about(
                        ErrorCode::InvalidInput,
                        spec.key,
                        " must be between ",
                        show(lo as u64).concat(" and ").concat(show(hi as u64).as_str()).as_str(),
                    ),
                )
            },
        },
        Kind::List { lowercase } => {
            let tokens: Vec<String> = split(raw, Sep::Is(','));
            let names: Vec<String> = normalize(&tokens, lowercase);
            assert(texts(names@).len() == names@.len());
            proof {
                if is_ascii_text(raw@) {
                    lemma_ascii_pieces(raw@, Sep::Is(','));
                }
            }
            if names.len() == 0 {
                return Err(
                    error_about(
                        ErrorCode::InvalidInput,
                        spec.key,
                        " expects a non-empty value; use 'swapd config unset' to clear it",
                        "",
                    ),
                );
            }
            let j: Json = text_list(&names);
            proof {
                let items = j->List_0@;
                assert forall|i: int| 0 <= i < items.len() implies #[trigger] items[i] is Str by {
                    assert(items[i] == Json::Str(names@[i]));
                }
                assert(json_texts(items) =~= texts(names@)) by {
                    assert forall|i: int| 0 <= i < items.len() implies json_texts(items)[i] == texts(
                        names@,
                    )[i] by {
                        assert(items[i] == Json::Str(names@[i]));
                    }
                }
            }
            Ok(j)
        },
    }
}

/// Whether settings hold a value for a key.
pub open spec fn holds_value(s: Settings, id: SettingKey, j: Json) -> bool {
    match id {
        SettingKey::Strategy => j matches Json::Str(x) && x@ == s.strategy@,
        SettingKey::Preferred => j matches Json::List(items) && json_texts(items@) == texts(
            s.preferred@,
        ),
        SettingKey::Model => j matches Json::List(items) && json_texts(items@) == texts(s.models@),
        _ => s.writes(id, j),
    }
}

/// A list whose names are trimmed, and in lower case where asked, and of which no two
/// are the same, is normal as it is.
proof fn lemma_normal_stays(names: Seq<Seq<char>>, fold: bool)
    requires
        forall|i: int|
            0 <= i < names.len() ==> (#[trigger] names[i]).len() > 0 && trimmed(names[i])
                == names[i] && (fold ==> lowercase(names[i]) == names[i]),
        forall|i: int, j: int|
            0 <= i < j < names.len() ==> lowercase(#[trigger] names[i]) != lowercase(
                #[trigger] names[j],
            ),
    ensures
        normal(names, fold) == names,
    decreases names.len(),
{
    if names.len() > 0 {
        let rest = names.drop_last();
        assert forall|i: int, j: int| 0 <= i < j < rest.len() implies lowercase(#[trigger] rest[i])
            != lowercase(#[trigger] rest[j]) by {
            assert(names[i] == rest[i] && names[j] == rest[j]);
        }
        assert forall|i: int| 0 <= i < rest.len() implies (#[trigger] rest[i]).len() > 0 && trimmed(
            rest[i],
        ) == rest[i] && (fold ==> lowercase(rest[i]) == rest[i]) by {
            assert(names[i] == rest[i]);
        }
        lemma_normal_stays(rest, fold);
        let last = names.last();
        assert(last == names[names.len() - 1]);
        assert(!has_name(rest, lowercase(last))) by {
            assert forall|i: int| 0 <= i < rest.len() implies lowercase(#[trigger] rest[i])
                != lowercase(last) by {
                assert(names[i] == rest[i]);
            }
        }
    }
    assert(normal(names, fold) =~= names);
}

/// The names of a normal list in the spelling given are trimmed, and none is empty.
proof fn lemma_normal_names_are_trimmed(tokens: Seq<Seq<char>>)
    ensures
        forall|i: int|
            0 <= i < normal(tokens, false).len() ==> (#[trigger] normal(tokens, false)[i]).len() > 0
                && trimmed(normal(tokens, false)[i]) == normal(tokens, false)[i],
    decreases tokens.len(),
{
    if tokens.len() > 0 {
        lemma_normal_names_are_trimmed(tokens.drop_last());
        lemma_trimmed_stays(tokens.last());
        let kept = normal(tokens.drop_last(), false);
        let out = normal(tokens, false);
        assert forall|i: int| 0 <= i < out.len() implies (#[trigger] out[i]).len() > 0 && trimmed(
            out[i],
        ) == out[i] by {
            if i < kept.len() {
                assert(out[i] == kept[i]);
            }
        }
    }
}

/// A name in the form in which it is kept.
pub open spec fn name_of(token: Seq<char>, fold: bool) -> Seq<char> {
    if fold {
        lowercase(trimmed(token))
    } else {
        trimmed(token)
    }
}

/// Whether a token is the first of its name: it is not blank, and none before it has
/// the same name but for case.
pub open spec fn appears_first(tokens: Seq<Seq<char>>, fold: bool, j: int) -> bool {
    &&& 0 <= j < tokens.len()
    &&& trimmed(tokens[j]).len() > 0
    &&& forall|k: int|
        0 <= k < j && trimmed(#[trigger] tokens[k]).len() > 0 ==> lowercase(
            name_of(tokens[k], fold),
        ) != lowercase(name_of(tokens[j], fold))
}

/// The positions of the first tokens of their names.
pub open spec fn first_places(tokens: Seq<Seq<char>>, fold: bool) -> Seq<int>
    decreases tokens.len(),
{
    if tokens.len() == 0 {
        Seq::empty()
    } else {
        let rest = first_places(tokens.drop_last(), fold);
        if appears_first(tokens, fold, tokens.len() - 1) {
            rest.push(tokens.len() - 1)
        } else {
            rest
        }
    }
}

/// A normal list is made of the first spellings, in the order in which they appear: its
/// names are those of the tokens that are the first of their names, trimmed, and in
/// lower case where asked. So every token that is not blank is found in it but for case,
/// and in the spelling given each name is trimmed and not empty.
pub proof fn law_normal_lists_keep_first_spellings(tokens: Seq<Seq<char>>, fold: bool)
    ensures
        first_places(tokens, fold).len() == normal(tokens, fold).len(),
        forall|i: int|
            0 <= i < normal(tokens, fold).len() ==> (#[trigger] normal(tokens, fold)[i]) == name_of(
                tokens[first_places(tokens, fold)[i]],
                fold,
            ),
        forall|i: int, j: int|
            0 <= i < j < first_places(tokens, fold).len() ==> (#[trigger] first_places(
                tokens,
                fold,
            )[i]) < (#[trigger] first_places(tokens, fold)[j]),
        forall|j: int| #[trigger]
            first_places(tokens, fold).contains(j) <==> appears_first(tokens, fold, j),
        forall|j: int|
            0 <= j < tokens.len() && trimmed(#[trigger] tokens[j]).len() > 0 ==> has_name(
                normal(tokens, fold),
                lowercase(name_of(tokens[j], fold)),
            ),
        !fold ==> forall|i: int|
            0 <= i < normal(tokens, fold).len() ==> (#[trigger] normal(tokens, fold)[i]).len() > 0
                && trimmed(normal(tokens, fold)[i]) == normal(tokens, fold)[i],
    decreases tokens.len(),
{
    if !fold {
        lemma_normal_names_are_trimmed(tokens);
    }
    if tokens.len() > 0 {
        let short = tokens.drop_last();
        law_normal_lists_keep_first_spellings(short, fold);
        let kept = normal(short, fold);
        let out = normal(tokens, fold);
        let rest = first_places(short, fold);
        let at = first_places(tokens, fold);
        let last = tokens.len() - 1;
        let l = lowercase(name_of(tokens[last], fold));
        assert forall|j: int| 0 <= j < last implies appears_first(tokens, fold, j)
            == #[trigger] appears_first(short, fold, j) by {
            assert(short[j] == tokens[j]);
            assert(forall|k: int| 0 <= k < j ==> #[trigger] short[k] == tokens[k]);
            assert(forall|k: int| 0 <= k < j ==> #[trigger] tokens[k] == short[k]);
        }
        assert forall|k: int| 0 <= k < rest.len() implies 0 <= #[trigger] rest[k] < last by {
            assert(rest.contains(rest[k]));
        }
        if trimmed(tokens[last]).len() > 0 {
            assert(has_name(kept, l) == !appears_first(tokens, fold, last)) by {
                if has_name(kept, l) {
                    let i = choose|i: int| 0 <= i < kept.len() && lowercase(#[trigger] kept[i]) == l;
                    assert(rest.contains(rest[i]));
                    assert(appears_first(short, fold, rest[i]));
                    assert(kept[i] == name_of(short[rest[i]], fold));
                    assert(tokens[rest[i]] == short[rest[i]]);
                } else {
                    assert forall|k: int|
                        0 <= k < last && trimmed(#[trigger] tokens[k]).len() > 0 implies lowercase(
                        name_of(tokens[k], fold),
                    ) != l by {
                        assert(short[k] == tokens[k]);
                    }
                }
            }
        }
        assert forall|i: int| 0 <= i < out.len() implies (#[trigger] out[i]) == name_of(
            tokens[at[i]],
            fold,
        ) by {
            if i < kept.len() {
                assert(out[i] == kept[i] && at[i] == rest[i]);
                assert(tokens[rest[i]] == short[rest[i]]);
            }
        }
        assert forall|j: int| #[trigger] at.contains(j) <==> appears_first(tokens, fold, j) by {
            if at.contains(j) {
                let k = choose|k: int| 0 <= k < at.len() && at[k] == j;
                if k < rest.len() {
                    assert(rest.contains(j));
                    assert(appears_first(short, fold, j));
                }
            }
            if appears_first(tokens, fold, j) {
                if j < last {
                    assert(appears_first(short, fold, j));
                    assert(rest.contains(j));
                    let k = choose|k: int| 0 <= k < rest.len() && rest[k] == j;
                    assert(at[k] == j);
                } else {
                    assert(at[rest.len() as int] == j);
                }
            }
        }
        assert forall|j: int|
            0 <= j < tokens.len() && trimmed(#[trigger] tokens[j]).len() > 0 implies has_name(
            out,
            lowercase(name_of(tokens[j], fold)),
        ) by {
            let name = lowercase(name_of(tokens[j], fold));
            if j < last {
                assert(short[j] == tokens[j]);
                assert(has_name(kept, name));
            }
            if has_name(kept, name) {
                let i = choose|i: int| 0 <= i < kept.len() && lowercase(#[trigger] kept[i]) == name;
                assert(out[i] == kept[i]);
            } else {
                assert(out[kept.len() as int] == name_of(tokens[j], fold));
            }
        }
    }
}

/// To make a normal list normal again changes nothing: in the spelling given for every
/// list, and in lower case where trimming and lower-casing leave its names as they are,
/// as they do with names that are made of ASCII.
pub proof fn law_normal_again_changes_nothing(tokens: Seq<Seq<char>>, fold: bool)
    requires
        fold ==> forall|i: int|
            0 <= i < normal(tokens, fold).len() ==> stable_name(#[trigger] normal(tokens, fold)[i]),
    ensures
        normal(normal(tokens, fold), fold) == normal(tokens, fold),
{
    law_normal_lists_hold_no_name_twice(tokens, fold);
    if !fold {
        lemma_normal_names_are_trimmed(tokens);
    }
    lemma_normal_stays(normal(tokens, fold), fold);
}

/// What is set is loaded as it was set: a value that is read strictly from a text and
/// stored under its key is the one that the settings hold. Of the preferred accounts,
/// where lower-casing leaves a name in lower case as it is, as it does with every name
/// that is read from ASCII.
pub proof fn law_what_is_set_is_loaded(
    spec: Spec,
    raw: Seq<char>,
    float: Option<i64>,
    value: Json,
    section: Table<Json>,
    s: Settings,
)
    requires
        spec.wf(),
        reads(spec, raw, float, Ok(value)),
        member(section.items@, spec.id.text()) == Some(value),
        loaded(s, Some(section)),
        spec.id is Preferred ==> (value matches Json::List(items) && forall|i: int|
            0 <= i < json_texts(items@).len() ==> stable_name(#[trigger] json_texts(items@)[i])),
    ensures
        holds_value(s, spec.id, value),
{
    assert(stored(Some(section), spec.id) == Some(value));
    match spec.id {
        SettingKey::Preferred => {
            let tokens = pieces(raw, Sep::Is(','));
            law_normal_lists_hold_no_name_twice(tokens, true);
            lemma_normal_stays(normal(tokens, true), true);
        },
        SettingKey::Model => {
            let tokens = pieces(raw, Sep::Is(','));
            law_normal_lists_hold_no_name_twice(tokens, false);
            lemma_normal_names_are_trimmed(tokens);
            lemma_normal_stays(normal(tokens, false), false);
        },
        _ => {},
    }
}

/// A key that is not stored has its default: the settings hold what they hold without a
/// section.
pub proof fn law_what_is_unset_is_the_default(
    id: SettingKey,
    section: Table<Json>,
    s: Settings,
    default: Settings,
    value: Json,
)
    requires
        member(section.items@, id.text()) is None,
        loaded(s, Some(section)),
        loaded(default, None),
        holds_value(default, id, value),
    ensures
        holds_value(s, id, value),
{
    assert(stored(Some(section), id) == stored(None, id));
}

/// Whether two settings agree on a key.
pub open spec fn agree_on(a: Settings, b: Settings, id: SettingKey) -> bool {
    match id {
        SettingKey::Enabled => a.enabled == b.enabled,
        SettingKey::Threshold => a.threshold == b.threshold,
        SettingKey::IntervalSeconds => a.interval_seconds == b.interval_seconds,
        SettingKey::CooldownSeconds => a.cooldown_seconds == b.cooldown_seconds,
        SettingKey::HysteresisPct => a.hysteresis_pct == b.hysteresis_pct,
        SettingKey::Strategy => a.strategy@ == b.strategy@,
        SettingKey::IncludeApiKeyAccounts => a.include_api_key_accounts
            == b.include_api_key_accounts,
        SettingKey::UnhealthyTicks => a.unhealthy_ticks == b.unhealthy_ticks,
        SettingKey::Preferred => texts(a.preferred@) == texts(b.preferred@),
        SettingKey::Model => texts(a.models@) == texts(b.models@),
    }
}

/// A section with one key that was set alone gives that value, and the default of every
/// other key.
pub proof fn law_one_key_alone(
    spec: Spec,
    raw: Seq<char>,
    float: Option<i64>,
    value: Json,
    section: Table<Json>,
    s: Settings,
    default: Settings,
    other: SettingKey,
)
    requires
        spec.wf(),
        reads(spec, raw, float, Ok(value)),
        forall|k: Seq<char>| #[trigger]
            member(section.items@, k) == if k == spec.id.text() {
                Some(value)
            } else {
                None
            },
        loaded(s, Some(section)),
        is_default(default),
        other != spec.id,
        spec.id is Preferred ==> (value matches Json::List(items) && forall|i: int|
            0 <= i < json_texts(items@).len() ==> stable_name(#[trigger] json_texts(items@)[i])),
    ensures
        holds_value(s, spec.id, value),
        agree_on(s, default, other),
{
    law_what_is_set_is_loaded(spec, raw, float, value, section, s);
    if other.text() == spec.id.text() {
        lemma_key_names_differ(other, spec.id);
    }
    assert(stored(Some(section), other) is None);
    assert(texts(default.preferred@) =~= Seq::empty());
    assert(texts(default.models@) =~= Seq::empty());
}

} // verus!
