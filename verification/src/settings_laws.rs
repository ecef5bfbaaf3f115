//! What holds of the settings: what is accepted for a key, what a section is loaded as,
//! and what a write leaves alone.

use vstd::prelude::*;

use crate::json::{member, unique, Json};
use crate::settings::{
    check_version, from_section, parse_value, unset, SettingKey, Settings, Spec,
};
use crate::table::Table;
use crate::text::{lowercase, number64, texts, trimmed};
use crate::errors::{ErrorCode, SwapdError};

verus! {

/// A fraction is accepted exactly where it lies within the bounds of its key, and is then
/// stored as it is: a threshold from 50 to 99.9, an interval from 15 seconds to an hour, a
/// cooldown up to a day, a hysteresis up to 50. Anything else is an error about input.
pub proof fn law_a_fraction_is_accepted_within_its_bounds(
    spec: Spec,
    raw: &str,
    float: Option<i64>,
    r: Result<Json, SwapdError>,
)
    requires
        spec.wf(),
        call_ensures(parse_value, (&spec, raw, float), r),
    ensures
        spec.id is Threshold ==> (r is Ok <==> (float is Some && 50_000_000 <= float->0
            <= 99_900_000)),
        spec.id is IntervalSeconds ==> (r is Ok <==> (float is Some && 15_000_000 <= float->0
            <= 3_600_000_000)),
        spec.id is CooldownSeconds ==> (r is Ok <==> (float is Some && 0 <= float->0
            <= 86_400_000_000)),
        spec.id is HysteresisPct ==> (r is Ok <==> (float is Some && 0 <= float->0
            <= 50_000_000)),
        (spec.id is Threshold || spec.id is IntervalSeconds || spec.id is CooldownSeconds
            || spec.id is HysteresisPct) && r is Ok ==> r->Ok_0 == Json::Micro(float->0),
        r is Err ==> r->Err_0.code == ErrorCode::InvalidInput,
{
}

/// A count of ticks is accepted exactly where it is a whole number from 1 to 100.
pub proof fn law_a_count_is_accepted_within_its_bounds(
    spec: Spec,
    raw: &str,
    float: Option<i64>,
    r: Result<Json, SwapdError>,
)
    requires
        spec.wf(),
        spec.id is UnhealthyTicks,
        call_ensures(parse_value, (&spec, raw, float), r),
    ensures
        r is Ok <==> (number64(trimmed(raw@)) is Some && 1 <= number64(trimmed(raw@))->0 <= 100),
        r is Ok ==> r->Ok_0 == Json::Int(number64(trimmed(raw@))->0 as i128),
{
}

/// A word is read as a truth value without regard to case and to the space around it: true,
/// 1 and yes are true, false, 0 and no are false, and no other word is accepted.
pub proof fn law_a_word_is_read_as_a_truth_value(
    spec: Spec,
    raw: &str,
    float: Option<i64>,
    r: Result<Json, SwapdError>,
)
    requires
        spec.wf(),
        spec.id is Enabled || spec.id is IncludeApiKeyAccounts,
        call_ensures(parse_value, (&spec, raw, float), r),
    ensures
        ({
            let w = lowercase(trimmed(raw@));
            &&& w == "true"@ || w == "1"@ || w == "yes"@ ==> r == Ok::<Json, SwapdError>(
                Json::Bool(true),
            )
            &&& w == "false"@ || w == "0"@ || w == "no"@ ==> r == Ok::<Json, SwapdError>(
                Json::Bool(false),
            )
            &&& r is Ok ==> w == "true"@ || w == "1"@ || w == "yes"@ || w == "false"@ || w == "0"@
                || w == "no"@
        }),
{
    reveal_strlit("true");
    reveal_strlit("1");
    reveal_strlit("yes");
    reveal_strlit("false");
    reveal_strlit("0");
    reveal_strlit("no");
    let w = lowercase(trimmed(raw@));
    if w == "false"@ {
        assert(w.len() == 5);
    }
    if w == "0"@ {
        assert(w[0] == '0');
    }
    if w == "no"@ {
        assert(w.len() == 2);
    }
}

/// A strategy is accepted exactly where it is one of the three, spelled as it is.
pub proof fn law_a_strategy_is_one_of_three(
    spec: Spec,
    raw: &str,
    float: Option<i64>,
    r: Result<Json, SwapdError>,
)
    requires
        spec.wf(),
        spec.id is Strategy,
        call_ensures(parse_value, (&spec, raw, float), r),
    ensures
        r is Ok <==> (raw@ == "best"@ || raw@ == "consume-first"@ || raw@ == "next-available"@),
        r is Ok ==> (r->Ok_0 matches Json::Str(s) && s@ == raw@),
{
}

/// The value under a name in a section, if there is one.
pub open spec fn kept(section: Option<Table<Json>>, name: Seq<char>) -> Option<Json> {
    if section is Some {
        member(section->0.items@, name)
    } else {
        None
    }
}

/// Whether a value is a number, which is this many millionths.
pub open spec fn is_number(raw: Option<Json>, v: int) -> bool {
    ||| raw matches Some(Json::Micro(m)) && v == m
    ||| raw matches Some(Json::Int(n)) && v == n * 1_000_000
}

/// Whether a number is what a stored one is loaded as: itself where it lies between two
/// others, else the nearer of them.
pub open spec fn is_nearest(x: int, v: int, lo: int, hi: int) -> bool {
    &&& lo <= x <= hi
    &&& lo <= v <= hi ==> x == v
    &&& v < lo ==> x == lo
    &&& v > hi ==> x == hi
}

/// Whether a value is a number.
pub open spec fn is_numeric(raw: Option<Json>) -> bool {
    raw matches Some(j) && (j is Int || j is Micro)
}

/// A stored number is loaded as the nearest that its key accepts; a key that is missing or
/// holds something else is loaded as its default.
pub proof fn law_a_stored_number_is_loaded(section: Option<Table<Json>>, s: Settings, v: int)
    requires
        call_ensures(from_section, (&section,), s),
    ensures
        is_number(kept(section, "threshold"@), v) ==> is_nearest(
            s.threshold as int,
            v,
            50_000_000,
            99_900_000,
        ),
        is_number(kept(section, "intervalSeconds"@), v) ==> is_nearest(
            s.interval_seconds as int,
            v,
            15_000_000,
            3_600_000_000,
        ),
        is_number(kept(section, "cooldownSeconds"@), v) ==> is_nearest(
            s.cooldown_seconds as int,
            v,
            0,
            86_400_000_000,
        ),
        is_number(kept(section, "hysteresisPct"@), v) ==> is_nearest(
            s.hysteresis_pct as int,
            v,
            0,
            50_000_000,
        ),
        !is_numeric(kept(section, "threshold"@)) ==> s.threshold == 90_000_000,
        !is_numeric(kept(section, "intervalSeconds"@)) ==> s.interval_seconds == 60_000_000,
        !is_numeric(kept(section, "cooldownSeconds"@)) ==> s.cooldown_seconds == 300_000_000,
        !is_numeric(kept(section, "hysteresisPct"@)) ==> s.hysteresis_pct == 10_000_000,
        !is_numeric(kept(section, "unhealthyTicks"@)) ==> s.unhealthy_ticks == 3,
        is_number(kept(section, "unhealthyTicks"@), v) ==> s.unhealthy_ticks * 1_000_000 <= (
        if v < 1_000_000 {
            1_000_000
        } else if v > 100_000_000 {
            100_000_000
        } else {
            v
        }) < (s.unhealthy_ticks + 1) * 1_000_000,
{
}

/// A stored flag or strategy is loaded as it is; one that is missing or of the wrong type is
/// loaded as its default: switching is on, managed keys are left out, the strategy is `best`.
pub proof fn law_a_stored_choice_is_loaded(section: Option<Table<Json>>, s: Settings, b: bool)
    requires
        call_ensures(from_section, (&section,), s),
    ensures
        kept(section, "enabled"@) == Some(Json::Bool(b)) ==> s.enabled == b,
        !(kept(section, "enabled"@) matches Some(Json::Bool(_))) ==> s.enabled,
        kept(section, "includeApiKeyAccounts"@) == Some(Json::Bool(b))
            ==> s.include_api_key_accounts == b,
        !(kept(section, "includeApiKeyAccounts"@) matches Some(Json::Bool(_)))
            ==> !s.include_api_key_accounts,
        kept(section, "strategy"@) matches Some(Json::Str(x)) ==> s.strategy@ == (if x@ == "best"@
            || x@ == "consume-first"@ || x@ == "next-available"@ {
            x@
        } else {
            "best"@
        }),
        !(kept(section, "strategy"@) matches Some(Json::Str(_))) ==> s.strategy@ == "best"@,
        kept(section, "preferred"@) is None ==> s.preferred@.len() == 0,
        kept(section, "model"@) is None ==> s.models@.len() == 0,
{
    assert(texts(s.preferred@).len() == s.preferred@.len());
    assert(texts(s.models@).len() == s.models@.len());
}

/// A stored list of one name is loaded as that name, trimmed; the preferred one also in
/// lower case. A blank name is none.
pub proof fn law_a_stored_name_is_loaded(
    section: Option<Table<Json>>,
    s: Settings,
    items: Vec<Json>,
    name: String,
)
    requires
        call_ensures(from_section, (&section,), s),
        items@ == seq![Json::Str(name)],
    ensures
        kept(section, "preferred"@) == Some(Json::List(items)) ==> texts(s.preferred@) == (
        if trimmed(name@).len() == 0 {
            Seq::empty()
        } else {
            seq![lowercase(trimmed(name@))]
        }),
        kept(section, "model"@) == Some(Json::List(items)) ==> texts(s.models@) == (if trimmed(
            name@,
        ).len() == 0 {
            Seq::empty()
        } else {
            seq![trimmed(name@)]
        }),
{
    let tokens = crate::settings::json_texts(items@);
    assert(tokens =~= seq![name@]);
    assert(crate::settings::all_text(items@));
    assert(tokens.drop_last() =~= Seq::empty());
    reveal_with_fuel(crate::settings::normal, 2);
    assert(crate::settings::normal(tokens.drop_last(), true) =~= Seq::empty());
    assert(crate::settings::normal(tokens.drop_last(), false) =~= Seq::empty());
}

/// The value under a key of a provider in a file.
pub open spec fn value_in(raw: Seq<(String, Json)>, provider: Seq<char>, key: Seq<char>) -> Option<
    Json,
> {
    match member(raw, "providers"@) {
        Some(Json::Object(p)) => match member(p.items@, provider) {
            Some(Json::Object(s)) => member(s.items@, key),
            _ => None,
        },
        _ => None,
    }
}

/// What is set is what is read afterwards, and nothing else changes: every other key of the
/// provider, every other provider and every other member of the file keeps its value. The
/// version is stamped. A file whose sections are no objects is left as it is.
pub proof fn law_a_set_changes_one_key(provider: &str, key: &str, value: Json)
    ensures
        forall|raw: &mut Table<Json>, r: Result<(), SwapdError>|
            crate::settings::well_named(raw.items@) && #[trigger] call_ensures(
                crate::settings::set,
                (raw, provider, key, value),
                r,
            ) ==> {
                &&& r is Ok ==> value_in(final(raw).items@, provider@, key@) == Some(value)
                &&& r is Ok ==> member(final(raw).items@, "schemaVersion"@) == Some(Json::Int(1))
                &&& r is Ok ==> forall|p: Seq<char>, k: Seq<char>|
                    p != provider@ || k != key@ ==> #[trigger] value_in(final(raw).items@, p, k)
                        == value_in(raw.items@, p, k)
                &&& r is Ok ==> forall|k: Seq<char>|
                    k != "providers"@ && k != "schemaVersion"@ ==> #[trigger] member(
                        final(raw).items@,
                        k,
                    ) == member(raw.items@, k)
                &&& r is Err ==> *final(raw) == *raw
                &&& r is Err ==> r->Err_0.code == ErrorCode::InvalidInput
                &&& member(raw.items@, "providers"@) is None ==> r is Ok
            },
{
    assert forall|raw: &mut Table<Json>, r: Result<(), SwapdError>|
        crate::settings::well_named(raw.items@) && #[trigger] call_ensures(
            crate::settings::set,
            (raw, provider, key, value),
            r,
        ) && r is Ok implies value_in(final(raw).items@, provider@, key@) == Some(value) && (forall|
        p: Seq<char>,
        k: Seq<char>,
    |
        p != provider@ || k != key@ ==> #[trigger] value_in(final(raw).items@, p, k) == value_in(
            raw.items@,
            p,
            k,
        )) by {
        let after = final(raw).items@;
        let before = raw.items@;
        assert forall|p: Seq<char>, k: Seq<char>| p != provider@ || k != key@ implies
            #[trigger] value_in(after, p, k) == value_in(before, p, k) by {
            if p != provider@ {
                assert(crate::settings::section_in(after, p) == crate::settings::section_in(
                    before,
                    p,
                ));
            } else {
                let s = crate::settings::section_in(after, p)->0;
                assert(member(s.items@, k) == match crate::settings::section_in(before, p) {
                    Some(was) => member(was.items@, k),
                    None => None,
                });
            }
        }
        let s = crate::settings::section_in(after, provider@)->0;
        assert(member(s.items@, key@) == Some(value));
    }
}

/// What is dropped is gone afterwards, and nothing else changes. The answer is whether it was
/// there; where it was not, the file is left as it is.
pub proof fn law_an_unset_drops_one_key(provider: &str, key: &str)
    ensures
        forall|raw: &mut Table<Json>, r: bool|
            crate::settings::well_named(raw.items@) && (crate::settings::section_in(
                raw.items@,
                provider@,
            ) matches Some(s) ==> unique(s.items@)) && #[trigger] call_ensures(
                unset,
                (raw, provider, key),
                r,
            ) ==> {
                &&& r == (value_in(raw.items@, provider@, key@) is Some)
                &&& !r ==> *final(raw) == *raw
                &&& value_in(final(raw).items@, provider@, key@) is None
                &&& forall|p: Seq<char>, k: Seq<char>|
                    p != provider@ || k != key@ ==> #[trigger] value_in(final(raw).items@, p, k)
                        == value_in(raw.items@, p, k)
                &&& r ==> forall|k: Seq<char>|
                    k != "providers"@ && k != "schemaVersion"@ ==> #[trigger] member(
                        final(raw).items@,
                        k,
                    ) == member(raw.items@, k)
            },
{
    assert forall|raw: &mut Table<Json>, r: bool|
        crate::settings::well_named(raw.items@) && (crate::settings::section_in(
            raw.items@,
            provider@,
        ) matches Some(s) ==> unique(s.items@)) && #[trigger] call_ensures(
            unset,
            (raw, provider, key),
            r,
        ) implies r == (value_in(raw.items@, provider@, key@) is Some) && value_in(
        final(raw).items@,
        provider@,
        key@,
    ) is None && (forall|p: Seq<char>, k: Seq<char>|
        p != provider@ || k != key@ ==> #[trigger] value_in(final(raw).items@, p, k) == value_in(
            raw.items@,
            p,
            k,
        )) by {
        let after = final(raw).items@;
        let before = raw.items@;
        if r {
            let s = crate::settings::section_in(after, provider@)->0;
            assert(member(s.items@, key@) is None);
            assert forall|p: Seq<char>, k: Seq<char>| p != provider@ || k != key@ implies
                #[trigger] value_in(after, p, k) == value_in(before, p, k) by {
                if p != provider@ {
                    assert(crate::settings::section_in(after, p) == crate::settings::section_in(
                        before,
                        p,
                    ));
                } else {
                    assert(member(s.items@, k) == member(
                        crate::settings::section_in(before, p)->0.items@,
                        k,
                    ));
                }
            }
        }
    }
}

/// A file is written exactly where it carries no version, or the one that is written: a
/// version of 1 is accepted, and any other number is refused.
pub proof fn law_a_foreign_version_is_refused(raw: Table<Json>, r: Result<(), SwapdError>, n: i128)
    requires
        call_ensures(check_version, (&raw,), r),
    ensures
        member(raw.items@, "schemaVersion"@) is None ==> r is Ok,
        member(raw.items@, "schemaVersion"@) == Some(Json::Int(1)) ==> r is Ok,
        member(raw.items@, "schemaVersion"@) == Some(Json::Int(n)) && 0 <= n <= u64::MAX && n != 1
            ==> (r is Err && r->Err_0.code == ErrorCode::Unsupported),
{
}

/// Each key is written under its own name, and holds its own setting.
pub proof fn law_a_key_holds_its_own_setting(s: Settings, id: SettingKey, j: Json)
    requires
        call_ensures(Settings::value_of, (&s, id), j),
    ensures
        id is Enabled ==> j == Json::Bool(s.enabled),
        id is Threshold ==> j == Json::Micro(s.threshold),
        id is IntervalSeconds ==> j == Json::Micro(s.interval_seconds),
        id is CooldownSeconds ==> j == Json::Micro(s.cooldown_seconds),
        id is HysteresisPct ==> j == Json::Micro(s.hysteresis_pct),
        id is Strategy ==> j == Json::Str(s.strategy),
        id is IncludeApiKeyAccounts ==> j == Json::Bool(s.include_api_key_accounts),
        id is UnhealthyTicks ==> j == Json::Int(s.unhealthy_ticks as i128),
        id is Preferred ==> (j matches Json::List(l) && l@.len() == s.preferred@.len() && (forall|
            i: int,
        |
            0 <= i < l@.len() ==> #[trigger] l@[i] == Json::Str(s.preferred@[i]))),
        id is Model ==> (j matches Json::List(l) && l@.len() == s.models@.len() && (forall|i: int|
            0 <= i < l@.len() ==> #[trigger] l@[i] == Json::Str(s.models@[i]))),
{
}

} // verus!
