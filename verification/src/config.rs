//! Settings by their full name, listed, read and checked.

use vstd::prelude::*;
use vstd::string::*;

use crate::errors::{error_about, is_error, ErrorCode, SwapdError};
use crate::json::{member, member_of, Json};
use crate::numfmt::{join, joined, pct_label, pct_text};
use crate::settings::{
    all_text, from_section, is_default, is_known, json_texts, known_keys, loaded, section_in,
    section_of, spec, specs, Settings, SettingKey, Spec,
};
use crate::split::{parted, split_once, Sep};
use crate::table::Table;
use crate::text::{copy_list, decimal, holds, show_wide, texts};

verus! {

/// Some settings.
#[derive(Debug)]
pub struct ConfigOutput {
    pub schema_version: u32,
    pub settings: Vec<SettingView>,
}

/// One setting.
#[derive(Debug)]
pub struct SettingView {
    pub key: String,
    pub value: Json,
    /// Whether the file names the key, as opposed to the default.
    pub is_set: bool,
    pub default: Json,
    /// One line that describes the key.
    pub help: &'static str,
}

/// The provider and the key of a full name, both known.
pub open spec fn name_parts(key: Seq<char>, registry: Seq<Seq<char>>) -> Option<(Seq<char>, Seq<char>)> {
    match parted(key, Sep::Is('.')) {
        Some(p) => if registry.contains(p.0) && is_known(p.1) {
            Some(p)
        } else {
            None
        },
        None => None,
    }
}

/// The full names of the keys of a provider.
pub open spec fn full_names(provider: Seq<char>) -> Seq<Seq<char>> {
    known_keys().map_values(|k: SettingKey| provider + "."@ + k.text())
}

/// The full names of the keys of every provider.
pub open spec fn all_names(registry: Seq<Seq<char>>) -> Seq<Seq<char>>
    decreases registry.len(),
{
    if registry.len() == 0 {
        Seq::empty()
    } else {
        all_names(registry.drop_last()) + full_names(registry.last())
    }
}

fn list_names(registry: &Vec<String>) -> (r: Vec<String>)
    ensures
        texts(r@) == all_names(texts(registry@)),
{
    let ghost all = texts(registry@);
    let keys: Vec<Spec> = specs();
    let mut r: Vec<String> = Vec::new();
    let mut i: usize = 0;
    assert(all.take(0) =~= Seq::empty());
    assert(texts(r@) =~= Seq::empty());
    while i < registry.len()
        invariant
            i <= registry.len(),
            all == texts(registry@),
            keys@.len() == known_keys().len(),
            forall|k: int|
                0 <= k < keys@.len() ==> (#[trigger] keys@[k]).wf() && keys@[k].id == known_keys()[k],
            texts(r@) == all_names(all.take(i as int)),
        decreases registry.len() - i,
    {
        assert(all.take(i + 1).drop_last() =~= all.take(i as int));
        assert(all[i as int] == registry@[i as int]@);
        let ghost before = texts(r@);
        let ghost goal = full_names(all[i as int]);
        let mut k: usize = 0;
        assert(texts(r@) =~= before + goal.take(0));
        while k < keys.len()
            invariant
                i < registry.len(),
                k <= keys.len(),
                keys@.len() == known_keys().len(),
                forall|j: int|
                    0 <= j < keys@.len() ==> (#[trigger] keys@[j]).wf() && keys@[j].id
                        == known_keys()[j],
                goal == full_names(registry@[i as int]@),
                texts(r@) == before + goal.take(k as int),
            decreases keys.len() - k,
        {
            broadcast use crate::text::lemma_texts_push;

            assert(keys@[k as int].wf());
            r.push(registry[i].clone().concat(".").concat(keys[k].key));
            assert(goal[k as int] == registry@[i as int]@ + "."@ + known_keys()[k as int].text());
            assert(before + goal.take(k + 1) =~= (before + goal.take(k as int)).push(goal[k as int]));
            k += 1;
        }
        assert(goal.take(goal.len() as int) =~= goal);
        i += 1;
    }
    assert(all.take(all.len() as int) =~= all);
    r
}

/// The error for a name that is not known: it lists those that are.
pub open spec fn unknown_text(key: Seq<char>, registry: Seq<Seq<char>>) -> Seq<char> {
    "unknown setting '"@ + key + ("'; valid keys: "@ + joined(all_names(registry), ", "@))
}

/// The error for a name that is not known.
pub fn unknown_key(key: &str, registry: &Vec<String>) -> (e: SwapdError)
    ensures
        is_error(e, ErrorCode::InvalidInput, unknown_text(key@, texts(registry@))),
{
    error_about(
        ErrorCode::InvalidInput,
        "unknown setting '",
        key,
        "'; valid keys: ".to_owned().concat(join(&list_names(registry), ", ").as_str()).as_str(),
    )
}

/// The provider and the key of a full name, both checked: a misspelt name is not stored.
pub fn split_key(key: &str, registry: &Vec<String>) -> (r: Result<(String, Spec), SwapdError>)
    ensures
        match name_parts(key@, texts(registry@)) {
            Some(p) => r matches Ok(x) && x.0@ == p.0 && x.1.wf() && x.1.key@ == p.1,
            None => r matches Err(e) && is_error(
                e,
                ErrorCode::InvalidInput,
                unknown_text(key@, texts(registry@)),
            ),
        },
{
    let (provider, name): (String, String) = match split_once(key, Sep::Is('.')) {
        Some(p) => p,
        None => {
            return Err(unknown_key(key, registry));
        },
    };
    if !holds(registry, provider.as_str()) {
        return Err(unknown_key(key, registry));
    }
    match spec(name.as_str()) {
        Some(s) => Ok((provider, s)),
        None => Err(unknown_key(key, registry)),
    }
}

/// The providers that a caller names: all of them, or the one.
pub fn providers_for(filter: Option<&str>, registry: &Vec<String>) -> (r: Result<
    Vec<String>,
    SwapdError,
>)
    ensures
        match filter {
            None => r matches Ok(v) && v@ == registry@,
            Some(id) => if texts(registry@).contains(id@) {
                r matches Ok(v) && texts(v@) == seq![id@]
            } else {
                r matches Err(e) && is_error(
                    e,
                    ErrorCode::InvalidInput,
                    "unknown provider: "@ + id@ + ""@,
                )
            },
        },
{
    match filter {
        None => Ok(copy_list(registry)),
        Some(id) => {
            if !holds(registry, id) {
                return Err(error_about(ErrorCode::InvalidInput, "unknown provider: ", id, ""));
            }
            let mut v: Vec<String> = Vec::new();
            v.push(id.to_owned());
            assert(texts(v@) =~= seq![id@]);
            Ok(v)
        },
    }
}

/// Whether a view shows a key of a provider's section.
pub open spec fn shows(
    v: SettingView,
    provider: Seq<char>,
    id: SettingKey,
    section: Option<Table<Json>>,
) -> bool {
    &&& v.key@ == provider + "."@ + id.text()
    &&& v.help@ == id.help_text()
    &&& v.is_set == (section matches Some(s) && member(s.items@, id.text()) is Some)
    &&& exists|effective: Settings| loaded(effective, section) && effective.writes(id, v.value)
    &&& exists|plain: Settings| is_default(plain) && plain.writes(id, v.default)
}

/// One setting of a provider.
pub fn view(provider: &str, key: &Spec, effective: &Settings, section: Option<&Table<Json>>) -> (v:
    SettingView)
    requires
        key.wf(),
        loaded(
            *effective,
            match section {
                Some(s) => Some(*s),
                None => None,
            },
        ),
    ensures
        shows(
            v,
            provider@,
            key.id,
            match section {
                Some(s) => Some(*s),
                None => None,
            },
        ),
{
    let plain: Settings = Settings::default();
    let is_set: bool = match section {
        Some(s) => member_of(s, key.key).is_some(),
        None => false,
    };
    let value: Json = effective.value_of(key.id);
    let default: Json = plain.value_of(key.id);
    proof {
        assert(effective.writes(key.id, value));
        assert(is_default(plain) && plain.writes(key.id, default));
    }
    SettingView {
        key: provider.to_owned().concat(".").concat(key.key),
        value,
        is_set,
        default,
        help: key.help,
    }
}

/// A settings value of the kind that is shown: no object, and lists of texts only.
pub open spec fn plain_value(j: Json) -> bool {
    match j {
        Json::Object(_) => false,
        Json::List(items) => all_text(items@),
        _ => true,
    }
}

/// A number in millionths as a fraction, with one digit behind the point at the least.
pub open spec fn fraction_text(x: int) -> Seq<char> {
    if x % 1_000_000 == 0 {
        pct_text(x) + ".0"@
    } else {
        pct_text(x)
    }
}

/// A whole number as text.
pub open spec fn int_text(n: int) -> Seq<char> {
    if n < 0 {
        "-"@ + decimal((-n) as nat)
    } else {
        decimal(n as nat)
    }
}

/// A value the way a person reads it: a list with commas, a text bare.
pub open spec fn rendered(j: Json) -> Seq<char> {
    match j {
        Json::Null => "null"@,
        Json::Bool(b) => if b {
            "true"@
        } else {
            "false"@
        },
        Json::Int(n) => int_text(n as int),
        Json::Micro(x) => fraction_text(x as int),
        Json::Str(s) => s@,
        Json::List(items) => joined(json_texts(items@), ", "@),
        Json::Object(_) => Seq::empty(),
    }
}

/// A settings value the way a person reads it.
pub fn render(j: &Json) -> (r: String)
    requires
        plain_value(*j),
    ensures
        r@ == rendered(*j),
{
    match j {
        Json::Null => "null".to_owned(),
        Json::Bool(b) => if *b {
            "true".to_owned()
        } else {
            "false".to_owned()
        },
        Json::Int(n) => if *n < 0 {
            "-".to_owned().concat(show_wide((-(*n + 1)) as u128 + 1).as_str())
        } else {
            show_wide(*n as u128)
        },
        Json::Micro(x) => {
            let whole: bool = *x % 1_000_000 == 0;
            assert(whole == (*x as int % 1_000_000 == 0)) by {
                if *x < 0 {
                    assert((-(*x as int)) % 1_000_000 == 0 <==> (*x as int) % 1_000_000 == 0);
                }
            }
            if whole {
                pct_label(*x).concat(".0")
            } else {
                pct_label(*x)
            }
        },
        Json::Str(s) => s.clone(),
        Json::List(items) => {
            let ghost goal = json_texts(items@);
            let mut parts: Vec<String> = Vec::new();
            let mut i: usize = 0;
            while i < items.len()
                invariant
                    i <= items.len(),
                    all_text(items@),
                    goal == json_texts(items@),
                    texts(parts@) =~= goal.take(i as int),
                decreases items.len() - i,
            {
                broadcast use crate::text::lemma_texts_push;

                assert(items@[i as int] is Str);
                if let Json::Str(s) = &items[i] {
                    parts.push(s.clone());
                    assert(goal[i as int] == s@);
                }
                i += 1;
            }
            assert(goal.take(goal.len() as int) =~= goal);
            join(&parts, ", ")
        },
        Json::Object(_) => String::new(),
    }
}

/// One setting as a line.
pub fn setting_line(v: &SettingView) -> (r: String)
    requires
        plain_value(v.value),
    ensures
        r@ == v.key@ + " = "@ + rendered(v.value) + (if v.is_set {
            ""@
        } else {
            " (default)"@
        }),
{
    let tail: &str = if v.is_set {
        ""
    } else {
        " (default)"
    };
    v.key.clone().concat(" = ").concat(render(&v.value).as_str()).concat(tail)
}

/// Whether views show every key of a provider's section, in turn.
pub open spec fn shows_all(
    views: Seq<SettingView>,
    provider: Seq<char>,
    section: Option<Table<Json>>,
    n: int,
) -> bool {
    views.len() == n && forall|i: int|
        0 <= i < n ==> shows(#[trigger] views[i], provider, known_keys()[i], section)
}

/// Every setting of a provider.
pub fn list_provider(raw: &Table<Json>, provider: &str) -> (views: Vec<SettingView>)
    ensures
        shows_all(views@, provider@, section_in(raw.items@, provider@), 10),
{
    let section: Option<&Table<Json>> = section_of(raw, provider);
    let effective: Settings = effective_of(section);
    let keys: Vec<Spec> = specs();
    let ghost s = section_in(raw.items@, provider@);
    let mut views: Vec<SettingView> = Vec::new();
    let mut i: usize = 0;
    while i < keys.len()
        invariant
            i <= keys.len(),
            keys@.len() == known_keys().len(),
            keys@.len() == 10,
            forall|k: int|
                0 <= k < keys@.len() ==> (#[trigger] keys@[k]).wf() && keys@[k].id == known_keys()[k],
            s == (match section {
                Some(t) => Some(*t),
                None => None,
            }),
            loaded(effective, s),
            shows_all(views@, provider@, s, i as int),
        decreases keys.len() - i,
    {
        assert(keys@[i as int].wf());
        let v: SettingView = view(provider, &keys[i], &effective, section);
        views.push(v);
        i += 1;
    }
    views
}

/// The settings of an optional section.
pub fn effective_of(section: Option<&Table<Json>>) -> (r: Settings)
    ensures
        loaded(
            r,
            match section {
                Some(s) => Some(*s),
                None => None,
            },
        ),
{
    match section {
        Some(s) => crate::settings::from_table(s),
        None => from_section(&None),
    }
}

} // verus!
