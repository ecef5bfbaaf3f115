use swapd::config::{list_provider, render, providers_for, setting_line, split_key};
use swapd::errors::ErrorCode;
use swapd::json::{member_of, Json};
use swapd::settings::{
    check_version, normalize, from_section, from_table, parse_value, section_of, spec, specs, unset,
    Settings,
};
use swapd::table::Table;

fn m(x: f64) -> i64 {
    (x * 1e6).round() as i64
}

fn object(items: Vec<(&str, Json)>) -> Table<Json> {
    let mut t = Table::new();
    for (k, v) in items {
        t.insert(k.to_string(), v);
    }
    t
}

fn text(s: &str) -> Json {
    Json::Str(s.to_string())
}

#[test]
fn defaults_are_cswaps_autoswitch_defaults() {
    let s = Settings::default();
    assert!(s.enabled);
    assert_eq!(s.threshold, m(90.0));
    assert_eq!(s.interval_seconds, m(60.0));
    assert_eq!(s.cooldown_seconds, m(300.0));
    assert_eq!(s.hysteresis_pct, m(10.0));
    assert_eq!(s.strategy, "best");
    assert!(!s.include_api_key_accounts);
    assert_eq!(s.unhealthy_ticks, 3);
    assert!(s.preferred.is_empty());
    assert!(s.models.is_empty());
}

#[test]
fn load_clamps_and_keeps_the_default_for_a_mistyped_value() {
    let s = from_table(&object(vec![
        ("threshold", Json::Micro(m(120.0))),
        ("unhealthyTicks", Json::Int(0)),
        ("intervalSeconds", text("soon")),
        ("strategy", text("vibes")),
    ]));
    assert_eq!(s.threshold, m(99.9), "clamped to the spec's ceiling");
    assert_eq!(s.unhealthy_ticks, 1, "clamped to the spec's floor");
    assert_eq!(s.interval_seconds, m(60.0), "mistyped falls back");
    assert_eq!(s.strategy, "best", "unknown choice falls back");
}

#[test]
fn lists_take_an_array_or_cswaps_comma_string() {
    let s = from_table(&object(vec![
        ("preferred", Json::List(vec![text("ONE@example.com"), text(" 2 ")])),
        ("model", text("Fable, fable ,Opus")),
    ]));
    assert_eq!(s.preferred, vec!["one@example.com", "2"]);
    assert_eq!(s.models, vec!["Fable", "Opus"], "first spelling wins");
    let s = from_section(&Some(object(vec![("preferred", text("one@example.com, 2"))])));
    assert_eq!(s.preferred, vec!["one@example.com", "2"]);
}

#[test]
fn set_is_strict_where_load_is_lenient() {
    let threshold = spec("threshold").unwrap();
    assert!(parse_value(&threshold, "120", Some(m(120.0))).is_err());
    assert!(matches!(
        parse_value(&threshold, "95", Some(m(95.0))),
        Ok(Json::Micro(v)) if v == m(95.0)
    ));
    let enabled = spec("enabled").unwrap();
    assert!(matches!(parse_value(&enabled, "no", None), Ok(Json::Bool(false))));
    assert!(parse_value(&enabled, "maybe", None).is_err());
    let strategy = spec("strategy").unwrap();
    assert!(parse_value(&strategy, "vibes", None).is_err());
    assert!(matches!(
        parse_value(&strategy, "consume-first", None),
        Ok(Json::Str(s)) if s == "consume-first"
    ));
}

#[test]
fn a_refused_value_names_the_range_or_the_choices() {
    let said = |key: &str, raw: &str, float: Option<f64>| {
        let e = parse_value(&spec(key).unwrap(), raw, float.map(m)).unwrap_err();
        assert_eq!(e.code, ErrorCode::InvalidInput);
        e.message
    };
    assert_eq!(said("threshold", "x", None), "threshold expects a number, got 'x'");
    assert_eq!(said("threshold", "1", Some(1.0)), "threshold must be between 50 and 99.9");
    assert_eq!(said("unhealthyTicks", "1.5", None), "unhealthyTicks expects an integer, got '1.5'");
    assert_eq!(said("unhealthyTicks", "0", None), "unhealthyTicks must be between 1 and 100");
    assert_eq!(
        said("strategy", "x", None),
        "strategy must be one of: best, consume-first, next-available"
    );
    assert_eq!(
        said("enabled", "x", None),
        "enabled expects true or false (or 1/0, yes/no), got 'x'"
    );
    assert_eq!(
        said("model", " , ", None),
        "model expects a non-empty value; use 'swapd config unset' to clear it"
    );
    assert!(matches!(parse_value(&spec("unhealthyTicks").unwrap(), " +7 ", None), Ok(Json::Int(7))));
    assert!(spec("nothing").is_none());
    assert_eq!(specs().len(), 10);
}

#[test]
fn what_is_set_is_loaded_and_the_rest_survives() {
    let mut raw = object(vec![
        ("other", Json::Int(5)),
        ("providers", Json::Object(object(vec![(
            "gemini",
            Json::Object(object(vec![("enabled", Json::Bool(false)), ("later", Json::Null)])),
        )]))),
    ]);
    assert!(check_version(&raw).is_ok());
    swapd::settings::set(&mut raw, "codex", "threshold", Json::Micro(m(75.0))).unwrap();
    assert_eq!(from_table(section_of(&raw, "codex").unwrap()).threshold, m(75.0));
    assert!(!from_table(section_of(&raw, "gemini").unwrap()).enabled);
    assert!(matches!(member_of(&raw, "other"), Some(Json::Int(5))));
    assert!(matches!(member_of(&raw, "schemaVersion"), Some(Json::Int(1))));
    assert!(unset(&mut raw, "gemini", "enabled"));
    assert!(!unset(&mut raw, "gemini", "enabled"));
    assert!(from_table(section_of(&raw, "gemini").unwrap()).enabled);
    assert!(member_of(section_of(&raw, "gemini").unwrap(), "later").is_some());

    let mut broken = object(vec![("providers", Json::Int(1))]);
    let e = swapd::settings::set(&mut broken, "codex", "threshold", Json::Null).unwrap_err();
    assert_eq!(e.message, "settings.json: 'providers' is not a JSON object");
    let newer = object(vec![("schemaVersion", Json::Int(2))]);
    assert_eq!(
        check_version(&newer).unwrap_err().message,
        "settings.json is schemaVersion 2; this build writes 1"
    );
}

#[test]
fn settings_are_listed_by_their_full_names() {
    let registry = vec!["codex".to_string()];
    let raw = object(vec![(
        "providers",
        Json::Object(object(vec![(
            "codex",
            Json::Object(object(vec![("model", text("Fable,Opus"))])),
        )])),
    )]);
    let views = list_provider(&raw, "codex");
    let lines: Vec<String> = views.iter().map(setting_line).collect();
    assert_eq!(lines[0], "codex.enabled = true (default)");
    assert_eq!(lines[1], "codex.threshold = 90.0 (default)");
    assert_eq!(lines[7], "codex.unhealthyTicks = 3 (default)");
    assert_eq!(lines[9], "codex.model = Fable, Opus");
    assert_eq!(split_key("codex.threshold", &registry).unwrap().1.key, "threshold");
    let e = split_key("codex.nothing", &registry).unwrap_err();
    assert!(e.message.starts_with("unknown setting 'codex.nothing'; valid keys: codex.enabled, "));
    assert!(split_key("nobody.threshold", &registry).is_err());
    assert!(providers_for(Some("nobody"), &registry).is_err());
    assert_eq!(providers_for(None, &registry).unwrap(), registry);
}

#[test]
fn a_normal_list_keeps_the_first_spellings_in_order() {
    let names = |list: &[&str]| list.iter().map(|s| s.to_string()).collect::<Vec<String>>();
    let tokens = names(&[" Opus ", "", "fable", "OPUS", "  ", "Fable", "Haiku"]);
    let given = normalize(&tokens, false);
    assert_eq!(given, vec!["Opus", "fable", "Haiku"]);
    assert_eq!(normalize(&given, false), given);
    let folded = normalize(&tokens, true);
    assert_eq!(folded, vec!["opus", "fable", "haiku"]);
    assert_eq!(normalize(&folded, true), folded);
}

#[test]
fn each_key_has_its_line_of_help() {
    let help = |key: &str| spec(key).unwrap().help;
    assert_eq!(help("threshold"), "Switch when the binding 5h/7d window reaches this pct");
    assert_eq!(help("cooldownSeconds"), "Minimum seconds between proactive switches");
    assert_eq!(list_provider(&Table::new(), "codex")[5].help, help("strategy"));
    assert_eq!(help("strategy"), "How the auto loop picks the target account");
}

#[test]
fn any_whole_number_is_shown() {
    assert_eq!(render(&Json::Int(i128::MIN)), i128::MIN.to_string());
    assert_eq!(render(&Json::Int(i64::MAX as i128)), i64::MAX.to_string());
    assert_eq!(render(&Json::Int(-5)), "-5");
}
