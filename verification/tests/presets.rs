use mogwai_server::presets::{
    effective_preset, preset_document, preset_message, resolve_document, resolve_instrument_table,
    PresetError, PresetShelf,
};
use mogwai_server::provenance::{
    validate_provenance, Cause, Field, ProvenanceError, ProvenanceFault,
};
use mogwai_server::tree::{replace_dotted, split_path};

const MNQ: &str = r#"
[instrument]
symbol = "MNQ"
price_precision = 2

[instrument.class]
kind = "future"
multiplier = "2"

[instrument.generator]
start_price = "28284.00"

[provenance]
symbol = { kind = "declared", rationale = "the listed name" }
price_precision = { kind = "declared", rationale = "quarter points" }
"class.kind" = { kind = "declared", rationale = "it is one" }
"class.multiplier" = { kind = "declared", rationale = "two dollars a point", accepted_diagnostics = ["odd"] }
"generator.start_price" = { kind = "fitted", corpus = "MNQ.v.0", window = "2026-07" }
"#;

const MES: &str = r#"
[instrument]
preset = "mnq"

[instrument.override]
symbol = "MES"
"class.multiplier" = "5"

[provenance]
"class.multiplier" = { kind = "derived", from = ["symbol"] }
"#;

fn shelf() -> PresetShelf {
    PresetShelf {
        mnq: MNQ.to_string(),
        mes: MES.to_string(),
        btcusdt: "[instrument]\n".to_string(),
        ethusdt: "instrument = 1\n".to_string(),
        solusdt: "[instrument\n".to_string(),
    }
}

fn table(text: &str) -> toml::Table {
    toml::from_str(text).expect("a table")
}

fn refused(shelf: &PresetShelf, operator: &str) -> String {
    preset_message(&resolve_instrument_table(shelf, table(operator)).expect_err("it is refused"))
}

#[test]
fn a_document_is_found_in_any_case() {
    let shelf = shelf();
    assert_eq!(preset_document(&shelf, "MNQ"), Some(MNQ));
    assert_eq!(preset_document(&shelf, "mnq"), Some(MNQ));
    assert_eq!(preset_document(&shelf, "MeS"), Some(MES));
    assert_eq!(preset_document(&shelf, "ES"), None);
}

#[test]
fn a_preset_comes_to_what_it_states() {
    let (instrument, provenance) = effective_preset(&shelf(), "MNQ").expect("it is sound");
    assert_eq!(instrument["symbol"].as_str(), Some("MNQ"));
    assert_eq!(instrument["class"]["multiplier"].as_str(), Some("2"));
    assert_eq!(provenance.len(), 5);
}

#[test]
fn a_preset_inherits_and_overrides() {
    let (instrument, provenance) = effective_preset(&shelf(), "MES").expect("it is sound");
    assert_eq!(instrument["symbol"].as_str(), Some("MES"));
    assert_eq!(instrument["class"]["multiplier"].as_str(), Some("5"));
    assert_eq!(instrument["class"]["kind"].as_str(), Some("future"));
    assert_eq!(
        instrument["generator"]["start_price"].as_str(),
        Some("28284.00")
    );
    assert!(!instrument.contains_key("preset"));
    assert!(!instrument.contains_key("override"));
    assert_eq!(
        provenance["class.multiplier"]["kind"].as_str(),
        Some("derived")
    );
    assert_eq!(provenance["symbol"]["kind"].as_str(), Some("declared"));
}

#[test]
fn a_preset_with_incomplete_provenance_refuses_boot() {
    let instrument = table("symbol = \"MNQ\"\nprice_precision = 2");
    let provenance = table("symbol = { kind = \"declared\", rationale = \"test symbol\" }");
    let error = validate_provenance(&instrument, &provenance).unwrap_err();
    let error = PresetError::Provenance {
        name: "BROKEN".to_string(),
        error,
    };
    let message = preset_message(&error);
    assert!(message.contains("price_precision"), "{message}");
    assert_eq!(
        message,
        "preset BROKEN provenance is incomplete: missing [\"price_precision\"], extra []"
    );
}

#[test]
fn what_is_missing_and_what_is_extra_come_in_order() {
    let instrument = table("b = 1\na = 1\n[c]\nz = 1\ny = 1\n");
    let provenance = table("a = { kind = \"declared\", rationale = \"r\" }\nq = 1\np = 1\n");
    match validate_provenance(&instrument, &provenance).unwrap_err() {
        ProvenanceError::Incomplete { missing, extra } => {
            assert_eq!(missing, ["b", "c.y", "c.z"]);
            assert_eq!(extra, ["p", "q"]);
        }
        other => panic!("{other:?}"),
    }
}

fn fault(entry: &str) -> Option<ProvenanceFault> {
    let instrument = table("a = 1\nb = 2\n");
    let provenance = table(&format!(
        "a = {entry}\nb = {{ kind = \"declared\", rationale = \"r\" }}\n"
    ));
    match validate_provenance(&instrument, &provenance) {
        Ok(()) => None,
        Err(ProvenanceError::Faulty { path, fault }) => {
            assert_eq!(path, "a");
            Some(fault)
        }
        Err(other) => panic!("{other:?}"),
    }
}

fn invalid(cause: Cause) -> Option<ProvenanceFault> {
    Some(ProvenanceFault::Invalid { cause })
}

#[test]
fn a_faulty_entry_is_refused_for_its_fault() {
    for (entry, expected) in [
        ("{ kind = \"fitted\", corpus = \"c\", window = \"w\" }", None),
        ("{ kind = \"derived\", from = [\"b\"] }", None),
        ("{ kind = \"derived\", from = [\"a\", \"b\"] }", None),
        (
            "{ kind = \"declared\", rationale = \"r\", accepted_diagnostics = [\"d\"] }",
            None,
        ),
        ("[\"declared\", \"r\"]", None),
        ("[\"fitted\", \"c\", \"w\", [\"d\"]]", None),
        ("1", invalid(Cause::NoParts)),
        ("\"declared\"", invalid(Cause::NoParts)),
        ("{ rationale = \"r\" }", invalid(Cause::Missing { field: Field::Kind })),
        ("{ kind = \"guessed\", rationale = \"r\" }", invalid(Cause::UnknownKind)),
        ("{ kind = \"Declared\", rationale = \"r\" }", invalid(Cause::UnknownKind)),
        ("{ kind = \"declared\" }", invalid(Cause::Missing { field: Field::Rationale })),
        ("{ kind = \"declared\", rationale = 1 }", invalid(Cause::Mistyped { field: Field::Rationale })),
        (
            "{ kind = \"declared\", rationale = \"r\", corpus = \"c\" }",
            invalid(Cause::Unexpected),
        ),
        (
            "{ kind = \"declared\", rationale = \"r\", accepted_diagnostics = [1] }",
            invalid(Cause::Mistyped { field: Field::AcceptedDiagnostics }),
        ),
        (
            "{ kind = \"fitted\", window = \"w\" }",
            invalid(Cause::Missing { field: Field::Corpus }),
        ),
        (
            "{ kind = \"fitted\", corpus = \"c\" }",
            invalid(Cause::Missing { field: Field::Window }),
        ),
        ("{ kind = 1 }", invalid(Cause::Mistyped { field: Field::Kind })),
        ("{ kind = \"derived\", from = \"b\" }", invalid(Cause::Mistyped { field: Field::From })),
        ("[\"declared\", \"r\", [], \"more\"]", invalid(Cause::Unexpected)),
        (
            "{ kind = \"fitted\", corpus = \" \", window = \"w\" }",
            Some(ProvenanceFault::NoCorpus),
        ),
        (
            "{ kind = \"fitted\", corpus = \"c\", window = \"\" }",
            Some(ProvenanceFault::NoCorpus),
        ),
        ("{ kind = \"derived\", from = [] }", Some(ProvenanceFault::NoSources)),
        ("{ kind = \"derived\", from = [\"b\", \"c\"] }", Some(ProvenanceFault::NoSources)),
        (
            "{ kind = \"declared\", rationale = \"\\t\" }",
            Some(ProvenanceFault::NoRationale),
        ),
        (
            "{ kind = \"declared\", rationale = \"r\", accepted_diagnostics = [\"d\", \"\"] }",
            Some(ProvenanceFault::EmptyDiagnostic),
        ),
    ] {
        assert_eq!(fault(entry), expected, "{entry}");
    }
}

#[test]
fn a_config_with_top_level_base_and_quote_refuses_boot_naming_the_class_table() {
    let message = refused(
        &shelf(),
        "symbol = \"BTCUSDT\"\nbase = \"BTC\"\nquote = \"USDT\"\n",
    );
    assert!(message.contains("instrument.class"), "{message}");
    assert!(message.contains("kind = \"spot\""), "{message}");
    assert!(message.starts_with("instrument.base "), "{message}");
    let message = refused(&shelf(), "quote = \"USDT\"\n");
    assert!(message.starts_with("instrument.quote "), "{message}");
}

#[test]
fn a_preset_key_restated_at_the_top_level_refuses_boot() {
    let message = refused(&shelf(), "preset = \"MNQ\"\nsymbol = \"MNQ\"\n");
    assert!(message.contains("override"), "{message}");
    assert_eq!(
        message,
        "preset key symbol must be stated under instrument.override"
    );
}

#[test]
fn an_override_of_a_path_the_preset_does_not_set_refuses_boot() {
    let message = refused(
        &shelf(),
        "preset = \"MNQ\"\n[override]\n\"class.typo\" = \"x\"\n",
    );
    assert!(message.contains("class.typo"), "{message}");
    assert_eq!(message, "preset does not set override path class.typo");
}

#[test]
fn an_override_table_entry_wins_and_is_logged_with_both_values() {
    let resolved = resolve_instrument_table(
        &shelf(),
        table("preset = \"MNQ\"\n[override]\n\"class.multiplier\" = \"3\"\n"),
    )
    .unwrap();
    assert_eq!(resolved["class"]["multiplier"].as_str(), Some("3"));
    assert_eq!(resolved["class"]["kind"].as_str(), Some("future"));
    assert_eq!(resolved["symbol"].as_str(), Some("MNQ"));
}

#[test]
fn the_arrival_is_the_one_key_that_an_override_adds() {
    let arrival = "preset = \"MNQ\"\n[override]\n\"generator.arrival\" = { rate = 2 }\n";
    let resolved = resolve_instrument_table(&shelf(), table(arrival)).unwrap();
    assert_eq!(
        resolved["generator"]["arrival"]["rate"].as_integer(),
        Some(2)
    );
    assert_eq!(
        resolved["generator"]["start_price"].as_str(),
        Some("28284.00")
    );
    let other = "preset = \"MNQ\"\n[override]\n\"generator.arrivals\" = 1\n";
    assert_eq!(
        refused(&shelf(), other),
        "preset does not set override path generator.arrivals"
    );
}

#[test]
fn a_table_without_a_preset_stays_as_it_is() {
    let operator = table("symbol = \"X\"\n[override]\na = 1\n");
    let resolved = resolve_instrument_table(&shelf(), operator.clone()).unwrap();
    assert_eq!(resolved, operator);
}

#[test]
fn what_is_wrong_with_a_preset_is_said() {
    let shelf = shelf();
    assert_eq!(
        refused(&shelf, "preset = \"NOPE\"\n"),
        "unknown instrument preset NOPE"
    );
    assert_eq!(
        refused(&shelf, "preset = 1\n"),
        "instrument.preset must be a string"
    );
    assert_eq!(
        refused(&shelf, "preset = \"BTCUSDT\"\n"),
        "preset BTCUSDT has no provenance table"
    );
    assert_eq!(
        refused(&shelf, "preset = \"ETHUSDT\"\n"),
        "preset ETHUSDT has no instrument table"
    );
    let unreadable = effective_preset(&shelf, "SOLUSDT").unwrap_err();
    match &unreadable {
        PresetError::Unreadable { fault } => {
            assert_eq!(
                *fault,
                toml::from_str::<toml::Table>("[instrument\n")
                    .unwrap_err()
                    .to_string()
            );
            assert_eq!(preset_message(&unreadable), *fault);
        }
        other => panic!("{other:?}"),
    }
}

fn with_mes(mes: &str) -> PresetShelf {
    PresetShelf {
        mes: mes.to_string(),
        ..shelf()
    }
}

#[test]
fn what_is_wrong_with_a_child_is_said() {
    let message = |mes: &str| {
        preset_message(&effective_preset(&with_mes(mes), "MES").expect_err("it is refused"))
    };
    assert_eq!(
        message("[instrument]\npreset = 1\n[provenance]\n"),
        "preset MES instrument.preset must be a string"
    );
    assert_eq!(
        message("[instrument]\npreset = \"MNQ\"\nsymbol = \"MES\"\n[provenance]\n"),
        "preset MES restates inherited key symbol; use instrument.override"
    );
    assert_eq!(
        message("[instrument]\npreset = \"MNQ\"\n[instrument.override]\nsize = 1\n[provenance]\n"),
        "preset does not set override path size"
    );
    assert_eq!(
        message("[instrument]\npreset = \"MNQ\"\nextra = 1\n[provenance]\n"),
        "preset MES provenance is incomplete: missing [\"extra\"], extra []"
    );
    assert_eq!(
        message("[instrument]\npreset = \"MNQ\"\n[provenance]\nsymbol = 3\n"),
        "preset MES provenance for symbol is invalid: expected a table"
    );
    for (entry, said) in [
        ("{ rationale = \"r\" }", "missing field `kind`"),
        ("{ kind = \"declared\" }", "missing field `rationale`"),
        ("{ kind = \"derived\", from = 2 }", "invalid type of field `from`"),
        ("{ kind = \"declared\", rationale = \"r\", why = 1 }", "unknown field"),
        (
            "{ kind = \"guessed\" }",
            "unknown variant, expected one of `fitted`, `derived`, `declared`",
        ),
    ] {
        let text = format!("[instrument]\npreset = \"MNQ\"\n[provenance]\nsymbol = {entry}\n");
        assert_eq!(
            message(&text),
            format!("preset MES provenance for symbol is invalid: {said}")
        );
    }
    assert_eq!(
        message("[instrument]\npreset = \"NQ\"\n[provenance]\n"),
        "unknown instrument preset NQ"
    );
}

#[test]
fn a_preset_that_is_its_own_ancestor_is_refused() {
    let circle = with_mes("[instrument]\npreset = \"mes\"\n[provenance]\n");
    assert!(matches!(
        effective_preset(&circle, "MES"),
        Err(PresetError::Endless { .. })
    ));
}

#[test]
fn a_documents_instrument_is_resolved_in_place() {
    let text = "seed = 7\n[instrument]\npreset = \"MES\"\n";
    let resolved = resolve_document(&shelf(), text).unwrap();
    assert_eq!(resolved["seed"].as_integer(), Some(7));
    assert_eq!(resolved["instrument"]["symbol"].as_str(), Some("MES"));
    let plain = resolve_document(&shelf(), "seed = 7\n").unwrap();
    assert_eq!(plain, table("seed = 7\n"));
    assert!(matches!(
        resolve_document(&shelf(), "seed = \n"),
        Err(PresetError::Unreadable { .. })
    ));
    assert!(matches!(
        resolve_document(&shelf(), "[instrument]\npreset = \"NOPE\"\n"),
        Err(PresetError::Unknown { .. })
    ));
}

#[test]
fn a_config_naming_two_instruments_fails_to_parse() {
    let two = "\n[[instrument]]\nsymbol = \"BTCUSDT\"\n[[instrument]]\nsymbol = \"ETHUSDT\"\n";
    let error = resolve_document(&shelf(), two).expect_err("a list of instruments is refused");
    assert!(matches!(error, PresetError::InstrumentIsNoTable));
    let error = preset_message(&error);
    assert!(
        error.contains("instrument"),
        "the parse error names the offending key: {error}"
    );
    assert!(resolve_document(&shelf(), "instrument = 1\n").is_err());
}

#[test]
fn a_path_is_split_at_its_dots() {
    assert_eq!(split_path("a"), ["a"]);
    assert_eq!(split_path("a.b.c"), ["a", "b", "c"]);
    assert_eq!(split_path(""), [""]);
    assert_eq!(split_path(".a."), ["", "a", ""]);
}

#[test]
fn a_replacement_reaches_its_path_and_no_other() {
    let mut held = table("x = 1\n[a]\nb = 2\nc = 3\n");
    assert!(replace_dotted(&mut held, "a.b", toml::Value::Integer(9)));
    assert_eq!(held, table("x = 1\n[a]\nb = 9\nc = 3\n"));
    for path in ["a.d", "x.b", "y", "", "a.b.c"] {
        assert!(
            !replace_dotted(&mut held, path, toml::Value::Integer(0)),
            "{path}"
        );
        assert_eq!(held, table("x = 1\n[a]\nb = 9\nc = 3\n"), "{path}");
    }
}

#[test]
fn what_is_but_white_space_is_no_rationale() {
    for space in ["\\t", " ", "\\u00a0", "\\u1680", "\\u2003", "\\u2028", "\\u3000", "\\u0085"] {
        let entry = format!("{{ kind = \"declared\", rationale = \"{space}\" }}");
        assert_eq!(fault(&entry), Some(ProvenanceFault::NoRationale), "{space}");
    }
    for other in ["\\u200b", "\\u2060", "\\ufeff", "x"] {
        let entry = format!("{{ kind = \"declared\", rationale = \"{other}\" }}");
        assert_eq!(fault(&entry), None, "{other}");
    }
}
