use rust_kbuild::ast::Entry;
use rust_kbuild::config_text::{ConfigGenerator, ConfigReader, ConfigWriter};
use rust_kbuild::parser::{parse, ParseError, SourceFile};
use rust_kbuild::resolve::ResolutionError;
use rust_kbuild::{ConfigValue, SymbolTable, SymbolType, Tristate};

fn file(path: &str, content: &str) -> SourceFile {
    SourceFile { path: path.to_string(), content: content.to_string() }
}

fn pairs_get(pairs: &[(String, String)], name: &str) -> Option<String> {
    pairs.iter().find(|(n, _)| n == name).map(|(_, v)| v.clone())
}

#[test]
fn test_complete_workflow() {
    let kconfig = "config CONFIG_TEST_BOOL\n\tbool \"A flag\"\n\nconfig CONFIG_TEST_STRING\n\tstring \"A name\"\n\nconfig CONFIG_TEST_INT\n\tint \"A number\"\n";
    let files = vec![file("Kconfig", kconfig)];
    let ast = parse("Kconfig", &files).unwrap();

    assert_eq!(ast.entries.len(), 3);

    let mut symbols = SymbolTable::new();
    symbols.add_symbol("CONFIG_TEST_BOOL".to_string(), SymbolType::Bool);
    symbols.set_value("CONFIG_TEST_BOOL", "y".to_string()).unwrap();
    symbols.add_symbol("CONFIG_TEST_STRING".to_string(), SymbolType::String);
    symbols.set_value("CONFIG_TEST_STRING", "hello".to_string()).unwrap();
    symbols.add_symbol("CONFIG_TEST_INT".to_string(), SymbolType::Int);
    symbols.set_value("CONFIG_TEST_INT", "42".to_string()).unwrap();

    let config_text = ConfigWriter::render(&symbols);
    let config = ConfigReader::parse(&config_text);
    assert_eq!(pairs_get(&config, "CONFIG_TEST_BOOL"), Some("y".to_string()));
    assert_eq!(pairs_get(&config, "CONFIG_TEST_STRING"), Some("hello".to_string()));
    assert_eq!(pairs_get(&config, "CONFIG_TEST_INT"), Some("42".to_string()));

    let auto_conf = ConfigGenerator::render_auto_conf(&symbols);
    assert!(auto_conf.contains("CONFIG_TEST_BOOL=y"));
    assert!(auto_conf.contains("CONFIG_TEST_STRING=hello"));
    assert!(auto_conf.contains("CONFIG_TEST_INT=42"));

    let autoconf_h = ConfigGenerator::render_autoconf_h(&symbols);
    assert!(autoconf_h.contains("#define CONFIG_TEST_BOOL 1"));
    assert!(autoconf_h.contains("#define CONFIG_TEST_STRING \"hello\""));
    assert!(autoconf_h.contains("#define CONFIG_TEST_INT \"42\""));
}

#[test]
fn test_source_recursion_workflow() {
    let root = "mainmenu \"Sample\"\n\nconfig HAVE_ARCH\n\tbool \"Arch support\"\n\nsource \"arch/Kconfig\"\nsource \"drivers/Kconfig\"\n";
    let arch = "menu \"Architecture\"\n\nconfig X86\n\tbool \"x86 support\"\n\nconfig ARM\n\tbool \"arm support\"\n\nendmenu\n";
    let drivers = "menu \"Drivers\"\n\nconfig DEBUG\n\tbool \"debugging\"\n\nconfig VERBOSE\n\tbool \"verbose output\"\n\nendmenu\n";
    let files = vec![
        file("Kconfig", root),
        file("arch/Kconfig", arch),
        file("drivers/Kconfig", drivers),
    ];
    let ast = parse("Kconfig", &files).unwrap();

    // one loose config plus the two spliced menus, holding six entries in all
    let mut total = 0;
    fn count(entries: &[Entry], total: &mut usize) {
        for e in entries {
            *total += 1;
            if let Entry::Menu(m) = e {
                count(&m.entries, total);
            }
        }
    }
    count(&ast.entries, &mut total);
    assert!(total >= 6);

    let has_x86 = ast.entries.iter().any(|entry| match entry {
        Entry::Menu(menu) => menu.entries.iter().any(|e| match e {
            Entry::Config(config) => config.name == "X86",
            _ => false,
        }),
        _ => false,
    });
    assert!(has_x86);
}

#[test]
fn test_cyclic_source_fails() {
    let a = "source \"b/Kconfig\"\n";
    let b = "source \"a/Kconfig\"\n";
    let files = vec![file("a/Kconfig", a), file("b/Kconfig", b)];
    let r = parse("a/Kconfig", &files);
    assert!(matches!(r, Err(ParseError::CyclicSource { .. })));
}

#[test]
fn test_missing_source_fails() {
    let files = vec![file("Kconfig", "source \"nowhere/Kconfig\"\n")];
    let r = parse("Kconfig", &files);
    assert!(matches!(r, Err(ParseError::SourceNotFound { .. })));
}

#[test]
fn test_unterminated_menu_fails() {
    let files = vec![file("Kconfig", "menu \"open\"\nconfig A\n\tbool\n")];
    let r = parse("Kconfig", &files);
    assert!(matches!(r, Err(ParseError::UnterminatedBlock { .. })));
}

#[test]
fn test_tristate_algebra() {
    let all = [Tristate::No, Tristate::Module, Tristate::Yes];
    let rank = |t: Tristate| match t {
        Tristate::No => 0,
        Tristate::Module => 1,
        Tristate::Yes => 2,
    };
    for &a in &all {
        for &b in &all {
            assert_eq!(rank(a.and(b)), rank(a).min(rank(b)));
            assert_eq!(rank(a.or(b)), rank(a).max(rank(b)));
        }
    }
    assert_eq!(Tristate::No.not(), Tristate::Yes);
    assert_eq!(Tristate::Yes.not(), Tristate::No);
    assert_eq!(Tristate::Module.not(), Tristate::Module);
}

fn table_of(kconfig: &str) -> SymbolTable {
    let files = vec![file("Kconfig", kconfig)];
    let ast = parse("Kconfig", &files).unwrap();
    SymbolTable::from_ast(&ast)
}

#[test]
fn test_visibility_gating_scenario() {
    // config A: bool, default y; config B: bool, depends on A, default y
    let mut t = table_of(
        "config A\n\tbool \"a\"\n\tdefault y\n\nconfig B\n\tbool \"b\"\n\tdepends on A\n\tdefault y\n",
    );
    assert!(matches!(t.effective_value("B"), Some(ConfigValue::Bool(true))));
    assert!(t.is_visible("B"));

    t.set_user_value("A", ConfigValue::Bool(false)).unwrap();
    assert!(!t.is_visible("B"));
    assert!(matches!(t.effective_value("B"), Some(ConfigValue::Bool(false))));

    // restoring the dependency restores B without touching it again
    t.set_user_value("A", ConfigValue::Bool(true)).unwrap();
    assert!(t.is_visible("B"));
    assert!(matches!(t.effective_value("B"), Some(ConfigValue::Bool(true))));
}

#[test]
fn test_select_floor_scenario() {
    // S selects T; the floor wins over a user's n
    let mut t = table_of(
        "config S\n\tbool \"s\"\n\tdefault y\n\tselect T\n\nconfig T\n\tbool \"t\"\n",
    );
    t.set_user_value("T", ConfigValue::Bool(false)).unwrap();
    assert!(matches!(t.effective_value("T"), Some(ConfigValue::Bool(true))));

    // with the selector off, the user's n shows through
    t.set_user_value("S", ConfigValue::Bool(false)).unwrap();
    assert!(matches!(t.effective_value("T"), Some(ConfigValue::Bool(false))));
}

#[test]
fn test_choice_exclusivity() {
    // choice { config X: default y; config Y }
    let mut t = table_of(
        "choice\n\tprompt \"pick one\"\n\nconfig X\n\tbool \"x\"\n\tdefault y\n\nconfig Y\n\tbool \"y option\"\n\nendchoice\n",
    );
    assert!(matches!(t.effective_value("X"), Some(ConfigValue::Bool(true))));
    assert!(matches!(t.effective_value("Y"), Some(ConfigValue::Bool(false))));

    t.set_user_value("Y", ConfigValue::Bool(true)).unwrap();
    assert!(matches!(t.effective_value("X"), Some(ConfigValue::Bool(false))));
    assert!(matches!(t.effective_value("Y"), Some(ConfigValue::Bool(true))));

    // exactly one member reads y
    assert_eq!(t.get_value("X"), Some("n".to_string()));
    assert_eq!(t.get_value("Y"), Some("y".to_string()));
}

#[test]
fn test_cyclic_dependency_reported() {
    let t = table_of(
        "config A\n\tbool \"a\"\n\tdefault B\n\nconfig B\n\tbool \"b\"\n\tdefault A\n",
    );
    let r = t.resolve_value("A");
    match r {
        Err(ResolutionError::CyclicDependency { symbols }) => {
            // the error names the members of the cycle
            assert!(symbols.iter().any(|s| s == "A"));
            assert!(symbols.iter().any(|s| s == "B"));
        },
        other => panic!("expected a cyclic-dependency error, got {:?}", other),
    }
    assert!(t.effective_value("A").is_none());
}

#[test]
fn test_set_user_value_type_mismatch() {
    let mut t = table_of("config N\n\tint \"a number\"\n");
    let r = t.set_user_value("N", ConfigValue::Bool(true));
    assert!(matches!(r, Err(ResolutionError::TypeMismatch { .. })));
    // the table is unchanged: N still reads its type's zero value
    assert_eq!(t.get_value("N"), Some("0".to_string()));
}

#[test]
fn test_set_user_value_out_of_range() {
    let mut t = table_of("config N\n\tint \"a number\"\n\trange 1 10\n");
    let r = t.set_user_value("N", ConfigValue::Int(42));
    assert!(matches!(r, Err(ResolutionError::OutOfRange { .. })));
    assert!(t.set_user_value("N", ConfigValue::Int(7)).is_ok());
    assert!(matches!(t.effective_value("N"), Some(ConfigValue::Int(7))));
}

#[test]
fn test_range_clamps_overlay_value() {
    let mut t = table_of("config N\n\tint \"a number\"\n\trange 1 10\n");
    // overlay ingestion stores raw text, which is clamped on read
    t.apply_overlay(&vec![("N".to_string(), "42".to_string())]);
    assert!(matches!(t.effective_value("N"), Some(ConfigValue::Int(10))));
    // the validated store rejects the same value outright
    assert!(matches!(
        t.set_value("N", "42".to_string()),
        Err(ResolutionError::OutOfRange { .. })
    ));
}

#[test]
fn test_unknown_symbol_reads_none_and_set_is_ignored() {
    let mut t = table_of("config A\n\tbool \"a\"\n");
    assert!(t.effective_value("MISSING").is_none());
    assert!(!t.is_visible("MISSING"));
    assert!(t.set_user_value("MISSING", ConfigValue::Bool(true)).is_ok());
    assert!(t.effective_value("MISSING").is_none());
}

#[test]
fn test_default_order_first_match_wins() {
    let t = table_of(
        "config GATE\n\tbool \"gate\"\n\nconfig V\n\tstring \"v\"\n\tdefault \"first\" if GATE\n\tdefault \"second\"\n",
    );
    // GATE is off, so the first default's condition fails
    match t.effective_value("V") {
        Some(ConfigValue::String(s)) => assert_eq!(s, "second"),
        other => panic!("unexpected value: {:?}", other),
    }
}

#[test]
fn test_overlay_application() {
    let mut t = table_of("config A\n\tbool \"a\"\n\nconfig B\n\tstring \"b\"\n");
    let overlay = vec![
        ("A".to_string(), "y".to_string()),
        ("B".to_string(), "hello".to_string()),
        ("STALE".to_string(), "y".to_string()),
    ];
    t.apply_overlay(&overlay);
    assert_eq!(t.get_value("A"), Some("y".to_string()));
    assert_eq!(t.get_value("B"), Some("hello".to_string()));
    assert!(t.is_enabled("A"));
    assert!(t.get_symbol("STALE").is_none());
}

#[test]
fn test_original_api_surfaces_resolution() {
    // is_enabled and get_value answer from the effective value
    let mut t = table_of(
        "config A\n\tbool \"a\"\n\tdefault y\n\nconfig B\n\tbool \"b\"\n\tdepends on A\n\tdefault y\n\nconfig S\n\tbool \"s\"\n\tdefault y\n\tselect T\n\nconfig T\n\tbool \"t\"\n",
    );
    // an unset symbol surfaces its satisfied default
    assert!(t.is_enabled("B"));
    assert_eq!(t.get_value("B"), Some("y".to_string()));
    // a stored y under unsatisfied dependencies reads as disabled
    t.set_value("B", "y".to_string()).unwrap();
    t.set_value("A", "n".to_string()).unwrap();
    assert!(!t.is_enabled("B"));
    assert_eq!(t.get_value("B"), Some("n".to_string()));
    // and comes back once the dependency is satisfied again
    t.set_value("A", "y".to_string()).unwrap();
    assert!(t.is_enabled("B"));
    // the select floor wins over a stored n
    t.set_value("T", "n".to_string()).unwrap();
    assert!(t.is_enabled("T"));
}

#[test]
fn test_set_value_forces_choice_siblings() {
    let mut t = table_of(
        "choice\n\tprompt \"pick one\"\n\nconfig X\n\tbool \"x\"\n\tdefault y\n\nconfig Y\n\tbool \"y option\"\n\nendchoice\n",
    );
    assert!(t.is_enabled("X"));
    assert!(!t.is_enabled("Y"));
    t.set_value("Y", "y".to_string()).unwrap();
    assert!(!t.is_enabled("X"));
    assert!(t.is_enabled("Y"));
}

#[test]
fn test_menu_dependency_gates_children() {
    let mut t = table_of(
        "config GATE\n\tbool \"gate\"\n\tdefault y\n\nmenu \"Sub\"\n\tdepends on GATE\n\nconfig C\n\tbool \"c\"\n\tdefault y\n\nendmenu\n",
    );
    assert!(matches!(t.effective_value("C"), Some(ConfigValue::Bool(true))));
    t.set_user_value("GATE", ConfigValue::Bool(false)).unwrap();
    assert!(matches!(t.effective_value("C"), Some(ConfigValue::Bool(false))));
}

#[test]
fn test_expression_operators() {
    let t = table_of(
        "config A\n\tbool \"a\"\n\tdefault y\n\nconfig B\n\tbool \"b\"\n\nconfig BOTH\n\tbool \"both\"\n\tdefault A && B\n\nconfig EITHER\n\tbool \"either\"\n\tdefault A || B\n\nconfig NEITHER\n\tbool \"neither\"\n\tdefault !A && !B\n",
    );
    assert!(matches!(t.effective_value("BOTH"), Some(ConfigValue::Bool(false))));
    assert!(matches!(t.effective_value("EITHER"), Some(ConfigValue::Bool(true))));
    assert!(matches!(t.effective_value("NEITHER"), Some(ConfigValue::Bool(false))));
}

#[test]
fn test_tristate_module_value() {
    let mut t = table_of("config M\n\ttristate \"a module\"\n");
    t.set_user_value("M", ConfigValue::Tristate(Tristate::Module)).unwrap();
    assert!(matches!(
        t.effective_value("M"),
        Some(ConfigValue::Tristate(Tristate::Module))
    ));
    assert!(t.is_enabled("M"));
}

#[test]
fn test_undeclared_reference_reads_as_no() {
    let t = table_of("config A\n\tbool \"a\"\n\tdefault NEVER_DECLARED\n");
    assert!(matches!(t.effective_value("A"), Some(ConfigValue::Bool(false))));
}

#[test]
fn test_equality_comparison() {
    let t = table_of(
        "config A\n\ttristate \"a\"\n\tdefault m\n\nconfig SAME\n\tbool \"same\"\n\tdefault A = m\n\nconfig DIFF\n\tbool \"diff\"\n\tdefault A != y\n",
    );
    assert!(matches!(t.effective_value("SAME"), Some(ConfigValue::Bool(true))));
    assert!(matches!(t.effective_value("DIFF"), Some(ConfigValue::Bool(true))));
}

#[test]
fn test_unterminated_string_is_a_lex_error() {
    let files = vec![file("Kconfig", "config A\n\tbool \"unterminated\n")];
    let r = parse("Kconfig", &files);
    assert!(matches!(r, Err(ParseError::Lex(_))));
}

#[test]
fn test_help_text_is_collected() {
    let t = table_of(
        "config A\n\tbool \"a\"\n\thelp\n\t  First line.\n\t  Second line.\n\nconfig B\n\tbool \"b\"\n",
    );
    let sym = t.get_symbol("A").unwrap();
    let help = sym.help.clone().unwrap();
    assert!(help.contains("First line."));
    assert!(help.contains("Second line."));
    assert!(t.get_symbol("B").is_some());
}

#[test]
fn test_int_parsing_accepts_sign_and_min() {
    assert!(matches!(rust_kbuild::value::parse_typed("+42", SymbolType::Int), ConfigValue::Int(42)));
    assert!(matches!(rust_kbuild::value::parse_typed("-7", SymbolType::Int), ConfigValue::Int(-7)));
    assert!(matches!(
        rust_kbuild::value::parse_typed("-9223372036854775808", SymbolType::Int),
        ConfigValue::Int(i64::MIN)
    ));
    // unparseable text reads as zero
    assert!(matches!(rust_kbuild::value::parse_typed("9223372036854775808", SymbolType::Int), ConfigValue::Int(0)));
}

#[test]
fn test_set_user_value_hex_out_of_range() {
    let mut t = table_of("config H\n\thex \"an address\"\n\trange 1 255\n");
    let r = t.set_user_value("H", ConfigValue::Hex("0x1FF".to_string()));
    assert!(matches!(r, Err(ResolutionError::OutOfRange { .. })));
    assert!(t.set_user_value("H", ConfigValue::Hex("0xFF".to_string())).is_ok());
    assert_eq!(t.get_value("H"), Some("0xFF".to_string()));
}

#[test]
fn test_trailing_tokens_are_rejected() {
    let files = vec![file("Kconfig", "config A stray\n\tbool \"a\"\n")];
    assert!(matches!(parse("Kconfig", &files), Err(ParseError::UnexpectedToken { .. })));
    let files = vec![file("Kconfig", "config A\n\tdepends on B stray\n")];
    assert!(matches!(parse("Kconfig", &files), Err(ParseError::UnexpectedToken { .. })));
}

#[test]
fn test_blank_root_parses_to_empty_tree() {
    // comments and blank lines only: parsing is owed success
    let files = vec![file("Kconfig", "# a comment\n\n   \n# another\n")];
    let ast = parse("Kconfig", &files).unwrap();
    assert_eq!(ast.entries.len(), 0);
}

#[test]
fn test_missing_source_error_carries_chain() {
    let files = vec![file("Kconfig", "source \"nowhere/Kconfig\"\n")];
    match parse("Kconfig", &files) {
        Err(ParseError::SourceNotFound { path, chain }) => {
            assert_eq!(path, "nowhere/Kconfig");
            assert_eq!(chain, vec!["Kconfig".to_string()]);
        },
        other => panic!("expected a missing-source error, got {:?}", other),
    }
}
