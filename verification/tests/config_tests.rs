use rust_kbuild::config_text::{ConfigGenerator, ConfigReader, ConfigWriter};
use rust_kbuild::{SymbolTable, SymbolType};

fn pairs_get(pairs: &[(String, String)], name: &str) -> Option<String> {
    pairs.iter().find(|(n, _)| n == name).map(|(_, v)| v.clone())
}

#[test]
fn test_config_reader() {
    let content = "#\n# Automatically generated file; DO NOT EDIT.\n#\nCONFIG_TEST_BOOL=y\nCONFIG_TEST_STRING=\"hello\"\nCONFIG_TEST_INT=42\n";
    let config = ConfigReader::parse(content);

    assert_eq!(pairs_get(&config, "CONFIG_TEST_BOOL"), Some("y".to_string()));
    assert_eq!(pairs_get(&config, "CONFIG_TEST_STRING"), Some("hello".to_string()));
    assert_eq!(pairs_get(&config, "CONFIG_TEST_INT"), Some("42".to_string()));
}

#[test]
fn test_config_writer() {
    let mut symbols = SymbolTable::new();
    symbols.add_symbol("CONFIG_TEST1".to_string(), SymbolType::Bool);
    symbols.set_value("CONFIG_TEST1", "y".to_string()).unwrap();
    symbols.add_symbol("CONFIG_TEST2".to_string(), SymbolType::String);
    symbols.set_value("CONFIG_TEST2", "value".to_string()).unwrap();

    let content = ConfigWriter::render(&symbols);

    assert!(content.contains("CONFIG_TEST1=y"));
    assert!(content.contains("CONFIG_TEST2=\"value\""));
}

#[test]
fn test_config_roundtrip() {
    let mut symbols = SymbolTable::new();
    symbols.add_symbol("CONFIG_A".to_string(), SymbolType::Bool);
    symbols.set_value("CONFIG_A", "y".to_string()).unwrap();
    symbols.add_symbol("CONFIG_B".to_string(), SymbolType::Bool);
    symbols.set_value("CONFIG_B", "n".to_string()).unwrap();

    let content = ConfigWriter::render(&symbols);
    let config = ConfigReader::parse(&content);

    assert_eq!(pairs_get(&config, "CONFIG_A"), Some("y".to_string()));
    assert_eq!(pairs_get(&config, "CONFIG_B"), Some("n".to_string()));
}

#[test]
fn test_reader_not_set_lines() {
    let content = "# CONFIG_OFF is not set\n# a plain comment\n\nCONFIG_ON=m\n";
    let config = ConfigReader::parse(content);

    assert_eq!(pairs_get(&config, "CONFIG_OFF"), Some("n".to_string()));
    assert_eq!(pairs_get(&config, "CONFIG_ON"), Some("m".to_string()));
    assert_eq!(config.len(), 2);
}

#[test]
fn test_writer_not_set_line() {
    let mut symbols = SymbolTable::new();
    symbols.add_symbol("CONFIG_OFF".to_string(), SymbolType::Bool);
    symbols.set_value("CONFIG_OFF", "n".to_string()).unwrap();
    symbols.add_symbol("CONFIG_UNSET".to_string(), SymbolType::Bool);

    let content = ConfigWriter::render(&symbols);

    assert!(content.contains("# CONFIG_OFF is not set"));
    assert!(content.contains("# CONFIG_UNSET is not set"));
}

#[test]
fn test_generate_auto_conf_skips_disabled() {
    let mut symbols = SymbolTable::new();
    symbols.add_symbol("CONFIG_FOO".to_string(), SymbolType::Bool);
    symbols.set_value("CONFIG_FOO", "y".to_string()).unwrap();
    symbols.add_symbol("CONFIG_BAR".to_string(), SymbolType::Bool);
    symbols.set_value("CONFIG_BAR", "n".to_string()).unwrap();

    let auto_conf = ConfigGenerator::render_auto_conf(&symbols);

    assert!(auto_conf.contains("CONFIG_FOO=y"));
    assert!(!auto_conf.contains("CONFIG_BAR"));
}

#[test]
fn test_generate_autoconf_h_lines() {
    let mut symbols = SymbolTable::new();
    symbols.add_symbol("CONFIG_FLAG".to_string(), SymbolType::Bool);
    symbols.set_value("CONFIG_FLAG", "y".to_string()).unwrap();
    symbols.add_symbol("CONFIG_MOD".to_string(), SymbolType::Tristate);
    symbols.set_value("CONFIG_MOD", "m".to_string()).unwrap();
    symbols.add_symbol("CONFIG_NAME".to_string(), SymbolType::String);
    symbols.set_value("CONFIG_NAME", "hello".to_string()).unwrap();

    let header = ConfigGenerator::render_autoconf_h(&symbols);

    assert!(header.contains("#define CONFIG_FLAG 1"));
    assert!(header.contains("#define CONFIG_MOD 1"));
    assert!(header.contains("#define CONFIG_NAME \"hello\""));
}
