use bytecode_vm::cli::CliConfig;
use bytecode_vm::pipeline::source::{from_repl_input, Source};
use bytecode_vm::pipeline::tokens::TokenMeta;

#[test]
fn source_keeps_name_and_text() {
    let source = Source::new("main.lox".to_string(), "print 1;".to_string());
    assert_eq!(source.name(), "main.lox");
    assert_eq!(source.text(), "print 1;");
}

#[test]
fn repl_input_is_named() {
    let source = from_repl_input("1 + 2");
    assert_eq!(source.name(), "REPL");
    assert_eq!(source.text(), "1 + 2");
}

#[test]
fn token_meta_keeps_line_and_column() {
    let meta = TokenMeta::new(3, 27);
    assert_eq!(meta.line(), 3);
    assert_eq!(meta.column(), 27);
    assert_eq!(meta, TokenMeta::new(3, 27));
    assert_ne!(meta, TokenMeta::new(3, 28));
}

#[test]
fn config_has_no_settings() {
    assert_eq!(CliConfig::new(), CliConfig {});
}
