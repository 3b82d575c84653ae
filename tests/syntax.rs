use coc::ast::{BindingData, Expr, ExprData, File, Item, ItemData, StatementData};
use coc::evaluator::evaluate;
use coc::parser::{parse, Spool};
use coc::tokenizer::{tokenize, TokenData};
use coc::utils::Span;
use coc::value::{Universe, Value};

fn kinds(text: &str) -> Vec<String> {
    tokenize(text).unwrap().tokens.iter().map(|t| format!("{:?}", t.data)).collect()
}

fn expression(text: &str) -> Expr {
    let mut spool = Spool::new(tokenize(text).unwrap());
    Expr::parse_general(&mut spool).unwrap()
}

#[test]
fn tokenizes_keywords_identifiers_and_symbols() {
    assert_eq!(
        kinds("fn Fn let return type _ fnx"),
        vec![
            "FnLowercase",
            "FnUppercase",
            "Let",
            "Return",
            "Type",
            "Underscore",
            "Identifier { value: \"fnx\" }",
        ]
    );
    assert_eq!(
        kinds("(x : *') -> a::b;{}=?@,"),
        vec![
            "OpenParen",
            "Identifier { value: \"x\" }",
            "Colon",
            "Asterisk",
            "Apostrophe",
            "CloseParen",
            "Arrow",
            "Identifier { value: \"a\" }",
            "DoubleColon",
            "Identifier { value: \"b\" }",
            "Semicolon",
            "OpenBrace",
            "CloseBrace",
            "Equals",
            "Question",
            "AtSign",
            "Comma",
        ]
    );
}

#[test]
fn token_spans_are_byte_ranges() {
    let out = tokenize("ab ->\n:: c").unwrap();
    let spans: Vec<(usize, usize)> = out.tokens.iter().map(|t| (t.span.start, t.span.end)).collect();
    assert_eq!(spans, vec![(0, 2), (3, 5), (6, 8), (9, 10)]);
    assert_eq!(out.end, 10);
}

#[test]
fn word_at_end_of_input_is_emitted() {
    let out = tokenize("x1_y").unwrap();
    assert_eq!(out.tokens.len(), 1);
    assert!(matches!(&out.tokens[0].data, TokenData::Identifier { value } if value == "x1_y"));
}

#[test]
fn empty_text_has_no_tokens() {
    let out = tokenize(" \t\n").unwrap();
    assert!(out.tokens.is_empty());
    assert_eq!(out.end, 3);
}

#[test]
fn hyphen_without_arrow_is_an_error_after_it() {
    assert_eq!(tokenize("a - b").unwrap_err().location, 3);
    assert_eq!(tokenize("-").unwrap_err().location, 1);
}

#[test]
fn unknown_character_is_an_error_at_its_position() {
    assert_eq!(tokenize("a # b").unwrap_err().location, 2);
    // positions count characters, not bytes
    assert_eq!(tokenize("\u{e9}").unwrap_err().location, 0);
}

#[test]
fn application_chains_nest_to_the_left() {
    let e = expression("f x y");
    let ExprData::Application { left, right } = e.data else { panic!("not an application") };
    assert!(matches!(right.data, ExprData::Value { ref path } if path == &vec!["y".to_string()]));
    assert!(matches!(left.data, ExprData::Application { .. }));
    assert_eq!(e.span, Span { start: 0, end: 5 });
}

#[test]
fn universe_levels_count_apostrophes() {
    assert!(matches!(expression("*''").data, ExprData::Type { level: 2 }));
    assert!(matches!(expression("?").data, ExprData::Prop));
}

#[test]
fn paths_collect_segments() {
    let e = expression("a::b::c");
    let ExprData::Value { path } = e.data else { panic!("not a path") };
    assert_eq!(path, vec!["a".to_string(), "b".to_string(), "c".to_string()]);
}

#[test]
fn lambda_with_return_type_and_trailing_comma() {
    let e = expression("fn(x : *, _ : *,) -> *, x");
    let ExprData::FnLowercase { args, return_type, .. } = e.data else { panic!("not a lambda") };
    assert_eq!(args.len(), 2);
    assert!(return_type.is_some());
    assert!(matches!(args[1].data.binding.data, BindingData::Underscore));
}

#[test]
fn block_holds_statements() {
    let e = expression("{ let a : * = *; return a; }");
    let ExprData::Block { statements } = e.data else { panic!("not a block") };
    assert_eq!(statements.len(), 2);
    assert!(matches!(statements[0].data, StatementData::Let { .. }));
    assert!(matches!(statements[1].data, StatementData::Return { .. }));
}

fn file(text: &str) -> File {
    parse(tokenize(text).unwrap()).unwrap()
}

fn items(f: File) -> Vec<Item> {
    let text = format!("{:?}", f.data);
    assert!(text.starts_with("FileData"));
    let File { data, .. } = f;
    let coc::ast::FileData { items } = data;
    items
}

#[test]
fn parses_let_and_type_items() {
    let text = "let id : Fn(A : *, x : A) -> A = fn(A : *, x : A) x;\n\
                type Nat : * { zero : Nat, succ : Fn(_ : Nat) -> Nat }\n\
                type Vec(A : *, @ : Nat) { }";
    let f = file(text);
    assert_eq!(f.span, Span { start: 0, end: text.chars().count() });
    let items = items(f);
    assert_eq!(items.len(), 3);
    assert!(matches!(items[0].data, ItemData::Let { .. }));
    let ItemData::Type { ref constructors, ref universe, .. } = items[1].data else { panic!() };
    assert_eq!(constructors.len(), 2);
    assert!(universe.is_some());
    let ItemData::Type { ref params_and_indexes, .. } = items[2].data else { panic!() };
    assert_eq!(params_and_indexes.len(), 2);
}

#[test]
fn missing_semicolon_is_reported_at_the_next_token() {
    let err = parse(tokenize("let a = * let").unwrap()).unwrap_err();
    assert_eq!(err.token_index, 4);
    assert_eq!(err.source_location, 10);
}

#[test]
fn error_at_end_points_past_the_last_token() {
    let err = parse(tokenize("let a =").unwrap()).unwrap_err();
    assert_eq!(err.token_index, 3);
    assert_eq!(err.source_location, 7);
}

#[test]
fn empty_file_parses() {
    assert_eq!(items(file("")).len(), 0);
}

#[test]
fn text_evaluates_end_to_end() {
    let e = expression("(fn(A : *', x : A) x) * (Fn(p : ?) -> ?)");
    let prop = Value::Universe(Universe::Prop);
    let expected = Value::PiType {
        parameter_type: Box::new(prop.clone()),
        inner: Box::new(prop),
        is_propositional: false,
    };
    assert_eq!(evaluate(e), Ok(expected));
}
