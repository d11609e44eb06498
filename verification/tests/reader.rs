use minilisp::lexeme::{integer, string, symbol, Outcome};
use minilisp::parser::{parse, s_expr, ParseError};
use minilisp::symbol::SymbolType;
use minilisp::table::SymbolTable;
use minilisp::value::Value;

fn ints(items: &[i32]) -> Value {
    let v: Vec<Value> = items.iter().map(|i| Value::TInt(*i)).collect();
    Value::from_iter(&v)
}

#[test]
fn integer_expr_test() {
    let mut table = SymbolTable::new();
    match s_expr(b"(1 2 3)", &mut table) {
        Outcome::Done(value, rest) => {
            assert_eq!(rest, b"");
            assert_eq!(value, ints(&[1, 2, 3]));
        }
        other => panic!("{:?}", other),
    }
}

#[test]
fn parse_returns_value_and_rest() {
    let mut table = SymbolTable::new();
    let (value, rest) = parse(b"  (1 2 (3 4))  tail", &mut table).unwrap();
    let inner = ints(&[3, 4]);
    let expected = Value::from_iter(&vec![Value::TInt(1), Value::TInt(2), inner]);
    assert_eq!(value, expected);
    assert_eq!(rest, b"tail");
}

#[test]
fn empty_list_is_nil() {
    let mut table = SymbolTable::new();
    let (value, rest) = parse(b"()", &mut table).unwrap();
    assert_eq!(value, Value::TNil);
    assert_eq!(rest, b"");
}

#[test]
fn unterminated_list_is_incomplete() {
    let mut table = SymbolTable::new();
    assert_eq!(parse(b"(1 2", &mut table), Err(ParseError::Incomplete));
}

#[test]
fn empty_and_blank_input_are_incomplete() {
    let mut table = SymbolTable::new();
    assert_eq!(parse(b"", &mut table), Err(ParseError::Incomplete));
    assert_eq!(parse(b"  \n", &mut table), Err(ParseError::Incomplete));
    assert_eq!(parse(b"'", &mut table), Err(ParseError::Incomplete));
    assert_eq!(parse(b"(+", &mut table), Err(ParseError::Incomplete));
    assert_eq!(parse(b"(\"abc", &mut table), Err(ParseError::Incomplete));
}

#[test]
fn syntax_error_reports_furthest_position() {
    let mut table = SymbolTable::new();
    assert_eq!(parse(b"(1 2 %)", &mut table), Err(ParseError::Syntax { position: 5 }));
    assert_eq!(parse(b"x", &mut table), Err(ParseError::Syntax { position: 0 }));
    assert_eq!(parse(b"  x", &mut table), Err(ParseError::Syntax { position: 2 }));
    assert_eq!(parse(b"(1 (2 %) 3)", &mut table), Err(ParseError::Syntax { position: 3 }));
    assert_eq!(parse(b"(+)", &mut table), Err(ParseError::Syntax { position: 1 }));
}

#[test]
fn quote_sugar_equals_quote_form() {
    let mut table = SymbolTable::new();
    let (sugar, _) = parse(b"'(1 2 3)", &mut table).unwrap();
    let (plain, _) = parse(b"(quote (1 2 3))", &mut table).unwrap();
    assert_eq!(sugar, plain);
    let expected = Value::from_iter(&vec![Value::TSymbol(SymbolType::Quote), ints(&[1, 2, 3])]);
    assert_eq!(sugar, expected);
}

#[test]
fn same_symbol_text_same_identifier() {
    let mut table = SymbolTable::new();
    let (first, _) = parse(b"(foo bar foo)", &mut table).unwrap();
    let expected = Value::from_iter(&vec![
        Value::TSymbol(SymbolType::Others(3)),
        Value::TSymbol(SymbolType::Others(4)),
        Value::TSymbol(SymbolType::Others(3)),
    ]);
    assert_eq!(first, expected);
    let (second, _) = parse(b"(bar baz_1! foo car)", &mut table).unwrap();
    let expected = Value::from_iter(&vec![
        Value::TSymbol(SymbolType::Others(4)),
        Value::TSymbol(SymbolType::Others(5)),
        Value::TSymbol(SymbolType::Others(3)),
        Value::TSymbol(SymbolType::Car),
    ]);
    assert_eq!(second, expected);
    assert_eq!(table.len(), 6);
}

#[test]
fn failed_parse_keeps_the_symbols_it_read() {
    let mut table = SymbolTable::new();
    assert_eq!(parse(b"(foo %)", &mut table), Err(ParseError::Syntax { position: 5 }));
    assert_eq!(table.len(), 4);
    assert_eq!(table.resolve_or_insert("foo"), SymbolType::Others(3));
}

#[test]
fn strings_are_read_without_escapes() {
    let mut table = SymbolTable::new();
    let (value, _) = parse(b"(\"test\" \"nadeko\" \"\")", &mut table).unwrap();
    let expected = Value::from_iter(&vec![
        Value::TString("test".to_string()),
        Value::TString("nadeko".to_string()),
        Value::TString(String::new()),
    ]);
    assert_eq!(value, expected);
    let (value, _) = parse("(\"h\u{e9}llo (x)\")".as_bytes(), &mut table).unwrap();
    assert_eq!(value, Value::from_iter(&vec![Value::TString("h\u{e9}llo (x)".to_string())]));
}

#[test]
fn string_rejects_invalid_utf8() {
    match string(b"\"\xff\" ") {
        Outcome::Error(left) => assert_eq!(left, 3),
        other => panic!("{:?}", other),
    }
    match string(b"abc") {
        Outcome::Error(left) => assert_eq!(left, 3),
        other => panic!("{:?}", other),
    }
}

#[test]
fn integers_with_signs_and_limits() {
    match integer(b"-42 x") {
        Outcome::Done(v, rest) => {
            assert_eq!(v, Value::TInt(-42));
            assert_eq!(rest, b"x");
        }
        other => panic!("{:?}", other),
    }
    match integer(b"+ 007)") {
        Outcome::Done(v, rest) => {
            assert_eq!(v, Value::TInt(7));
            assert_eq!(rest, b")");
        }
        other => panic!("{:?}", other),
    }
    match integer(b"2147483647)") {
        Outcome::Done(v, _) => assert_eq!(v, Value::TInt(2147483647)),
        other => panic!("{:?}", other),
    }
    match integer(b"-2147483647)") {
        Outcome::Done(v, _) => assert_eq!(v, Value::TInt(-2147483647)),
        other => panic!("{:?}", other),
    }
    match integer(b"2147483648)") {
        Outcome::Error(left) => assert_eq!(left, 11),
        other => panic!("{:?}", other),
    }
    match integer(b"12") {
        Outcome::Done(v, rest) => {
            assert_eq!(v, Value::TInt(12));
            assert_eq!(rest, b"");
        }
        other => panic!("{:?}", other),
    }
    assert!(matches!(integer(b"-"), Outcome::Incomplete));
    assert!(matches!(integer(b""), Outcome::Incomplete));
    assert!(matches!(integer(b"-x"), Outcome::Error(1)));
}

#[test]
fn symbol_takes_the_longest_name() {
    let mut table = SymbolTable::new();
    match symbol(b"ab_c9!?-rest", &mut table) {
        Outcome::Done(v, rest) => {
            assert_eq!(v, Value::TSymbol(SymbolType::Others(3)));
            assert_eq!(rest, b"-rest");
        }
        other => panic!("{:?}", other),
    }
    assert_eq!(table.resolve_or_insert("ab_c9!?"), SymbolType::Others(3));
    assert!(matches!(symbol(b"9a", &mut table), Outcome::Error(2)));
    assert!(matches!(symbol(b"_a", &mut table), Outcome::Error(2)));
    assert!(matches!(symbol(b"", &mut table), Outcome::Incomplete));
    match symbol(b"cdr", &mut table) {
        Outcome::Done(v, rest) => {
            assert_eq!(v, Value::TSymbol(SymbolType::Cdr));
            assert_eq!(rest, b"");
        }
        other => panic!("{:?}", other),
    }
}

#[test]
fn white_space_around_parentheses() {
    let mut table = SymbolTable::new();
    let (value, rest) = parse(b"\t( \n1   2\r\n ( 3 )\n)\n", &mut table).unwrap();
    let expected = Value::from_iter(&vec![Value::TInt(1), Value::TInt(2), ints(&[3])]);
    assert_eq!(value, expected);
    assert_eq!(rest, b"");
    assert_eq!(parse(b"(a\nb)", &mut table), Err(ParseError::Syntax { position: 3 }));
}
