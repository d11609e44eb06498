use minilisp::dual_map::DualMap;
use minilisp::eval::{eval, LispError};
use minilisp::parser::parse;
use minilisp::scan::is_not_double_quote;
use minilisp::symbol::SymbolType;
use minilisp::table::{SymbolLookupError, SymbolTable};
use minilisp::value::Value;

fn ints(items: &[i32]) -> Value {
    let v: Vec<Value> = items.iter().map(|i| Value::TInt(*i)).collect();
    Value::from_iter(&v)
}

fn sym(s: SymbolType) -> Value {
    Value::TSymbol(s)
}

fn quoted(v: Value) -> Value {
    Value::from_iter(&vec![sym(SymbolType::Quote), v])
}

#[test]
fn from_iter_builds_a_proper_list() {
    let items = vec![Value::TInt(7), Value::TString("s".to_string()), Value::TBoolT];
    let list = Value::from_iter(&items);
    let mut cur = &list;
    for item in &items {
        assert_eq!(cur.car(), Some(item));
        cur = cur.cdr().unwrap();
    }
    assert_eq!(*cur, Value::TNil);
    assert_eq!(cur.car(), None);
    assert_eq!(cur.cdr(), None);
    assert_eq!(Value::from_iter(&vec![]), Value::TNil);
}

#[test]
fn car_and_cdr_of_atoms_are_absent() {
    assert_eq!(Value::TInt(1).car(), None);
    assert_eq!(Value::TString("x".to_string()).cdr(), None);
    let pair = Value::TCons(Box::new(Value::TInt(1)), Box::new(Value::TInt(2)));
    assert_eq!(pair.car(), Some(&Value::TInt(1)));
    assert_eq!(pair.cdr(), Some(&Value::TInt(2)));
}

#[test]
fn clone_is_deep_and_equal() {
    let v = Value::from_iter(&vec![ints(&[1, 2]), Value::TString("a".to_string())]);
    assert_eq!(v.clone(), v);
}

#[test]
fn eval_car_and_cdr_of_quoted_list() {
    let mut table = SymbolTable::new();
    let (form, _) = parse(b"(car (quote (1 2 3)))", &mut table).unwrap();
    assert_eq!(eval(&form), Ok(&Value::TInt(1)));
    let (form, _) = parse(b"(cdr (quote (1 2 3)))", &mut table).unwrap();
    assert_eq!(eval(&form), Ok(&ints(&[2, 3])));
    let (form, _) = parse(b"(cdr '(1 2 3))", &mut table).unwrap();
    assert_eq!(eval(&form), Ok(&ints(&[2, 3])));
}

#[test]
fn eval_quote_returns_operand_unevaluated() {
    let inner = Value::from_iter(&vec![sym(SymbolType::Car), Value::TInt(1)]);
    let form = quoted(inner.clone());
    assert_eq!(eval(&form), Ok(&inner));
}

#[test]
fn eval_cond_takes_first_true_clause() {
    let clause = |test: Value, result: i32| {
        Value::from_iter(&vec![quoted(test), quoted(Value::TInt(result))])
    };
    let form = Value::from_iter(&vec![
        sym(SymbolType::Cond),
        clause(Value::TNil, 1),
        clause(Value::TBoolT, 2),
        clause(Value::TBoolT, 3),
    ]);
    assert_eq!(eval(&form), Ok(&Value::TInt(2)));
}

#[test]
fn eval_cond_never_evaluates_later_clauses() {
    let bad = Value::from_iter(&vec![Value::TInt(0), Value::TInt(0)]);
    let form = Value::from_iter(&vec![
        sym(SymbolType::Cond),
        Value::from_iter(&vec![quoted(Value::TBoolT), quoted(Value::TInt(2))]),
        bad,
    ]);
    assert_eq!(eval(&form), Ok(&Value::TInt(2)));
}

#[test]
fn eval_cond_without_match_fails() {
    let form = Value::from_iter(&vec![
        sym(SymbolType::Cond),
        Value::from_iter(&vec![quoted(Value::TNil), quoted(Value::TInt(1))]),
    ]);
    assert_eq!(eval(&form), Err(LispError::ConsNoMatchError));
    let empty = Value::from_iter(&vec![sym(SymbolType::Cond)]);
    assert_eq!(eval(&empty), Err(LispError::ConsNoMatchError));
}

#[test]
fn eval_cond_with_bare_atoms_is_not_applicable() {
    let form = Value::from_iter(&vec![
        sym(SymbolType::Cond),
        Value::from_iter(&vec![Value::TNil, Value::TInt(1)]),
        Value::from_iter(&vec![Value::TBoolT, Value::TInt(2)]),
    ]);
    assert_eq!(eval(&form), Err(LispError::ConsSyntaxError));
}

#[test]
fn eval_cond_rejects_other_test_values_and_shapes() {
    let other = Value::from_iter(&vec![
        sym(SymbolType::Cond),
        Value::from_iter(&vec![quoted(Value::TInt(5)), quoted(Value::TInt(1))]),
    ]);
    assert_eq!(eval(&other), Err(LispError::ConsSyntaxError));
    let no_result = Value::from_iter(&vec![
        sym(SymbolType::Cond),
        Value::from_iter(&vec![quoted(Value::TBoolT)]),
    ]);
    assert_eq!(eval(&no_result), Err(LispError::ConsSyntaxError));
    let atom_clause = Value::from_iter(&vec![sym(SymbolType::Cond), Value::TInt(1)]);
    assert_eq!(eval(&atom_clause), Err(LispError::ConsSyntaxError));
}

#[test]
fn eval_rejects_atoms_and_unknown_forms() {
    assert_eq!(eval(&Value::TInt(1)), Err(LispError::ConsSyntaxError));
    assert_eq!(eval(&Value::TNil), Err(LispError::ConsSyntaxError));
    let add = Value::from_iter(&vec![sym(SymbolType::Add), Value::TInt(1), Value::TInt(2)]);
    assert_eq!(eval(&add), Err(LispError::ConsSyntaxError));
    let car_of_atom = Value::from_iter(&vec![sym(SymbolType::Car), quoted(Value::TInt(1))]);
    assert_eq!(eval(&car_of_atom), Err(LispError::ConsSyntaxError));
    let car_alone = Value::from_iter(&vec![sym(SymbolType::Car)]);
    assert_eq!(eval(&car_alone), Err(LispError::ConsSyntaxError));
    let quote_alone = Value::from_iter(&vec![sym(SymbolType::Quote)]);
    assert_eq!(eval(&quote_alone), Err(LispError::ConsSyntaxError));
}

#[test]
fn pretty_print_list_and_string() {
    let table = SymbolTable::new();
    let list = Value::from_iter(&vec![Value::TInt(1), Value::TInt(2), ints(&[3, 4])]);
    assert_eq!(list.pretty_print(&table), Ok("(1 2 (3 4))".to_string()));
    let s = Value::TString("test".to_string());
    assert_eq!(s.pretty_print(&table), Ok("\"test\"".to_string()));
    let q = Value::TString("a\"b".to_string());
    assert_eq!(q.pretty_print(&table), Ok("\"a\"b\"".to_string()));
}

#[test]
fn pretty_print_atoms() {
    let table = SymbolTable::new();
    assert_eq!(Value::TNil.pretty_print(&table), Ok("nil".to_string()));
    assert_eq!(Value::TBoolT.pretty_print(&table), Ok(String::new()));
    assert_eq!(Value::TInt(0).pretty_print(&table), Ok("0".to_string()));
    assert_eq!(Value::TInt(-120).pretty_print(&table), Ok("-120".to_string()));
    assert_eq!(Value::TInt(i32::MAX).pretty_print(&table), Ok("2147483647".to_string()));
    assert_eq!(Value::TInt(i32::MIN).pretty_print(&table), Ok("-2147483648".to_string()));
    assert_eq!(Value::TFloat("1.5".to_string()).pretty_print(&table), Ok("1.5".to_string()));
    assert_eq!(Value::TDouble("-0.25".to_string()).pretty_print(&table), Ok("-0.25".to_string()));
    let nested = Value::from_iter(&vec![Value::TNil, Value::from_iter(&vec![Value::TNil])]);
    assert_eq!(nested.pretty_print(&table), Ok("(nil (nil))".to_string()));
}

#[test]
fn pretty_print_symbols() {
    let mut table = SymbolTable::new();
    let (form, _) = parse(b"(car (quote (foo bar)))", &mut table).unwrap();
    assert_eq!(form.pretty_print(&table), Ok("(Car (Quote (foo bar)))".to_string()));
    assert_eq!(sym(SymbolType::Cond).pretty_print(&table), Ok("Cond".to_string()));
    assert_eq!(sym(SymbolType::Cons).pretty_print(&table), Ok("Cons".to_string()));
    let stranger = Value::from_iter(&vec![
        Value::TInt(1),
        sym(SymbolType::Others(77)),
        sym(SymbolType::Others(78)),
    ]);
    assert_eq!(
        stranger.pretty_print(&table),
        Err(SymbolLookupError { id: SymbolType::Others(77) })
    );
}

#[test]
fn proper_values_are_told_apart() {
    let improper = Value::TCons(Box::new(Value::TInt(1)), Box::new(Value::TInt(2)));
    assert!(!improper.is_proper());
    assert!(ints(&[1, 2]).is_proper());
    assert!(Value::TInt(1).is_proper());
    let inside = Value::from_iter(&vec![Value::TInt(0), improper]);
    assert!(!inside.is_proper());
}

#[test]
fn symbol_table_starts_with_three_aliases() {
    let mut table = SymbolTable::new();
    assert_eq!(table.len(), 3);
    assert_eq!(table.resolve_or_insert("car"), SymbolType::Car);
    assert_eq!(table.resolve_or_insert("cdr"), SymbolType::Cdr);
    assert_eq!(table.resolve_or_insert("quote"), SymbolType::Quote);
    assert_eq!(table.len(), 3);
    assert_eq!(table.resolve_or_insert("cond"), SymbolType::Others(3));
    assert_eq!(table.resolve_or_insert("x"), SymbolType::Others(4));
    assert_eq!(table.resolve_or_insert("cond"), SymbolType::Others(3));
    assert_eq!(table.len(), 5);
}

#[test]
fn display_name_of_known_and_unknown() {
    let mut table = SymbolTable::new();
    let id = table.resolve_or_insert("hello");
    assert_eq!(table.display_name(&id), Ok("hello".to_string()));
    assert_eq!(table.display_name(&SymbolType::Car), Ok("Car".to_string()));
    assert_eq!(table.display_name(&SymbolType::Cdr), Ok("Cdr".to_string()));
    assert_eq!(table.display_name(&SymbolType::Quote), Ok("Quote".to_string()));
    assert_eq!(table.display_name(&SymbolType::Div), Ok("Div".to_string()));
    assert_eq!(
        table.display_name(&SymbolType::Others(99)),
        Err(SymbolLookupError { id: SymbolType::Others(99) })
    );
}

#[test]
fn symbol_type_fixed_text_and_key() {
    assert_eq!(SymbolType::Car.to_string(), "Car");
    assert_eq!(SymbolType::Cdr.to_string(), "Cdr");
    assert_eq!(SymbolType::Quote.to_string(), "Quote");
    assert_eq!(SymbolType::Cond.to_string(), "Cond");
    assert_eq!(SymbolType::Cons.to_string(), "Cons");
    assert_eq!(SymbolType::Add.to_string(), "Add");
    assert_eq!(SymbolType::Sub.to_string(), "Sub");
    assert_eq!(SymbolType::Mul.to_string(), "Mul");
    assert_eq!(SymbolType::Div.to_string(), "Div");
    assert_eq!(SymbolType::Others(1).to_string(), "unknown");
    assert_eq!(SymbolType::Cond.key(), 0);
    assert_eq!(SymbolType::Div.key(), 8);
    assert_eq!(SymbolType::Others(0).key(), 9);
    assert_eq!(SymbolType::Others(u64::MAX).key(), 9 + u64::MAX as u128);
}

#[test]
fn well_known_identifiers_have_distinct_texts() {
    let all = [
        SymbolType::Cond,
        SymbolType::Car,
        SymbolType::Cdr,
        SymbolType::Quote,
        SymbolType::Cons,
        SymbolType::Add,
        SymbolType::Sub,
        SymbolType::Mul,
        SymbolType::Div,
    ];
    for (i, a) in all.iter().enumerate() {
        for (j, b) in all.iter().enumerate() {
            assert_eq!(a.to_string() == b.to_string(), i == j);
        }
        assert_ne!(a.to_string(), SymbolType::Others(0).to_string());
    }
}

#[test]
fn dual_map_len_grows_by_one_for_a_new_text() {
    let mut m = DualMap::new();
    for n in 0..5u64 {
        let before = m.len();
        assert_eq!(m.insert(format!("s{}", n), SymbolType::Others(n)), None);
        assert_eq!(m.len(), before + 1);
    }
    let before = m.len();
    assert_eq!(m.insert("s0".to_string(), SymbolType::Car), Some(SymbolType::Others(0)));
    assert_eq!(m.len(), before);
}

#[test]
fn dual_map_keeps_both_directions() {
    let mut m = DualMap::new();
    assert_eq!(m.len(), 0);
    assert_eq!(m.insert("a".to_string(), SymbolType::Others(1)), None);
    assert_eq!(m.insert("b".to_string(), SymbolType::Car), None);
    assert_eq!(m.len(), 2);
    assert_eq!(m.forward("a"), Some(SymbolType::Others(1)));
    assert_eq!(m.forward("c"), None);
    assert_eq!(m.backward(&SymbolType::Car), Some(&"b".to_string()));
    assert_eq!(m.backward(&SymbolType::Cdr), None);
    assert_eq!(m.insert("a".to_string(), SymbolType::Others(2)), Some(SymbolType::Others(1)));
    assert_eq!(m.len(), 2);
    assert_eq!(m.forward("a"), Some(SymbolType::Others(2)));
    assert_eq!(m.backward(&SymbolType::Others(1)), Some(&"a".to_string()));
    assert_eq!(m.backward(&SymbolType::Others(2)), Some(&"a".to_string()));
}

#[test]
fn double_quote_is_the_only_byte_excluded() {
    assert!(!is_not_double_quote(b'"'));
    assert!(is_not_double_quote(b'a'));
    assert!(is_not_double_quote(0));
    assert!(is_not_double_quote(255));
}
