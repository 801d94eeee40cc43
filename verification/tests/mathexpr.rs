//! The expression evaluator: precedence, exact money arithmetic, names.

use ledger_core::dec::Dec;
use ledger_core::mathexpr::{eval, eval_with, NameTable, VarEntry};

fn d(s: &str) -> Dec {
    Dec::parse(s).unwrap()
}

fn same(a: &Dec, b: &Dec) -> bool {
    a.same_value(b)
}

#[test]
fn arithmetic_precedence() {
    assert!(same(&eval("2 + 3 * 4").unwrap(), &d("14")));
    assert!(same(&eval("(2 + 3) * 4").unwrap(), &d("20")));
    assert!(same(&eval("-5 + 10").unwrap(), &d("5")));
    assert!(same(&eval("10 / 4").unwrap(), &d("2.5")));
}

#[test]
fn money_is_exact() {
    // The classic float trap: 0.1 + 0.2
    assert!(same(&eval("0.1 + 0.2").unwrap(), &d("0.3")));
    // VAT at 15% on 1,234.50
    assert!(same(&eval("1,234.50 * 0.15").unwrap(), &d("185.1750")));
}

#[test]
fn division_by_zero_is_an_error() {
    assert!(eval("1 / 0").is_err());
    assert!(eval("1 % (2 - 2)").is_err());
}

fn vars() -> NameTable {
    NameTable {
        entries: vec![
            VarEntry { name: "Amount".to_string(), value: Some(d("100")) },
            VarEntry { name: "Unit Price".to_string(), value: Some(d("2.5")) },
        ],
        folded: false,
    }
}

#[test]
fn variables_and_bracket_names() {
    assert!(same(&eval_with("Amount * 1.15", &vars()).unwrap(), &d("115.00")));
    assert!(same(&eval_with("[Unit Price] * 4", &vars()).unwrap(), &d("10.0")));
    assert!(eval_with("Nope + 1", &vars()).is_err());
}

#[test]
fn rejects_garbage() {
    assert!(eval("1 + ").is_err());
    assert!(eval("system('rm -rf')").is_err());
    assert!(eval("").is_err());
}

#[test]
fn exact_results_keep_their_scale() {
    assert_eq!(eval("0.1 + 0.2").unwrap().to_text(), "0.3");
    assert_eq!(eval("1,234.50 * 0.15").unwrap().to_text(), "185.1750");
    assert_eq!(eval("10 / 4").unwrap().normalize().to_text(), "2.5");
}

#[test]
fn error_messages_name_the_problem() {
    assert_eq!(eval("1 / 0").unwrap_err().message(), "expression error: division by zero");
    assert!(eval("Nope + 1").unwrap_err().message().contains("Nope"));
    assert_eq!(eval("").unwrap_err().message(), "expression error: empty expression");
}
