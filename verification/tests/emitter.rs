//! The emitter primitives and the leaf translators, exercised directly.

use rua::ast::{BinOp, Error, Expr, Lit, Pat, Path};
use rua::gen::{op_sym, Generator};

#[test]
fn new_generator_is_empty_at_depth_zero() {
    let g = Generator::new();
    assert_eq!(g.buf, "");
    assert_eq!(g.curr_indent, 0);
}

#[test]
fn push_str_appends_verbatim() {
    let mut g = Generator::new();
    g.push_str("abc");
    g.push_str("def");
    assert_eq!(g.buf, "abcdef");
}

#[test]
fn indent_writes_two_spaces_per_level() {
    let mut g = Generator::new();
    g.indent();
    assert_eq!(g.buf, "");
    g.curr_indent = 3;
    g.indent();
    assert_eq!(g.buf, "      ");
}

#[test]
fn end_closes_at_current_depth() {
    let mut g = Generator::new();
    g.curr_indent = 2;
    g.end();
    assert_eq!(g.buf, "    end");
}

#[test]
fn integer_literals_use_decimal_digits() {
    let mut g = Generator::new();
    g.literal(&Lit::Int(0)).unwrap();
    g.push_str(" ");
    g.literal(&Lit::Int(42)).unwrap();
    g.push_str(" ");
    g.literal(&Lit::Int(u128::MAX)).unwrap();
    assert_eq!(g.buf, "0 42 340282366920938463463374607431768211455");
}

#[test]
fn string_literals_are_single_quoted_raw() {
    let mut g = Generator::new();
    g.literal(&Lit::Str(String::from("hello world"))).unwrap();
    assert_eq!(g.buf, "'hello world'");
}

#[test]
fn empty_string_literal_is_a_quote_pair() {
    let mut g = Generator::new();
    g.literal(&Lit::Str(String::new())).unwrap();
    assert_eq!(g.buf, "''");
}

#[test]
fn identifiers_pass_through() {
    let mut g = Generator::new();
    g.ident(&String::from("counter"));
    assert_eq!(g.buf, "counter");
}

#[test]
fn pattern_reduces_to_identifier() {
    let mut g = Generator::new();
    g.pat(&Pat::Ident(String::from("x"))).unwrap();
    g.push_str(" ");
    g.pat(&Pat::Path(Path { segments: vec![String::from("y")] })).unwrap();
    assert_eq!(g.buf, "x y");
    assert_eq!(
        g.pat(&Pat::Unsupported(String::from("wildcard"))),
        Err(Error::UnsupportedPat)
    );
}

#[test]
fn operator_symbols_are_source_spellings() {
    assert_eq!(op_sym(&BinOp::Add), "+");
    assert_eq!(op_sym(&BinOp::Sub), "-");
    assert_eq!(op_sym(&BinOp::Mul), "*");
    assert_eq!(op_sym(&BinOp::Div), "/");
    assert_eq!(op_sym(&BinOp::Rem), "%");
    assert_eq!(op_sym(&BinOp::And), "&&");
    assert_eq!(op_sym(&BinOp::Or), "||");
    assert_eq!(op_sym(&BinOp::BitXor), "^");
    assert_eq!(op_sym(&BinOp::BitAnd), "&");
    assert_eq!(op_sym(&BinOp::BitOr), "|");
    assert_eq!(op_sym(&BinOp::Shl), "<<");
    assert_eq!(op_sym(&BinOp::Shr), ">>");
    assert_eq!(op_sym(&BinOp::Eq), "==");
    assert_eq!(op_sym(&BinOp::Lt), "<");
    assert_eq!(op_sym(&BinOp::Le), "<=");
    assert_eq!(op_sym(&BinOp::Ne), "!=");
    assert_eq!(op_sym(&BinOp::Ge), ">=");
    assert_eq!(op_sym(&BinOp::Gt), ">");
}

#[test]
fn op_emits_spaced_operator_application() {
    let mut g = Generator::new();
    let lhs = Expr::Path(Path { segments: vec![String::from("a")] });
    let rhs = Expr::Path(Path { segments: vec![String::from("b")] });
    g.op(&BinOp::Eq, &lhs, &rhs).unwrap();
    assert_eq!(g.buf, "a == b");
}

#[test]
fn tuple_separates_arguments_with_comma_space() {
    let mut g = Generator::new();
    let args = vec![
        Expr::Lit(Lit::Int(1)),
        Expr::Lit(Lit::Int(2)),
        Expr::Lit(Lit::Int(3)),
    ];
    g.tuple(&args).unwrap();
    assert_eq!(g.buf, "(1, 2, 3)");
    let mut g2 = Generator::new();
    g2.tuple(&vec![]).unwrap();
    assert_eq!(g2.buf, "()");
}

#[test]
fn args_lists_parameter_identifiers() {
    let mut g = Generator::new();
    let params = vec![
        Pat::Ident(String::from("a")),
        Pat::Ident(String::from("b")),
    ];
    g.args(&params).unwrap();
    assert_eq!(g.buf, "(a, b)");
}
