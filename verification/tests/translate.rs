//! End-to-end translations of small programs, and the rejection of every
//! construct outside the supported subset.

use rua::ast::{BinOp, Block, Error, Expr, Item, Lit, Module, Pat, Path, Stmt};
use rua::gen::{translate, Generator};

fn name_expr(name: &str) -> Expr {
    Expr::Path(Path { segments: vec![String::from(name)] })
}

fn int_lit(n: u128) -> Expr {
    Expr::Lit(Lit::Int(n))
}

fn add_module() -> Module {
    let body = Block {
        stmts: vec![Stmt::Expr(Box::new(Expr::Ret(Some(Box::new(Expr::Binary(
            BinOp::Add,
            Box::new(name_expr("a")),
            Box::new(name_expr("b")),
        ))))))],
    };
    Module {
        items: vec![Item::Fn(
            String::from("add"),
            vec![
                Pat::Ident(String::from("a")),
                Pat::Ident(String::from("b")),
            ],
            body,
        )],
    }
}

#[test]
fn function_with_arithmetic() {
    let out = translate(&add_module()).unwrap();
    assert_eq!(out, "function add(a, b)\n  return a + b\nend\n\n");
}

#[test]
fn loop_with_break() {
    let inner = Block {
        stmts: vec![Stmt::Expr(Box::new(Expr::Break(Some(Box::new(int_lit(1))))))],
    };
    let cond = Stmt::Expr(Box::new(Expr::If(Box::new(name_expr("done")), inner)));
    let looped = Stmt::Expr(Box::new(Expr::Loop(Block { stmts: vec![cond] })));
    let mut g = Generator::new();
    g.stmt(&looped).unwrap();
    assert_eq!(g.buf, "while true do\n  if done then\n    break 1\n  end\nend\n");
}

#[test]
fn local_binding_with_call_initializer() {
    let call = Expr::Call(
        Box::new(name_expr("f")),
        vec![int_lit(1), Expr::Lit(Lit::Str(String::from("a")))],
    );
    let local = Stmt::Local(Pat::Ident(String::from("x")), Some(Box::new(call)));
    let mut g = Generator::new();
    g.stmt(&local).unwrap();
    assert_eq!(g.buf, "local x = f(1, 'a')\n");
}

#[test]
fn compound_assignment() {
    let s = Stmt::Semi(Box::new(Expr::AssignOp(
        BinOp::Add,
        Box::new(name_expr("x")),
        Box::new(name_expr("y")),
    )));
    let mut g = Generator::new();
    g.stmt(&s).unwrap();
    assert_eq!(g.buf, "x = x + y\n");
}

#[test]
fn plain_assignment() {
    let s = Stmt::Semi(Box::new(Expr::Assign(
        Box::new(name_expr("x")),
        Box::new(int_lit(7)),
    )));
    let mut g = Generator::new();
    g.stmt(&s).unwrap();
    assert_eq!(g.buf, "x = 7\n");
}

#[test]
fn translating_twice_is_byte_identical() {
    let m = add_module();
    let first = translate(&m).unwrap();
    let second = translate(&m).unwrap();
    assert_eq!(first, second);
}

#[test]
fn empty_module_translates_to_empty_text() {
    let m = Module { items: vec![] };
    assert_eq!(translate(&m).unwrap(), "");
}

#[test]
fn items_keep_declaration_order() {
    let mk = |name: &str| {
        Item::Fn(
            String::from(name),
            vec![],
            Block { stmts: vec![Stmt::Expr(Box::new(Expr::Ret(None)))] },
        )
    };
    let m = Module { items: vec![mk("first"), mk("second")] };
    let out = translate(&m).unwrap();
    assert_eq!(
        out,
        "function first()\n  return\nend\n\nfunction second()\n  return\nend\n\n"
    );
}

#[test]
fn nested_function_definition() {
    let inner = Item::Fn(
        String::from("inner"),
        vec![],
        Block { stmts: vec![Stmt::Expr(Box::new(Expr::Ret(None)))] },
    );
    let outer = Item::Fn(
        String::from("outer"),
        vec![],
        Block { stmts: vec![Stmt::Item(Box::new(inner))] },
    );
    let m = Module { items: vec![outer] };
    let out = translate(&m).unwrap();
    assert_eq!(
        out,
        "function outer()\n  function inner()\n    return\n  end\n\n\nend\n\n"
    );
}

#[test]
fn bare_and_separated_expression_statements_emit_identically() {
    let bare = Stmt::Expr(Box::new(name_expr("go")));
    let separated = Stmt::Semi(Box::new(name_expr("go")));
    let mut g1 = Generator::new();
    g1.stmt(&bare).unwrap();
    let mut g2 = Generator::new();
    g2.stmt(&separated).unwrap();
    assert_eq!(g1.buf, g2.buf);
    assert_eq!(g1.buf, "go\n");
}

#[test]
fn break_and_return_without_values() {
    let body = Block {
        stmts: vec![Stmt::Expr(Box::new(Expr::Break(None)))],
    };
    let s = Stmt::Expr(Box::new(Expr::Loop(body)));
    let mut g = Generator::new();
    g.stmt(&s).unwrap();
    assert_eq!(g.buf, "while true do\n  break\nend\n");

    let mut g2 = Generator::new();
    g2.stmt(&Stmt::Expr(Box::new(Expr::Ret(None)))).unwrap();
    assert_eq!(g2.buf, "return\n");
}

#[test]
fn parameter_pattern_may_be_single_segment_path() {
    let m = Module {
        items: vec![Item::Fn(
            String::from("f"),
            vec![Pat::Path(Path { segments: vec![String::from("p")] })],
            Block { stmts: vec![Stmt::Expr(Box::new(Expr::Ret(None)))] },
        )],
    };
    assert_eq!(translate(&m).unwrap(), "function f(p)\n  return\nend\n\n");
}

#[test]
fn embedded_quote_passes_through_unescaped() {
    let mut g = Generator::new();
    let s = Stmt::Expr(Box::new(Expr::Lit(Lit::Str(String::from("it's")))));
    g.stmt(&s).unwrap();
    assert_eq!(g.buf, "'it's'\n");
}

#[test]
fn whole_program_with_loop_and_locals() {
    let guard = Expr::Binary(
        BinOp::Ge,
        Box::new(name_expr("n")),
        Box::new(int_lit(10)),
    );
    let body = Block {
        stmts: vec![
            Stmt::Expr(Box::new(Expr::If(
                Box::new(guard),
                Block { stmts: vec![Stmt::Expr(Box::new(Expr::Break(None)))] },
            ))),
            Stmt::Semi(Box::new(Expr::AssignOp(
                BinOp::Add,
                Box::new(name_expr("n")),
                Box::new(int_lit(1)),
            ))),
        ],
    };
    let m = Module {
        items: vec![Item::Fn(
            String::from("count"),
            vec![Pat::Ident(String::from("n"))],
            Block {
                stmts: vec![
                    Stmt::Local(Pat::Ident(String::from("limit")), Some(Box::new(int_lit(10)))),
                    Stmt::Expr(Box::new(Expr::Loop(body))),
                    Stmt::Expr(Box::new(Expr::Ret(Some(Box::new(name_expr("n")))))),
                ],
            },
        )],
    };
    let out = translate(&m).unwrap();
    let expected = "function count(n)\n  local limit = 10\n  while true do\n    if n >= 10 then\n      break\n    end\n    n = n + 1\n  end\n  return n\nend\n\n";
    assert_eq!(out, expected);
}

#[test]
fn rejects_unsupported_item() {
    let m = Module { items: vec![Item::Unsupported(String::from("use declaration"))] };
    assert_eq!(translate(&m), Err(Error::UnsupportedItem));
}

#[test]
fn rejects_unsupported_statement() {
    let m = Module {
        items: vec![Item::Fn(
            String::from("f"),
            vec![],
            Block { stmts: vec![Stmt::Unsupported(String::from("macro invocation"))] },
        )],
    };
    assert_eq!(translate(&m), Err(Error::UnsupportedStmt));
}

#[test]
fn rejects_unsupported_expression() {
    let m = Module {
        items: vec![Item::Fn(
            String::from("f"),
            vec![],
            Block {
                stmts: vec![Stmt::Expr(Box::new(Expr::Unsupported(String::from(
                    "closure",
                ))))],
            },
        )],
    };
    assert_eq!(translate(&m), Err(Error::UnsupportedExpr));
}

#[test]
fn rejects_unsupported_literal() {
    let m = Module {
        items: vec![Item::Fn(
            String::from("f"),
            vec![],
            Block {
                stmts: vec![Stmt::Expr(Box::new(Expr::Lit(Lit::Unsupported(
                    String::from("float literal"),
                ))))],
            },
        )],
    };
    assert_eq!(translate(&m), Err(Error::UnsupportedLit));
}

#[test]
fn rejects_unsupported_pattern() {
    let m = Module {
        items: vec![Item::Fn(
            String::from("f"),
            vec![Pat::Unsupported(String::from("tuple pattern"))],
            Block { stmts: vec![Stmt::Expr(Box::new(Expr::Ret(None)))] },
        )],
    };
    assert_eq!(translate(&m), Err(Error::UnsupportedPat));
}

#[test]
fn rejects_multi_segment_path() {
    let qualified = Expr::Path(Path {
        segments: vec![String::from("a"), String::from("b")],
    });
    let m = Module {
        items: vec![Item::Fn(
            String::from("f"),
            vec![],
            Block { stmts: vec![Stmt::Expr(Box::new(qualified))] },
        )],
    };
    assert_eq!(translate(&m), Err(Error::UnsupportedPath));
}

#[test]
fn rejects_empty_path() {
    let mut g = Generator::new();
    let empty = Path { segments: vec![] };
    assert_eq!(g.path(&empty), Err(Error::UnsupportedPath));
}

#[test]
fn rejection_leaves_no_output() {
    let m = Module { items: vec![Item::Unsupported(String::from("static item"))] };
    assert!(translate(&m).is_err());
}
