//! The mathematical model of translation: for every node of the syntax tree,
//! either the exact text the generator emits for it, or the rejection error,
//! as one total function per syntactic category.
//!
//! Statement-level text is emitted at a nesting depth `d`: each statement is
//! prefixed by two spaces per depth level and followed by a line terminator,
//! and entering a block raises the depth by one.

use crate::ast::{BinOp, Block, Error, Expr, Item, Lit, Module, Pat, Path, Stmt};
use crate::digits::dec;
use vstd::prelude::*;

verus! {

/// The result of translating one node: the emitted text, or the rejection.
pub type Emitted = Result<Seq<char>, Error>;

/// Concatenates two translation results, keeping the leftmost rejection:
/// text is emitted left to right, and a run stops at the first unsupported
/// construct.
pub open spec fn cat(a: Emitted, b: Emitted) -> Emitted {
    match a {
        Ok(x) => match b {
            Ok(y) => Ok(x + y),
            Err(e) => Err(e),
        },
        Err(e) => Err(e),
    }
}

/// The indentation prefix at nesting depth `d`: two spaces per level.
pub open spec fn ind(d: nat) -> Seq<char>
    decreases d,
{
    if d == 0 {
        Seq::<char>::empty()
    } else {
        ind((d - 1) as nat) + "  "@
    }
}

/// The indentation prefix is exactly a run of spaces proportional to the
/// nesting depth: two per level, nothing else.
pub proof fn lemma_ind_spaces(d: nat)
    ensures
        ind(d).len() == 2 * d,
        forall|i: int| 0 <= i < 2 * d ==> ind(d)[i] == ' ',
    decreases d,
{
    reveal_strlit("  ");
    if d > 0 {
        lemma_ind_spaces((d - 1) as nat);
    }
}

/// The textual symbol of a binary operator, written as in the source
/// language; no operator is respelled for the target.
pub open spec fn sym(op: BinOp) -> Seq<char> {
    match op {
        BinOp::Add => "+"@,
        BinOp::Sub => "-"@,
        BinOp::Mul => "*"@,
        BinOp::Div => "/"@,
        BinOp::Rem => "%"@,
        BinOp::And => "&&"@,
        BinOp::Or => "||"@,
        BinOp::BitXor => "^"@,
        BinOp::BitAnd => "&"@,
        BinOp::BitOr => "|"@,
        BinOp::Shl => "<<"@,
        BinOp::Shr => ">>"@,
        BinOp::Eq => "=="@,
        BinOp::Lt => "<"@,
        BinOp::Le => "<="@,
        BinOp::Ne => "!="@,
        BinOp::Ge => ">="@,
        BinOp::Gt => ">"@,
    }
}

/// A binary operator application: left operand, spaced symbol, right operand.
pub open spec fn padded_sym(op: BinOp) -> Seq<char> {
    " "@ + sym(op) + " "@
}

/// The text of a literal: integers as decimal digits, strings as their raw
/// content between single quotes. Other literal kinds are rejected.
pub open spec fn tr_lit(l: Lit) -> Emitted {
    match l {
        Lit::Str(s) => Ok("'"@ + s@ + "'"@),
        Lit::Int(n) => Ok(dec(n as nat)),
        Lit::Unsupported(_) => Err(Error::UnsupportedLit),
    }
}

/// The text of a qualified name: the identifier of its sole segment. A name
/// with any other number of segments is rejected.
pub open spec fn tr_path(p: Path) -> Emitted {
    if p.segments@.len() == 1 {
        Ok(p.segments@[0]@)
    } else {
        Err(Error::UnsupportedPath)
    }
}

/// The text of a binding pattern: the bare identifier it reduces to.
/// Structured patterns are rejected.
pub open spec fn tr_pat(p: Pat) -> Emitted {
    match p {
        Pat::Ident(s) => Ok(s@),
        Pat::Path(path) => tr_path(path),
        Pat::Unsupported(_) => Err(Error::UnsupportedPat),
    }
}

/// A comma-space-separated pattern list, without the enclosing parentheses.
pub open spec fn tr_pats(ps: Seq<Pat>) -> Emitted
    decreases ps.len(),
{
    if ps.len() == 0 {
        Ok(Seq::<char>::empty())
    } else {
        let sep: Seq<char> = if ps.len() == 1 {
            Seq::<char>::empty()
        } else {
            ", "@
        };
        cat(cat(tr_pats(ps.subrange(0, ps.len() - 1)), Ok(sep)), tr_pat(ps[ps.len() - 1]))
    }
}

/// The text of an expression at nesting depth `d`. Expressions that contain
/// blocks (the infinite loop and the conditional) emit those blocks one
/// level deeper and close them with `end` at depth `d`.
pub open spec fn tr_expr(e: Expr, d: nat) -> Emitted
    decreases e,
{
    match e {
        Expr::Lit(l) => tr_lit(l),
        Expr::Path(p) => tr_path(p),
        Expr::Call(f, args) => cat(
            tr_expr(*f, d),
            cat(cat(Ok("("@), tr_exprs(args@, d)), Ok(")"@)),
        ),
        Expr::Binary(op, lhs, rhs) => cat(
            cat(tr_expr(*lhs, d), Ok(padded_sym(op))),
            tr_expr(*rhs, d),
        ),
        Expr::Assign(lhs, rhs) => cat(cat(tr_expr(*lhs, d), Ok(" = "@)), tr_expr(*rhs, d)),
        Expr::AssignOp(op, lhs, rhs) => cat(
            cat(tr_expr(*lhs, d), Ok(" = "@)),
            cat(cat(tr_expr(*lhs, d), Ok(padded_sym(op))), tr_expr(*rhs, d)),
        ),
        Expr::Ret(v) => match v {
            Some(val) => cat(Ok("return "@), tr_expr(*val, d)),
            None => Ok("return"@),
        },
        Expr::Loop(body) => cat(
            cat(Ok("while true do\n"@), tr_stmts(body.stmts@, d + 1)),
            Ok(ind(d) + "end"@),
        ),
        Expr::If(c, body) => cat(
            cat(cat(cat(Ok("if "@), tr_expr(*c, d)), Ok(" then\n"@)), tr_stmts(body.stmts@, d + 1)),
            Ok(ind(d) + "end"@),
        ),
        Expr::Break(v) => match v {
            Some(val) => cat(Ok("break "@), tr_expr(*val, d)),
            None => Ok("break"@),
        },
        Expr::Unsupported(_) => Err(Error::UnsupportedExpr),
    }
}

/// A comma-space-separated expression list, without the parentheses.
pub open spec fn tr_exprs(es: Seq<Expr>, d: nat) -> Emitted
    decreases es,
{
    if es.len() == 0 {
        Ok(Seq::<char>::empty())
    } else {
        let sep: Seq<char> = if es.len() == 1 {
            Seq::<char>::empty()
        } else {
            ", "@
        };
        cat(cat(tr_exprs(es.subrange(0, es.len() - 1), d), Ok(sep)), tr_expr(es[es.len() - 1], d))
    }
}

/// The text of one statement at depth `d`: the indentation prefix, the
/// statement's own text, and a line terminator.
pub open spec fn tr_stmt(s: Stmt, d: nat) -> Emitted
    decreases s,
{
    cat(
        cat(
            Ok(ind(d)),
            match s {
                Stmt::Item(it) => tr_item(*it, d),
                Stmt::Expr(e) => tr_expr(*e, d),
                Stmt::Semi(e) => tr_expr(*e, d),
                Stmt::Local(p, init) => match init {
                    Some(e) => cat(cat(cat(Ok("local "@), tr_pat(p)), Ok(" = "@)), tr_expr(*e, d)),
                    None => cat(Ok("local "@), tr_pat(p)),
                },
                Stmt::Unsupported(_) => Err(Error::UnsupportedStmt),
            },
        ),
        Ok("\n"@),
    )
}

/// The text of a whole statement sequence at depth `d`, in order.
pub open spec fn tr_stmts(ss: Seq<Stmt>, d: nat) -> Emitted
    decreases ss,
{
    if ss.len() == 0 {
        Ok(Seq::<char>::empty())
    } else {
        cat(tr_stmts(ss.subrange(0, ss.len() - 1), d), tr_stmt(ss[ss.len() - 1], d))
    }
}

/// The text of an item at depth `d`: a function header with its parameter
/// list, the body one level deeper, a closing `end`, and a blank separator
/// line. Items other than function definitions are rejected.
pub open spec fn tr_item(it: Item, d: nat) -> Emitted
    decreases it,
{
    match it {
        Item::Fn(name, params, body) => cat(
            cat(
                cat(
                    cat(
                        Ok("function "@ + name@),
                        cat(cat(Ok("("@), tr_pats(params@)), Ok(")"@)),
                    ),
                    Ok("\n"@),
                ),
                tr_stmts(body.stmts@, d + 1),
            ),
            Ok(ind(d) + "end"@ + "\n\n"@),
        ),
        Item::Unsupported(_) => Err(Error::UnsupportedItem),
    }
}

/// The text of an item sequence at depth `d`, in declaration order.
pub open spec fn tr_items(items: Seq<Item>, d: nat) -> Emitted
    decreases items,
{
    if items.len() == 0 {
        Ok(Seq::<char>::empty())
    } else {
        cat(tr_items(items.subrange(0, items.len() - 1), d), tr_item(items[items.len() - 1], d))
    }
}

/// The text of a whole module: its items, exactly once each, in order, at
/// depth zero.
pub open spec fn tr_module(m: Module) -> Emitted {
    tr_items(m.items@, 0)
}

/// The larger of two depths.
pub open spec fn max2(a: nat, b: nat) -> nat {
    if a >= b {
        a
    } else {
        b
    }
}

/// How many nesting levels deeper than its own statement an expression can
/// push the generator: one per block it opens, along its deepest chain.
pub open spec fn depth_expr(e: Expr) -> nat
    decreases e,
{
    match e {
        Expr::Lit(_) => 0,
        Expr::Path(_) => 0,
        Expr::Call(f, args) => max2(depth_expr(*f), depth_exprs(args@)),
        Expr::Binary(_, lhs, rhs) => max2(depth_expr(*lhs), depth_expr(*rhs)),
        Expr::Assign(lhs, rhs) => max2(depth_expr(*lhs), depth_expr(*rhs)),
        Expr::AssignOp(_, lhs, rhs) => max2(depth_expr(*lhs), depth_expr(*rhs)),
        Expr::Ret(v) => match v {
            Some(val) => depth_expr(*val),
            None => 0,
        },
        Expr::Loop(body) => 1 + depth_stmts(body.stmts@),
        Expr::If(c, body) => max2(depth_expr(*c), 1 + depth_stmts(body.stmts@)),
        Expr::Break(v) => match v {
            Some(val) => depth_expr(*val),
            None => 0,
        },
        Expr::Unsupported(_) => 0,
    }
}

/// The deepest nesting any expression of the list can reach.
pub open spec fn depth_exprs(es: Seq<Expr>) -> nat
    decreases es,
{
    if es.len() == 0 {
        0
    } else {
        max2(depth_exprs(es.subrange(0, es.len() - 1)), depth_expr(es[es.len() - 1]))
    }
}

/// How many nesting levels deeper than its own line a statement can push the
/// generator.
pub open spec fn depth_stmt(s: Stmt) -> nat
    decreases s,
{
    match s {
        Stmt::Item(it) => depth_item(*it),
        Stmt::Expr(e) => depth_expr(*e),
        Stmt::Semi(e) => depth_expr(*e),
        Stmt::Local(_, init) => match init {
            Some(e) => depth_expr(*e),
            None => 0,
        },
        Stmt::Unsupported(_) => 0,
    }
}

/// The deepest nesting any statement of the list can reach.
pub open spec fn depth_stmts(ss: Seq<Stmt>) -> nat
    decreases ss,
{
    if ss.len() == 0 {
        0
    } else {
        max2(depth_stmts(ss.subrange(0, ss.len() - 1)), depth_stmt(ss[ss.len() - 1]))
    }
}

/// How many nesting levels an item opens: one for its body block, plus
/// whatever its body statements open.
pub open spec fn depth_item(it: Item) -> nat
    decreases it,
{
    match it {
        Item::Fn(_, _, body) => 1 + depth_stmts(body.stmts@),
        Item::Unsupported(_) => 0,
    }
}

/// The deepest nesting any item of the list can reach.
pub open spec fn depth_items(items: Seq<Item>) -> nat
    decreases items,
{
    if items.len() == 0 {
        0
    } else {
        max2(depth_items(items.subrange(0, items.len() - 1)), depth_item(items[items.len() - 1]))
    }
}

/// The deepest nesting a whole module can reach.
pub open spec fn depth_module(m: Module) -> nat {
    depth_items(m.items@)
}

/// Each expression of a list nests no deeper than the list's own bound.
pub proof fn lemma_depth_exprs_elem(es: Seq<Expr>, i: int)
    requires
        0 <= i < es.len(),
    ensures
        depth_expr(es[i]) <= depth_exprs(es),
    decreases es.len(),
{
    if i + 1 < es.len() {
        lemma_depth_exprs_elem(es.subrange(0, es.len() - 1), i);
    }
}

/// Each statement of a list nests no deeper than the list's own bound.
pub proof fn lemma_depth_stmts_elem(ss: Seq<Stmt>, i: int)
    requires
        0 <= i < ss.len(),
    ensures
        depth_stmt(ss[i]) <= depth_stmts(ss),
    decreases ss.len(),
{
    if i + 1 < ss.len() {
        lemma_depth_stmts_elem(ss.subrange(0, ss.len() - 1), i);
    }
}

/// Each item of a list nests no deeper than the list's own bound.
pub proof fn lemma_depth_items_elem(items: Seq<Item>, i: int)
    requires
        0 <= i < items.len(),
    ensures
        depth_item(items[i]) <= depth_items(items),
    decreases items.len(),
{
    if i + 1 < items.len() {
        lemma_depth_items_elem(items.subrange(0, items.len() - 1), i);
    }
}

/// Once a prefix of an expression list translates cleanly and the next
/// expression is rejected, the whole list is rejected with that same error.
pub proof fn lemma_tr_exprs_err(es: Seq<Expr>, d: nat, i: int)
    requires
        0 <= i < es.len(),
        tr_exprs(es.subrange(0, i), d) is Ok,
        tr_expr(es[i], d) is Err,
    ensures
        tr_exprs(es, d) == Err::<Seq<char>, Error>(tr_expr(es[i], d)->Err_0),
    decreases es.len(),
{
    let front = es.subrange(0, es.len() - 1);
    if i + 1 < es.len() {
        assert(front.subrange(0, i) =~= es.subrange(0, i));
        lemma_tr_exprs_err(front, d, i);
    }
}

/// Once a prefix of a statement list translates cleanly and the next
/// statement is rejected, the whole list is rejected with that same error.
pub proof fn lemma_tr_stmts_err(ss: Seq<Stmt>, d: nat, i: int)
    requires
        0 <= i < ss.len(),
        tr_stmts(ss.subrange(0, i), d) is Ok,
        tr_stmt(ss[i], d) is Err,
    ensures
        tr_stmts(ss, d) == Err::<Seq<char>, Error>(tr_stmt(ss[i], d)->Err_0),
    decreases ss.len(),
{
    let front = ss.subrange(0, ss.len() - 1);
    if i + 1 < ss.len() {
        assert(front.subrange(0, i) =~= ss.subrange(0, i));
        lemma_tr_stmts_err(front, d, i);
    }
}

/// Once a prefix of an item list translates cleanly and the next item is
/// rejected, the whole list is rejected with that same error.
pub proof fn lemma_tr_items_err(items: Seq<Item>, d: nat, i: int)
    requires
        0 <= i < items.len(),
        tr_items(items.subrange(0, i), d) is Ok,
        tr_item(items[i], d) is Err,
    ensures
        tr_items(items, d) == Err::<Seq<char>, Error>(tr_item(items[i], d)->Err_0),
    decreases items.len(),
{
    let front = items.subrange(0, items.len() - 1);
    if i + 1 < items.len() {
        assert(front.subrange(0, i) =~= items.subrange(0, i));
        lemma_tr_items_err(front, d, i);
    }
}

/// Once a prefix of a pattern list translates cleanly and the next pattern
/// is rejected, the whole list is rejected with that same error.
pub proof fn lemma_tr_pats_err(ps: Seq<Pat>, i: int)
    requires
        0 <= i < ps.len(),
        tr_pats(ps.subrange(0, i)) is Ok,
        tr_pat(ps[i]) is Err,
    ensures
        tr_pats(ps) == Err::<Seq<char>, Error>(tr_pat(ps[i])->Err_0),
    decreases ps.len(),
{
    let front = ps.subrange(0, ps.len() - 1);
    if i + 1 < ps.len() {
        assert(front.subrange(0, i) =~= ps.subrange(0, i));
        lemma_tr_pats_err(front, i);
    }
}

} // verus!
