//! The generator: a single output buffer and a nesting-depth counter, plus
//! one translation method per syntactic category. Each method appends to the
//! buffer exactly the text that the model in `trans` gives for its node, or
//! returns the model's rejection error; the depth counter always returns to
//! its value from before the call.

use crate::ast::{BinOp, Block, Error, Expr, Item, Lit, Module, Pat, Path, Stmt};
use crate::digits::push_dec;
use crate::trans::{
    cat, depth_expr, depth_exprs, depth_item, depth_items, depth_module, depth_stmt, depth_stmts,
    ind, lemma_depth_exprs_elem, lemma_depth_items_elem, lemma_depth_stmts_elem,
    lemma_tr_exprs_err, lemma_tr_items_err, lemma_tr_pats_err, lemma_tr_stmts_err, sym, tr_expr,
    tr_exprs, tr_item, tr_items, tr_lit, tr_module, tr_pat, tr_pats, tr_path, tr_stmt, tr_stmts,
    Emitted,
};
use vstd::prelude::*;
use vstd::string::StringExecFns;

verus! {

/// What a translation method guarantees: on success the buffer grew by
/// exactly the model's text for the node; on rejection the model rejects
/// with the same error, and the old buffer is still a prefix of the new one
/// (the buffer is append-only).
pub open spec fn emits(
    old_buf: Seq<char>,
    new_buf: Seq<char>,
    r: Result<(), Error>,
    t: Emitted,
) -> bool {
    match r {
        Ok(()) => t is Ok && new_buf == old_buf + t->Ok_0,
        Err(e) => t is Err && t->Err_0 == e && old_buf.is_prefix_of(new_buf),
    }
}

/// A sequence is a prefix of itself followed by anything.
pub proof fn lemma_prefix_cat(a: Seq<char>, b: Seq<char>)
    ensures
        a.is_prefix_of(a + b),
{
    assert((a + b).subrange(0, a.len() as int) =~= a);
}

/// Being a prefix is transitive.
pub proof fn lemma_prefix_trans(a: Seq<char>, b: Seq<char>, c: Seq<char>)
    requires
        a.is_prefix_of(b),
        b.is_prefix_of(c),
    ensures
        a.is_prefix_of(c),
{
    assert(c.subrange(0, a.len() as int) =~= a);
}

/// The textual symbol of a binary operator.
pub fn op_sym(op: &BinOp) -> (r: &'static str)
    ensures
        r@ == sym(*op),
{
    match op {
        BinOp::Add => "+",
        BinOp::Sub => "-",
        BinOp::Mul => "*",
        BinOp::Div => "/",
        BinOp::Rem => "%",
        BinOp::And => "&&",
        BinOp::Or => "||",
        BinOp::BitXor => "^",
        BinOp::BitAnd => "&",
        BinOp::BitOr => "|",
        BinOp::Shl => "<<",
        BinOp::Shr => ">>",
        BinOp::Eq => "==",
        BinOp::Lt => "<",
        BinOp::Le => "<=",
        BinOp::Ne => "!=",
        BinOp::Ge => ">=",
        BinOp::Gt => ">",
    }
}

/// The output accumulator and indentation state of one translation run.
pub struct Generator {
    pub buf: String,
    pub curr_indent: usize,
}

impl Generator {
    /// A fresh generator: empty buffer, depth zero.
    pub fn new() -> (r: Generator)
        ensures
            r.buf@ == Seq::<char>::empty(),
            r.curr_indent == 0,
    {
        Generator { buf: String::new(), curr_indent: 0 }
    }

    /// Appends raw text to the buffer.
    pub fn push_str(&mut self, s: &str)
        ensures
            final(self).buf@ == old(self).buf@ + s@,
            final(self).curr_indent == old(self).curr_indent,
    {
        self.buf.append(s);
    }

    /// Appends the indentation prefix for the current depth: two spaces per
    /// nesting level.
    pub fn indent(&mut self)
        ensures
            final(self).buf@ == old(self).buf@ + ind(old(self).curr_indent as nat),
            final(self).curr_indent == old(self).curr_indent,
    {
        let mut i: usize = 0;
        while i < self.curr_indent
            invariant
                i <= self.curr_indent,
                self.curr_indent == old(self).curr_indent,
                self.buf@ == old(self).buf@ + ind(i as nat),
            decreases self.curr_indent - i,
        {
            self.push_str("  ");
            proof {
                assert((old(self).buf@ + ind(i as nat)) + "  "@ =~= old(self).buf@ + (ind(
                    i as nat,
                ) + "  "@));
            }
            i = i + 1;
        }
    }

    /// Appends a block-closing keyword at the current indentation.
    pub fn end(&mut self)
        ensures
            final(self).buf@ == old(self).buf@ + (ind(old(self).curr_indent as nat) + "end"@),
            final(self).curr_indent == old(self).curr_indent,
    {
        self.indent();
        self.push_str("end");
        proof {
            assert((old(self).buf@ + ind(old(self).curr_indent as nat)) + "end"@ =~= old(
                self,
            ).buf@ + (ind(old(self).curr_indent as nat) + "end"@));
        }
    }

    /// Appends an identifier verbatim.
    pub fn ident(&mut self, ident: &String)
        ensures
            final(self).buf@ == old(self).buf@ + ident@,
            final(self).curr_indent == old(self).curr_indent,
    {
        self.push_str(ident.as_str());
    }

    /// Emits a literal: decimal digits for an integer, single-quoted raw
    /// content for a string; any other kind is rejected.
    pub fn literal(&mut self, lit: &Lit) -> (r: Result<(), Error>)
        ensures
            final(self).curr_indent == old(self).curr_indent,
            emits(old(self).buf@, final(self).buf@, r, tr_lit(*lit)),
    {
        match lit {
            Lit::Str(s) => {
                self.push_str("'");
                self.push_str(s.as_str());
                self.push_str("'");
                proof {
                    assert(((old(self).buf@ + "'"@) + s@) + "'"@ =~= old(self).buf@ + ("'"@ + s@
                        + "'"@));
                }
                Ok(())
            },
            Lit::Int(n) => {
                push_dec(&mut self.buf, *n);
                Ok(())
            },
            Lit::Unsupported(_) => Err(Error::UnsupportedLit),
        }
    }

    /// Emits the sole segment of a qualified name; a name with any other
    /// number of segments is rejected.
    pub fn path(&mut self, path: &Path) -> (r: Result<(), Error>)
        ensures
            final(self).curr_indent == old(self).curr_indent,
            emits(old(self).buf@, final(self).buf@, r, tr_path(*path)),
    {
        if path.segments.len() == 1 {
            self.ident(&path.segments[0]);
            Ok(())
        } else {
            Err(Error::UnsupportedPath)
        }
    }

    /// Emits the identifier a pattern reduces to; structured patterns are
    /// rejected.
    pub fn pat(&mut self, pat: &Pat) -> (r: Result<(), Error>)
        ensures
            final(self).curr_indent == old(self).curr_indent,
            emits(old(self).buf@, final(self).buf@, r, tr_pat(*pat)),
    {
        match pat {
            Pat::Ident(s) => {
                self.ident(s);
                Ok(())
            },
            Pat::Path(path) => self.path(path),
            Pat::Unsupported(_) => Err(Error::UnsupportedPat),
        }
    }

    /// Emits a parenthesized, comma-space-separated parameter list, each
    /// parameter's pattern reduced to its identifier.
    pub fn args(&mut self, args: &Vec<Pat>) -> (r: Result<(), Error>)
        ensures
            final(self).curr_indent == old(self).curr_indent,
            emits(
                old(self).buf@,
                final(self).buf@,
                r,
                cat(cat(Ok("("@), tr_pats(args@)), Ok(")"@)),
            ),
    {
        self.push_str("(");
        let n = args.len();
        let mut i: usize = 0;
        proof {
            assert(old(self).buf@ + "("@ =~= old(self).buf@ + "("@ + tr_pats(
                args@.subrange(0, 0),
            )->Ok_0 + Seq::<char>::empty());
            lemma_prefix_cat(old(self).buf@, "("@);
        }
        while i < n
            invariant
                n == args@.len(),
                i <= n,
                self.curr_indent == old(self).curr_indent,
                tr_pats(args@.subrange(0, i as int)) is Ok,
                self.buf@ == old(self).buf@ + "("@ + tr_pats(args@.subrange(0, i as int))->Ok_0 + (
                if 0 < i && i < n {
                    ", "@
                } else {
                    Seq::<char>::empty()
                }),
                old(self).buf@.is_prefix_of(self.buf@),
            decreases n - i,
        {
            let ghost buf0 = self.buf@;
            match self.pat(&args[i]) {
                Err(e) => {
                    proof {
                        lemma_tr_pats_err(args@, i as int);
                        lemma_prefix_trans(old(self).buf@, buf0, self.buf@);
                    }
                    return Err(e);
                },
                Ok(()) => {},
            }
            proof {
                let pre = args@.subrange(0, i as int);
                let pre1 = args@.subrange(0, i as int + 1);
                assert(pre1.subrange(0, pre1.len() - 1) =~= pre);
                assert(pre1[pre1.len() - 1] == args@[i as int]);
                assert(tr_pats(pre1) is Ok);
                assert(tr_pats(pre1)->Ok_0 =~= tr_pats(pre)->Ok_0 + (if 0 < i {
                    ", "@
                } else {
                    Seq::<char>::empty()
                }) + tr_pat(args@[i as int])->Ok_0);
                assert(self.buf@ =~= old(self).buf@ + "("@ + tr_pats(pre1)->Ok_0
                    + Seq::<char>::empty());
                lemma_prefix_cat(
                    old(self).buf@,
                    "("@ + tr_pats(pre1)->Ok_0 + Seq::<char>::empty(),
                );
                assert(old(self).buf@ + ("("@ + tr_pats(pre1)->Ok_0 + Seq::<char>::empty())
                    =~= self.buf@);
            }
            if i + 1 != n {
                self.push_str(", ");
                proof {
                    let pre1 = args@.subrange(0, i as int + 1);
                    assert(self.buf@ =~= old(self).buf@ + "("@ + tr_pats(pre1)->Ok_0 + ", "@);
                    lemma_prefix_cat(old(self).buf@, "("@ + tr_pats(pre1)->Ok_0 + ", "@);
                    assert(old(self).buf@ + ("("@ + tr_pats(pre1)->Ok_0 + ", "@) =~= self.buf@);
                }
            }
            i = i + 1;
        }
        self.push_str(")");
        proof {
            assert(args@.subrange(0, n as int) =~= args@);
            assert(self.buf@ =~= old(self).buf@ + (("("@ + tr_pats(args@)->Ok_0) + ")"@));
        }
        Ok(())
    }

    /// Emits a parenthesized, comma-space-separated argument list.
    pub fn tuple(&mut self, args: &Vec<Expr>) -> (r: Result<(), Error>)
        requires
            old(self).curr_indent + depth_exprs(args@) <= usize::MAX,
        ensures
            final(self).curr_indent == old(self).curr_indent,
            emits(
                old(self).buf@,
                final(self).buf@,
                r,
                cat(
                    cat(Ok("("@), tr_exprs(args@, old(self).curr_indent as nat)),
                    Ok(")"@),
                ),
            ),
        decreases args@, 0nat,
    {
        let ghost d = old(self).curr_indent as nat;
        self.push_str("(");
        let n = args.len();
        let mut i: usize = 0;
        proof {
            assert(old(self).buf@ + "("@ =~= old(self).buf@ + "("@ + tr_exprs(
                args@.subrange(0, 0),
                d,
            )->Ok_0 + Seq::<char>::empty());
            lemma_prefix_cat(old(self).buf@, "("@);
        }
        while i < n
            invariant
                n == args@.len(),
                i <= n,
                self.curr_indent == old(self).curr_indent,
                old(self).curr_indent + depth_exprs(args@) <= usize::MAX,
                d == old(self).curr_indent as nat,
                tr_exprs(args@.subrange(0, i as int), d) is Ok,
                self.buf@ == old(self).buf@ + "("@ + tr_exprs(
                    args@.subrange(0, i as int),
                    d,
                )->Ok_0 + (if 0 < i && i < n {
                    ", "@
                } else {
                    Seq::<char>::empty()
                }),
                old(self).buf@.is_prefix_of(self.buf@),
            decreases n - i,
        {
            let ghost buf0 = self.buf@;
            proof {
                lemma_depth_exprs_elem(args@, i as int);
            }
            match self.expr(&args[i]) {
                Err(e) => {
                    proof {
                        lemma_tr_exprs_err(args@, d, i as int);
                        lemma_prefix_trans(old(self).buf@, buf0, self.buf@);
                    }
                    return Err(e);
                },
                Ok(()) => {},
            }
            proof {
                let pre = args@.subrange(0, i as int);
                let pre1 = args@.subrange(0, i as int + 1);
                assert(pre1.subrange(0, pre1.len() - 1) =~= pre);
                assert(pre1[pre1.len() - 1] == args@[i as int]);
                assert(tr_exprs(pre1, d) is Ok);
                assert(tr_exprs(pre1, d)->Ok_0 =~= tr_exprs(pre, d)->Ok_0 + (if 0 < i {
                    ", "@
                } else {
                    Seq::<char>::empty()
                }) + tr_expr(args@[i as int], d)->Ok_0);
                assert(self.buf@ =~= old(self).buf@ + "("@ + tr_exprs(pre1, d)->Ok_0
                    + Seq::<char>::empty());
                lemma_prefix_cat(
                    old(self).buf@,
                    "("@ + tr_exprs(pre1, d)->Ok_0 + Seq::<char>::empty(),
                );
                assert(old(self).buf@ + ("("@ + tr_exprs(pre1, d)->Ok_0 + Seq::<char>::empty())
                    =~= self.buf@);
            }
            if i + 1 != n {
                self.push_str(", ");
                proof {
                    let pre1 = args@.subrange(0, i as int + 1);
                    assert(self.buf@ =~= old(self).buf@ + "("@ + tr_exprs(pre1, d)->Ok_0 + ", "@);
                    lemma_prefix_cat(old(self).buf@, "("@ + tr_exprs(pre1, d)->Ok_0 + ", "@);
                    assert(old(self).buf@ + ("("@ + tr_exprs(pre1, d)->Ok_0 + ", "@)
                        =~= self.buf@);
                }
            }
            i = i + 1;
        }
        self.push_str(")");
        proof {
            assert(args@.subrange(0, n as int) =~= args@);
            assert(self.buf@ =~= old(self).buf@ + (("("@ + tr_exprs(args@, d)->Ok_0) + ")"@));
        }
        Ok(())
    }

    /// Emits every statement of a block, one nesting level deeper than the
    /// enclosing line; the depth counter is restored afterwards, on success
    /// and on rejection alike.
    pub fn block(&mut self, block: &Block) -> (r: Result<(), Error>)
        requires
            old(self).curr_indent + 1 + depth_stmts(block.stmts@) <= usize::MAX,
        ensures
            final(self).curr_indent == old(self).curr_indent,
            emits(
                old(self).buf@,
                final(self).buf@,
                r,
                tr_stmts(block.stmts@, (old(self).curr_indent + 1) as nat),
            ),
        decreases *block, 0nat,
    {
        self.curr_indent = self.curr_indent + 1;
        let ghost d = self.curr_indent as nat;
        let n = block.stmts.len();
        let mut i: usize = 0;
        proof {
            assert(old(self).buf@ + tr_stmts(block.stmts@.subrange(0, 0), d)->Ok_0 =~= old(
                self,
            ).buf@);
        }
        while i < n
            invariant
                n == block.stmts@.len(),
                i <= n,
                self.curr_indent == old(self).curr_indent + 1,
                old(self).curr_indent + 1 + depth_stmts(block.stmts@) <= usize::MAX,
                d == (old(self).curr_indent + 1) as nat,
                tr_stmts(block.stmts@.subrange(0, i as int), d) is Ok,
                self.buf@ == old(self).buf@ + tr_stmts(block.stmts@.subrange(0, i as int), d)->Ok_0,
                old(self).buf@.is_prefix_of(self.buf@),
            decreases n - i,
        {
            let ghost buf0 = self.buf@;
            proof {
                lemma_depth_stmts_elem(block.stmts@, i as int);
            }
            match self.stmt(&block.stmts[i]) {
                Err(e) => {
                    self.curr_indent = self.curr_indent - 1;
                    proof {
                        lemma_tr_stmts_err(block.stmts@, d, i as int);
                        lemma_prefix_trans(old(self).buf@, buf0, self.buf@);
                    }
                    return Err(e);
                },
                Ok(()) => {},
            }
            proof {
                let pre = block.stmts@.subrange(0, i as int);
                let pre1 = block.stmts@.subrange(0, i as int + 1);
                assert(pre1.subrange(0, pre1.len() - 1) =~= pre);
                assert(pre1[pre1.len() - 1] == block.stmts@[i as int]);
                assert(tr_stmts(pre1, d) is Ok);
                assert(self.buf@ =~= old(self).buf@ + tr_stmts(pre1, d)->Ok_0);
                lemma_prefix_cat(old(self).buf@, tr_stmts(pre1, d)->Ok_0);
            }
            i = i + 1;
        }
        self.curr_indent = self.curr_indent - 1;
        proof {
            assert(block.stmts@.subrange(0, n as int) =~= block.stmts@);
        }
        Ok(())
    }

    /// Emits a binary operator application: left operand, spaced operator
    /// symbol, right operand.
    pub fn op(&mut self, op: &BinOp, lhs: &Expr, rhs: &Expr) -> (r: Result<(), Error>)
        requires
            old(self).curr_indent + depth_expr(*lhs) <= usize::MAX,
            old(self).curr_indent + depth_expr(*rhs) <= usize::MAX,
        ensures
            final(self).curr_indent == old(self).curr_indent,
            emits(
                old(self).buf@,
                final(self).buf@,
                r,
                cat(
                    cat(
                        tr_expr(*lhs, old(self).curr_indent as nat),
                        Ok(" "@ + sym(*op) + " "@),
                    ),
                    tr_expr(*rhs, old(self).curr_indent as nat),
                ),
            ),
    {
        let ghost d = old(self).curr_indent as nat;
        match self.expr(lhs) {
            Err(e) => {
                return Err(e);
            },
            Ok(()) => {},
        }
        let ghost buf1 = self.buf@;
        self.push_str(" ");
        self.push_str(op_sym(op));
        self.push_str(" ");
        let ghost buf2 = self.buf@;
        proof {
            assert(buf2 =~= old(self).buf@ + (tr_expr(*lhs, d)->Ok_0 + (" "@ + sym(*op) + " "@)));
            lemma_prefix_cat(old(self).buf@, tr_expr(*lhs, d)->Ok_0 + (" "@ + sym(*op) + " "@));
        }
        match self.expr(rhs) {
            Err(e) => {
                proof {
                    lemma_prefix_trans(old(self).buf@, buf2, self.buf@);
                }
                return Err(e);
            },
            Ok(()) => {},
        }
        proof {
            assert(self.buf@ =~= old(self).buf@ + ((tr_expr(*lhs, d)->Ok_0 + (" "@ + sym(*op)
                + " "@)) + tr_expr(*rhs, d)->Ok_0));
        }
        Ok(())
    }

    /// Emits one expression; rejects every expression kind the target
    /// mapping does not cover.
    pub fn expr(&mut self, expr: &Expr) -> (r: Result<(), Error>)
        requires
            old(self).curr_indent + depth_expr(*expr) <= usize::MAX,
        ensures
            final(self).curr_indent == old(self).curr_indent,
            emits(
                old(self).buf@,
                final(self).buf@,
                r,
                tr_expr(*expr, old(self).curr_indent as nat),
            ),
        decreases *expr, 1nat,
    {
        match expr {
            Expr::Lit(l) => self.literal(l),
            Expr::Path(p) => self.path(p),
            Expr::Call(_, _) => self.expr_apply(expr),
            Expr::Binary(_, _, _) => self.expr_apply(expr),
            Expr::Assign(_, _) => self.expr_apply(expr),
            Expr::AssignOp(_, _, _) => self.expr_apply(expr),
            Expr::Ret(_) => self.expr_flow(expr),
            Expr::Loop(_) => self.expr_flow(expr),
            Expr::If(_, _) => self.expr_flow(expr),
            Expr::Break(_) => self.expr_flow(expr),
            Expr::Unsupported(_) => Err(Error::UnsupportedExpr),
        }
    }

    /// Emits a call, a binary operation, an assignment, or a compound
    /// assignment; a compound assignment is desugared into a plain
    /// assignment whose value re-states the target, the operator, and the
    /// value.
    #[verifier::rlimit(80)]
    #[verifier::spinoff_prover]
    fn expr_apply(&mut self, expr: &Expr) -> (r: Result<(), Error>)
        requires
            (*expr) is Call || (*expr) is Binary || (*expr) is Assign || (*expr) is AssignOp,
            old(self).curr_indent + depth_expr(*expr) <= usize::MAX,
        ensures
            final(self).curr_indent == old(self).curr_indent,
            emits(
                old(self).buf@,
                final(self).buf@,
                r,
                tr_expr(*expr, old(self).curr_indent as nat),
            ),
        decreases *expr, 0nat,
    {
        let ghost d = old(self).curr_indent as nat;
        match expr {
            Expr::Call(f, args) => {
                match self.expr(&**f) {
                    Err(e) => {
                        return Err(e);
                    },
                    Ok(()) => {},
                }
                let ghost buf1 = self.buf@;
                match self.tuple(args) {
                    Err(e) => {
                        proof {
                            lemma_prefix_cat(old(self).buf@, tr_expr(**f, d)->Ok_0);
                            lemma_prefix_trans(old(self).buf@, buf1, self.buf@);
                        }
                        return Err(e);
                    },
                    Ok(()) => {},
                }
                proof {
                    assert(self.buf@ =~= old(self).buf@ + (tr_expr(**f, d)->Ok_0 + (("("@
                        + tr_exprs(args@, d)->Ok_0) + ")"@)));
                }
                Ok(())
            },
            Expr::Binary(op, lhs, rhs) => {
                match self.expr(&**lhs) {
                    Err(e) => {
                        return Err(e);
                    },
                    Ok(()) => {},
                }
                self.push_str(" ");
                self.push_str(op_sym(op));
                self.push_str(" ");
                let ghost buf2 = self.buf@;
                proof {
                    assert(buf2 =~= old(self).buf@ + (tr_expr(**lhs, d)->Ok_0 + (" "@ + sym(*op)
                        + " "@)));
                    lemma_prefix_cat(
                        old(self).buf@,
                        tr_expr(**lhs, d)->Ok_0 + (" "@ + sym(*op) + " "@),
                    );
                }
                match self.expr(&**rhs) {
                    Err(e) => {
                        proof {
                            lemma_prefix_trans(old(self).buf@, buf2, self.buf@);
                        }
                        return Err(e);
                    },
                    Ok(()) => {},
                }
                proof {
                    assert(self.buf@ =~= old(self).buf@ + ((tr_expr(**lhs, d)->Ok_0 + (" "@ + sym(
                        *op,
                    ) + " "@)) + tr_expr(**rhs, d)->Ok_0));
                }
                Ok(())
            },
            Expr::Assign(lhs, rhs) => {
                match self.expr(&**lhs) {
                    Err(e) => {
                        return Err(e);
                    },
                    Ok(()) => {},
                }
                self.push_str(" = ");
                let ghost buf2 = self.buf@;
                proof {
                    assert(buf2 =~= old(self).buf@ + (tr_expr(**lhs, d)->Ok_0 + " = "@));
                    lemma_prefix_cat(old(self).buf@, tr_expr(**lhs, d)->Ok_0 + " = "@);
                }
                match self.expr(&**rhs) {
                    Err(e) => {
                        proof {
                            lemma_prefix_trans(old(self).buf@, buf2, self.buf@);
                        }
                        return Err(e);
                    },
                    Ok(()) => {},
                }
                proof {
                    assert(self.buf@ =~= old(self).buf@ + ((tr_expr(**lhs, d)->Ok_0 + " = "@)
                        + tr_expr(**rhs, d)->Ok_0));
                }
                Ok(())
            },
            Expr::AssignOp(op, lhs, rhs) => {
                match self.expr(&**lhs) {
                    Err(e) => {
                        return Err(e);
                    },
                    Ok(()) => {},
                }
                self.push_str(" = ");
                let ghost buf2 = self.buf@;
                proof {
                    assert(buf2 =~= old(self).buf@ + (tr_expr(**lhs, d)->Ok_0 + " = "@));
                    lemma_prefix_cat(old(self).buf@, tr_expr(**lhs, d)->Ok_0 + " = "@);
                }
                match self.expr(&**lhs) {
                    Err(e) => {
                        proof {
                            lemma_prefix_trans(old(self).buf@, buf2, self.buf@);
                        }
                        return Err(e);
                    },
                    Ok(()) => {},
                }
                self.push_str(" ");
                self.push_str(op_sym(op));
                self.push_str(" ");
                let ghost buf3 = self.buf@;
                proof {
                    assert(buf3 =~= old(self).buf@ + ((tr_expr(**lhs, d)->Ok_0 + " = "@) + (
                    tr_expr(**lhs, d)->Ok_0 + (" "@ + sym(*op) + " "@))));
                    lemma_prefix_cat(
                        old(self).buf@,
                        (tr_expr(**lhs, d)->Ok_0 + " = "@) + (tr_expr(**lhs, d)->Ok_0 + (" "@
                            + sym(*op) + " "@)),
                    );
                }
                match self.expr(&**rhs) {
                    Err(e) => {
                        proof {
                            lemma_prefix_trans(old(self).buf@, buf3, self.buf@);
                        }
                        return Err(e);
                    },
                    Ok(()) => {},
                }
                proof {
                    assert(self.buf@ =~= old(self).buf@ + ((tr_expr(**lhs, d)->Ok_0 + " = "@) + ((
                    tr_expr(**lhs, d)->Ok_0 + (" "@ + sym(*op) + " "@)) + tr_expr(
                        **rhs,
                        d,
                    )->Ok_0)));
                }
                Ok(())
            },
            _ => {
                proof {
                    assert(false);
                }
                Err(Error::UnsupportedExpr)
            },
        }
    }

    /// Emits a return, an infinite loop, a conditional, or a break; loop and
    /// conditional bodies are emitted one nesting level deeper and closed
    /// with `end` at the enclosing depth.
    #[verifier::rlimit(80)]
    #[verifier::spinoff_prover]
    fn expr_flow(&mut self, expr: &Expr) -> (r: Result<(), Error>)
        requires
            (*expr) is Ret || (*expr) is Loop || (*expr) is If || (*expr) is Break,
            old(self).curr_indent + depth_expr(*expr) <= usize::MAX,
        ensures
            final(self).curr_indent == old(self).curr_indent,
            emits(
                old(self).buf@,
                final(self).buf@,
                r,
                tr_expr(*expr, old(self).curr_indent as nat),
            ),
        decreases *expr, 0nat,
    {
        let ghost d = old(self).curr_indent as nat;
        match expr {
            Expr::Ret(v) => {
                match v {
                    Some(val) => {
                        self.push_str("return ");
                        let ghost buf1 = self.buf@;
                        proof {
                            lemma_prefix_cat(old(self).buf@, "return "@);
                        }
                        match self.expr(&**val) {
                            Err(e) => {
                                proof {
                                    lemma_prefix_trans(old(self).buf@, buf1, self.buf@);
                                }
                                return Err(e);
                            },
                            Ok(()) => {},
                        }
                        proof {
                            assert(self.buf@ =~= old(self).buf@ + ("return "@ + tr_expr(
                                **val,
                                d,
                            )->Ok_0));
                        }
                        Ok(())
                    },
                    None => {
                        self.push_str("return");
                        Ok(())
                    },
                }
            },
            Expr::Loop(body) => {
                self.push_str("while true do\n");
                let ghost buf1 = self.buf@;
                proof {
                    lemma_prefix_cat(old(self).buf@, "while true do\n"@);
                }
                match self.block(body) {
                    Err(e) => {
                        proof {
                            lemma_prefix_trans(old(self).buf@, buf1, self.buf@);
                        }
                        return Err(e);
                    },
                    Ok(()) => {},
                }
                self.end();
                proof {
                    assert(self.buf@ =~= old(self).buf@ + (("while true do\n"@ + tr_stmts(
                        body.stmts@,
                        d + 1,
                    )->Ok_0) + (ind(d) + "end"@)));
                }
                Ok(())
            },
            Expr::If(c, body) => {
                self.push_str("if ");
                let ghost buf1 = self.buf@;
                proof {
                    lemma_prefix_cat(old(self).buf@, "if "@);
                }
                match self.expr(&**c) {
                    Err(e) => {
                        proof {
                            lemma_prefix_trans(old(self).buf@, buf1, self.buf@);
                        }
                        return Err(e);
                    },
                    Ok(()) => {},
                }
                self.push_str(" then\n");
                let ghost buf2 = self.buf@;
                proof {
                    assert(buf2 =~= old(self).buf@ + ((("if "@ + tr_expr(**c, d)->Ok_0)
                        + " then\n"@)));
                    lemma_prefix_cat(old(self).buf@, ("if "@ + tr_expr(**c, d)->Ok_0) + " then\n"@);
                }
                match self.block(body) {
                    Err(e) => {
                        proof {
                            lemma_prefix_trans(old(self).buf@, buf2, self.buf@);
                        }
                        return Err(e);
                    },
                    Ok(()) => {},
                }
                self.end();
                proof {
                    assert(self.buf@ =~= old(self).buf@ + (((("if "@ + tr_expr(**c, d)->Ok_0)
                        + " then\n"@) + tr_stmts(body.stmts@, d + 1)->Ok_0) + (ind(d) + "end"@)));
                }
                Ok(())
            },
            Expr::Break(v) => {
                match v {
                    Some(val) => {
                        self.push_str("break ");
                        let ghost buf1 = self.buf@;
                        proof {
                            lemma_prefix_cat(old(self).buf@, "break "@);
                        }
                        match self.expr(&**val) {
                            Err(e) => {
                                proof {
                                    lemma_prefix_trans(old(self).buf@, buf1, self.buf@);
                                }
                                return Err(e);
                            },
                            Ok(()) => {},
                        }
                        proof {
                            assert(self.buf@ =~= old(self).buf@ + ("break "@ + tr_expr(
                                **val,
                                d,
                            )->Ok_0));
                        }
                        Ok(())
                    },
                    None => {
                        self.push_str("break");
                        Ok(())
                    },
                }
            },
            _ => {
                proof {
                    assert(false);
                }
                Err(Error::UnsupportedExpr)
            },
        }
    }

    /// Emits one statement: the indentation prefix, the statement's text,
    /// and a line terminator; rejects every statement kind the target
    /// mapping does not cover.
    #[verifier::rlimit(100)]
    #[verifier::spinoff_prover]
    pub fn stmt(&mut self, stmt: &Stmt) -> (r: Result<(), Error>)
        requires
            old(self).curr_indent + depth_stmt(*stmt) <= usize::MAX,
        ensures
            final(self).curr_indent == old(self).curr_indent,
            emits(
                old(self).buf@,
                final(self).buf@,
                r,
                tr_stmt(*stmt, old(self).curr_indent as nat),
            ),
        decreases *stmt, 0nat,
    {
        let ghost d = old(self).curr_indent as nat;
        self.indent();
        let ghost buf1 = self.buf@;
        proof {
            lemma_prefix_cat(old(self).buf@, ind(d));
        }
        match stmt {
            Stmt::Item(it) => {
                match self.item(&**it) {
                    Err(e) => {
                        proof {
                            lemma_prefix_trans(old(self).buf@, buf1, self.buf@);
                        }
                        return Err(e);
                    },
                    Ok(()) => {},
                }
                proof {
                    assert(self.buf@ + "\n"@ =~= old(self).buf@ + ((ind(d) + tr_item(
                        **it,
                        d,
                    )->Ok_0) + "\n"@));
                }
            },
            Stmt::Expr(e) => {
                match self.expr(&**e) {
                    Err(er) => {
                        proof {
                            lemma_prefix_trans(old(self).buf@, buf1, self.buf@);
                        }
                        return Err(er);
                    },
                    Ok(()) => {},
                }
                proof {
                    assert(self.buf@ + "\n"@ =~= old(self).buf@ + ((ind(d) + tr_expr(
                        **e,
                        d,
                    )->Ok_0) + "\n"@));
                }
            },
            Stmt::Semi(e) => {
                match self.expr(&**e) {
                    Err(er) => {
                        proof {
                            lemma_prefix_trans(old(self).buf@, buf1, self.buf@);
                        }
                        return Err(er);
                    },
                    Ok(()) => {},
                }
                proof {
                    assert(self.buf@ + "\n"@ =~= old(self).buf@ + ((ind(d) + tr_expr(
                        **e,
                        d,
                    )->Ok_0) + "\n"@));
                }
            },
            Stmt::Local(p, init) => {
                self.push_str("local ");
                let ghost buf2 = self.buf@;
                proof {
                    assert(buf2 =~= old(self).buf@ + (ind(d) + "local "@));
                    lemma_prefix_cat(old(self).buf@, ind(d) + "local "@);
                }
                match self.pat(p) {
                    Err(e) => {
                        proof {
                            lemma_prefix_trans(old(self).buf@, buf2, self.buf@);
                        }
                        return Err(e);
                    },
                    Ok(()) => {},
                }
                match init {
                    Some(einit) => {
                        self.push_str(" = ");
                        let ghost buf3 = self.buf@;
                        proof {
                            assert(buf3 =~= old(self).buf@ + (ind(d) + (("local "@ + tr_pat(
                                *p,
                            )->Ok_0) + " = "@)));
                            lemma_prefix_cat(
                                old(self).buf@,
                                ind(d) + (("local "@ + tr_pat(*p)->Ok_0) + " = "@),
                            );
                        }
                        match self.expr(&**einit) {
                            Err(e) => {
                                proof {
                                    lemma_prefix_trans(old(self).buf@, buf3, self.buf@);
                                }
                                return Err(e);
                            },
                            Ok(()) => {},
                        }
                        proof {
                            assert(self.buf@ + "\n"@ =~= old(self).buf@ + ((ind(d) + ((("local "@
                                + tr_pat(*p)->Ok_0) + " = "@) + tr_expr(**einit, d)->Ok_0))
                                + "\n"@));
                        }
                    },
                    None => {
                        proof {
                            assert(self.buf@ + "\n"@ =~= old(self).buf@ + ((ind(d) + ("local "@
                                + tr_pat(*p)->Ok_0)) + "\n"@));
                        }
                    },
                }
            },
            Stmt::Unsupported(_) => {
                return Err(Error::UnsupportedStmt);
            },
        }
        self.push_str("\n");
        Ok(())
    }

    /// Emits one item. Only function definitions are supported: header with
    /// parameter list, body one level deeper, closing `end`, and a blank
    /// separator line.
    pub fn item(&mut self, item: &Item) -> (r: Result<(), Error>)
        requires
            old(self).curr_indent + depth_item(*item) <= usize::MAX,
        ensures
            final(self).curr_indent == old(self).curr_indent,
            emits(
                old(self).buf@,
                final(self).buf@,
                r,
                tr_item(*item, old(self).curr_indent as nat),
            ),
        decreases *item, 0nat,
    {
        let ghost d = old(self).curr_indent as nat;
        match item {
            Item::Fn(name, params, body) => {
                self.push_str("function ");
                self.ident(name);
                let ghost buf1 = self.buf@;
                proof {
                    assert(buf1 =~= old(self).buf@ + ("function "@ + name@));
                    lemma_prefix_cat(old(self).buf@, "function "@ + name@);
                }
                match self.args(params) {
                    Err(e) => {
                        proof {
                            lemma_prefix_trans(old(self).buf@, buf1, self.buf@);
                        }
                        return Err(e);
                    },
                    Ok(()) => {},
                }
                self.push_str("\n");
                let ghost buf2 = self.buf@;
                proof {
                    assert(buf2 =~= old(self).buf@ + ((("function "@ + name@) + (("("@ + tr_pats(
                        params@,
                    )->Ok_0) + ")"@)) + "\n"@));
                    lemma_prefix_cat(
                        old(self).buf@,
                        (("function "@ + name@) + (("("@ + tr_pats(params@)->Ok_0) + ")"@))
                            + "\n"@,
                    );
                }
                match self.block(body) {
                    Err(e) => {
                        proof {
                            lemma_prefix_trans(old(self).buf@, buf2, self.buf@);
                        }
                        return Err(e);
                    },
                    Ok(()) => {},
                }
                self.end();
                self.push_str("\n\n");
                proof {
                    assert(self.buf@ =~= old(self).buf@ + ((((("function "@ + name@) + (("("@
                        + tr_pats(params@)->Ok_0) + ")"@)) + "\n"@) + tr_stmts(
                        body.stmts@,
                        d + 1,
                    )->Ok_0) + ((ind(d) + "end"@) + "\n\n"@)));
                }
                Ok(())
            },
            Item::Unsupported(_) => Err(Error::UnsupportedItem),
        }
    }

    /// Translates a whole module: every item, exactly once, in declaration
    /// order.
    pub fn module(&mut self, module: &Module) -> (r: Result<(), Error>)
        requires
            old(self).curr_indent + depth_items(module.items@) <= usize::MAX,
        ensures
            final(self).curr_indent == old(self).curr_indent,
            emits(
                old(self).buf@,
                final(self).buf@,
                r,
                tr_items(module.items@, old(self).curr_indent as nat),
            ),
    {
        let ghost d = old(self).curr_indent as nat;
        let n = module.items.len();
        let mut i: usize = 0;
        proof {
            assert(old(self).buf@ + tr_items(module.items@.subrange(0, 0), d)->Ok_0 =~= old(
                self,
            ).buf@);
        }
        while i < n
            invariant
                n == module.items@.len(),
                i <= n,
                self.curr_indent == old(self).curr_indent,
                old(self).curr_indent + depth_items(module.items@) <= usize::MAX,
                d == old(self).curr_indent as nat,
                tr_items(module.items@.subrange(0, i as int), d) is Ok,
                self.buf@ == old(self).buf@ + tr_items(module.items@.subrange(0, i as int), d)->Ok_0,
                old(self).buf@.is_prefix_of(self.buf@),
            decreases n - i,
        {
            let ghost buf0 = self.buf@;
            proof {
                lemma_depth_items_elem(module.items@, i as int);
            }
            match self.item(&module.items[i]) {
                Err(e) => {
                    proof {
                        lemma_tr_items_err(module.items@, d, i as int);
                        lemma_prefix_trans(old(self).buf@, buf0, self.buf@);
                    }
                    return Err(e);
                },
                Ok(()) => {},
            }
            proof {
                let pre = module.items@.subrange(0, i as int);
                let pre1 = module.items@.subrange(0, i as int + 1);
                assert(pre1.subrange(0, pre1.len() - 1) =~= pre);
                assert(pre1[pre1.len() - 1] == module.items@[i as int]);
                assert(tr_items(pre1, d) is Ok);
                assert(self.buf@ =~= old(self).buf@ + tr_items(pre1, d)->Ok_0);
                lemma_prefix_cat(old(self).buf@, tr_items(pre1, d)->Ok_0);
            }
            i = i + 1;
        }
        proof {
            assert(module.items@.subrange(0, n as int) =~= module.items@);
        }
        Ok(())
    }
}

/// What the one-call translator returns for a module: the model's full text
/// exactly when the model accepts the tree, the model's rejection error
/// exactly when it does not.
pub open spec fn translates_to(m: Module, r: Result<String, Error>) -> bool {
    match r {
        Ok(s) => tr_module(m) is Ok && s@ == tr_module(m)->Ok_0,
        Err(e) => tr_module(m) == Err::<Seq<char>, Error>(e),
    }
}

/// Translates a module in one call: the full output text on success, the
/// rejection error otherwise, and no partial text either way.
pub fn translate(module: &Module) -> (r: Result<String, Error>)
    requires
        depth_module(*module) <= usize::MAX,
    ensures
        translates_to(*module, r),
{
    let mut g = Generator::new();
    match g.module(module) {
        Ok(()) => {
            proof {
                assert(g.buf@ =~= tr_module(*module)->Ok_0);
            }
            Ok(g.buf)
        },
        Err(e) => Err(e),
    }
}

} // verus!
