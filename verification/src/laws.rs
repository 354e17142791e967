//! Properties of the translation stated as theorems: determinism of the
//! whole run, and rejection of every construct outside the supported subset
//! with the error named for its syntactic category.

use crate::ast::{Error, Expr, Item, Lit, Module, Pat, Path, Stmt};
use crate::gen::translates_to;
use crate::trans::{tr_expr, tr_item, tr_lit, tr_module, tr_pat, tr_path, tr_stmt};
use vstd::prelude::*;

verus! {

/// Translating the same input tree twice yields byte-identical output: any
/// two results that meet the translator's contract agree on acceptance, on
/// every character of the text, and on the error.
pub proof fn lemma_translation_deterministic(
    m: Module,
    r1: Result<String, Error>,
    r2: Result<String, Error>,
)
    requires
        translates_to(m, r1),
        translates_to(m, r2),
    ensures
        r1 is Ok <==> r2 is Ok,
        r1 matches Ok(s1) ==> r2 matches Ok(s2) && s1@ == s2@,
        r1 matches Err(e1) ==> r2 matches Err(e2) && e1 == e2,
{
}

/// An item of any kind other than a function definition is rejected with
/// the unsupported-item error, at every depth.
pub proof fn lemma_rejects_unsupported_item(detail: String, d: nat)
    ensures
        tr_item(Item::Unsupported(detail), d) == Err::<Seq<char>, Error>(Error::UnsupportedItem),
{
}

/// A statement of any kind other than the supported four is rejected with
/// the unsupported-statement error, at every depth.
pub proof fn lemma_rejects_unsupported_stmt(detail: String, d: nat)
    ensures
        tr_stmt(Stmt::Unsupported(detail), d) == Err::<Seq<char>, Error>(Error::UnsupportedStmt),
{
}

/// An expression of any kind outside the supported set is rejected with the
/// unsupported-expression error, at every depth.
pub proof fn lemma_rejects_unsupported_expr(detail: String, d: nat)
    ensures
        tr_expr(Expr::Unsupported(detail), d) == Err::<Seq<char>, Error>(Error::UnsupportedExpr),
{
}

/// A literal other than a string or an integer is rejected with the
/// unsupported-literal error.
pub proof fn lemma_rejects_unsupported_lit(detail: String)
    ensures
        tr_lit(Lit::Unsupported(detail)) == Err::<Seq<char>, Error>(Error::UnsupportedLit),
{
}

/// A pattern that does not reduce to a single identifier is rejected with
/// the unsupported-pattern error.
pub proof fn lemma_rejects_unsupported_pat(detail: String)
    ensures
        tr_pat(Pat::Unsupported(detail)) == Err::<Seq<char>, Error>(Error::UnsupportedPat),
{
}

/// A qualified name is rejected with the unsupported-path error exactly
/// when it does not have one single segment.
pub proof fn lemma_rejects_unsupported_path(p: Path)
    ensures
        tr_path(p) is Err <==> p.segments@.len() != 1,
        p.segments@.len() != 1 ==> tr_path(p) == Err::<Seq<char>, Error>(Error::UnsupportedPath),
{
}

/// A rejected tree produces no text at all: whenever the model rejects a
/// module, every result the translator may return is the bare error.
pub proof fn lemma_no_partial_output(m: Module, r: Result<String, Error>)
    requires
        translates_to(m, r),
        tr_module(m) is Err,
    ensures
        r == Err::<String, Error>(tr_module(m)->Err_0),
{
}

} // verus!
