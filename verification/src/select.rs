//! The statement node: one source, one filter, one projection.

use vstd::prelude::*;
use crate::expr::Expr;
use crate::expr::ExprView;
use crate::expr::lemma_views_of_push;
use crate::expr::views_of;
use crate::returning::Returning;
use crate::source::Path;
use crate::source::Source;
use crate::source::SourceModelView;
use crate::source::SourceView;
use crate::substitute::Input;
use crate::substitute::SubstituteError;
use crate::substitute::mentions_ref;
use crate::substitute::resolvable;
use crate::substitute::subst_view;

verus! {

/// Mathematical model of a statement.
#[verifier::ext_equal]
pub struct SelectView {
    pub source: SourceView,
    pub filter: ExprView,
    pub returning: Returning,
}

/// A SELECT-style statement: where rows come from (`source`), which rows
/// qualify (`filter`), and what is yielded for each (`returning`). The
/// statement exclusively owns all three; the filter is always a well-formed
/// expression, never a missing sentinel.
#[derive(Debug, PartialEq)]
pub struct Select {
    pub source: Source,
    pub filter: Expr,
    pub returning: Returning,
}

impl View for Select {
    type V = SelectView;

    open spec fn view(&self) -> SelectView {
        SelectView { source: self.source@, filter: self.filter@, returning: self.returning }
    }
}

/// What `and` does to the current filter: append the new operand to a filter
/// that is already a top-level conjunction; otherwise wrap the old filter and
/// the new operand in a fresh two-operand conjunction.
pub open spec fn and_view(f: ExprView, e: ExprView) -> ExprView {
    match f {
        ExprView::And(ops) => ExprView::And(ops.push(e)),
        _ => ExprView::And(seq![f, e]),
    }
}

/// What `or` does to the current filter, symmetric to [`and_view`].
pub open spec fn or_view(f: ExprView, e: ExprView) -> ExprView {
    match f {
        ExprView::Or(ops) => ExprView::Or(ops.push(e)),
        _ => ExprView::Or(seq![f, e]),
    }
}

/// What adding a relation path does to a source: the path is appended to the
/// model-level path list, keeping call order.
pub open spec fn with_path(s: SourceView, p: Path) -> SourceView {
    match s {
        SourceView::Model(m) => SourceView::Model(
            SourceModelView { model: m.model, includes: m.includes.push(p) },
        ),
    }
}

/// Conjunction flattens instead of nesting: two `and` calls on a statement
/// whose filter is not yet a conjunction leave one shallow `And` node with
/// the old filter and both operands, in call order.
pub proof fn lemma_and_flattens(f: ExprView, e1: ExprView, e2: ExprView)
    requires
        !(f is And),
    ensures
        and_view(and_view(f, e1), e2) == ExprView::And(seq![f, e1, e2]),
{
    assert(seq![f, e1].push(e2) =~= seq![f, e1, e2]);
}

/// Disjunction flattens the same way: two `or` calls on a statement whose
/// filter is not yet a disjunction leave one shallow `Or` node.
pub proof fn lemma_or_flattens(f: ExprView, e1: ExprView, e2: ExprView)
    requires
        !(f is Or),
    ensures
        or_view(or_view(f, e1), e2) == ExprView::Or(seq![f, e1, e2]),
{
    assert(seq![f, e1].push(e2) =~= seq![f, e1, e2]);
}

/// Switching operator kind always wraps, never flattens: `and(e1)` followed
/// immediately by `or(e2)` nests the fresh conjunction inside a new
/// two-operand disjunction.
pub proof fn lemma_operator_switch_wraps(f: ExprView, e1: ExprView, e2: ExprView)
    requires
        !(f is And),
    ensures
        or_view(and_view(f, e1), e2) == ExprView::Or(
            seq![ExprView::And(seq![f, e1]), e2],
        ),
{
}

/// Relation paths accumulate in call order: adding `p1` then `p2` appends
/// them, in that order, to the model-level path list.
pub proof fn lemma_with_path_order(s: SourceView, p1: Path, p2: Path)
    ensures
        with_path(with_path(s, p1), p2) == (match s {
            SourceView::Model(m) => SourceView::Model(
                SourceModelView { model: m.model, includes: m.includes.push(p1).push(p2) },
            ),
        }),
{
}

impl Select {
    /// A fresh statement over `source` filtered by `filter`, yielding all
    /// columns: `returning` defaults to `Star`. No error conditions; both
    /// inputs are owned unconditionally.
    pub fn new(source: Source, filter: Expr) -> (r: Select)
        ensures
            r@ == (SelectView { source: source@, filter: filter@, returning: Returning::Star }),
    {
        let r = Select { source, filter, returning: Returning::Star };
        proof {
            assert(r@ =~~= SelectView {
                source: source@,
                filter: filter@,
                returning: Returning::Star,
            });
        }
        r
    }

    /// Appends `path` to the source's relation paths, in call order. Sources
    /// without a notion of relation paths are an extension point of lower
    /// layers: this layer defines the model-level variant alone, so the
    /// operation is total by construction — a deliberate type-level
    /// restriction rather than a silent no-op or a reported failure.
    pub fn includes(&mut self, path: Path)
        ensures
            final(self)@.source == with_path(old(self)@.source, path),
            final(self)@.filter == old(self)@.filter,
            final(self)@.returning == old(self)@.returning,
    {
        match &mut self.source {
            Source::Model(m) => {
                m.includes.push(path);
            }
        }
    }

    /// Conjoins `expr` with the current filter. A filter that is already a
    /// top-level `And` gains `expr` as one more operand (flattening: one
    /// shallow node with many operands, not a nested chain); any other filter
    /// is moved out and replaced by `And([old_filter, expr])`. The statement
    /// is never left filter-less.
    pub fn and(&mut self, expr: Expr)
        ensures
            final(self)@.filter == and_view(old(self)@.filter, expr@),
            final(self)@.source == old(self)@.source,
            final(self)@.returning == old(self)@.returning,
    {
        let ghost ev = expr@;
        if let Expr::And(a) = &mut self.filter {
            let ghost old_ops = a.operands@;
            a.operands.push(expr);
            proof {
                lemma_views_of_push(old_ops, expr);
                assert(views_of(a.operands@) == views_of(old_ops).push(ev));
            }
        } else {
            let f = self.filter.take();
            let ghost fv = f@;
            self.filter = Expr::and(f, expr);
            proof {
                assert(!(fv is And));
                assert(and_view(fv, ev) == ExprView::And(seq![fv, ev]));
            }
        }
    }

    /// Disjoins `expr` with the current filter, symmetric to [`Select::and`]:
    /// a top-level `Or` gains one more operand; any other filter — including
    /// a top-level `And` — is wrapped in `Or([old_filter, expr])`. The two
    /// combinators never flatten across operator kinds.
    pub fn or(&mut self, expr: Expr)
        ensures
            final(self)@.filter == or_view(old(self)@.filter, expr@),
            final(self)@.source == old(self)@.source,
            final(self)@.returning == old(self)@.returning,
    {
        let ghost ev = expr@;
        if let Expr::Or(o) = &mut self.filter {
            let ghost old_ops = o.operands@;
            o.operands.push(expr);
            proof {
                lemma_views_of_push(old_ops, expr);
                assert(views_of(o.operands@) == views_of(old_ops).push(ev));
            }
        } else {
            let f = self.filter.take();
            let ghost fv = f@;
            self.filter = Expr::or(f, expr);
            proof {
                assert(!(fv is Or));
                assert(or_view(fv, ev) == ExprView::Or(seq![fv, ev]));
            }
        }
    }

    /// Rewrites every reference leaf of the filter through `input`,
    /// recursively; the source and the projection are untouched. Succeeds
    /// exactly when every reference key of the filter is inside `input`'s
    /// mapping; on an unresolved key the whole statement is left exactly as
    /// it was and the key is reported.
    pub fn substitute_ref<I: Input>(&mut self, input: &I) -> (out: Result<(), SubstituteError>)
        ensures
            final(self)@.source == old(self)@.source,
            final(self)@.returning == old(self)@.returning,
            match out {
                Result::Ok(u) => resolvable(old(self)@.filter, input.resolution())
                    && final(self)@.filter == subst_view(old(self)@.filter, input.resolution()),
                Result::Err(err) => !resolvable(old(self)@.filter, input.resolution())
                    && *final(self) == *old(self) && match err {
                    SubstituteError::UnresolvedReference { key } => mentions_ref(
                        old(self)@.filter,
                        key,
                    ) && !input.resolution().contains_key(key),
                },
            },
    {
        self.filter.substitute_ref(input)
    }
}

} // verus!
