//! The filter expression tree and its combinator constructors.

use vstd::prelude::*;

verus! {

/// Mathematical model of a filter expression. `And`/`Or` carry the ordered
/// sequence of operand models; leaves carry their plain values.
#[verifier::ext_equal]
pub enum ExprView {
    And(Seq<ExprView>),
    Or(Seq<ExprView>),
    Bool(bool),
    Ref(u64),
    Value(u64),
}

/// A conjunction node: operands joined by AND, in order. Fewer than two
/// operands is a degenerate but legal transient state; consumers must not
/// assume a minimum arity.
#[derive(Debug, PartialEq)]
pub struct ExprAnd {
    pub operands: Vec<Expr>,
}

/// A disjunction node: operands joined by OR, in order.
#[derive(Debug, PartialEq)]
pub struct ExprOr {
    pub operands: Vec<Expr>,
}

/// A placeholder reference inside a filter, identified by a key. Substitution
/// replaces it with the concrete expression the key stands for.
#[derive(Debug, PartialEq)]
pub struct ExprRef {
    pub key: u64,
}

/// A filter expression: a strict ownership tree. `And`/`Or` are the
/// structural variants; `Bool` is a boolean literal; `Ref` is a placeholder
/// resolved by substitution; `Value` stands for the open leaf grammar
/// (comparisons, literals, column references) owned by lower layers.
#[derive(Debug, PartialEq)]
pub enum Expr {
    And(ExprAnd),
    Or(ExprOr),
    Bool(bool),
    Ref(ExprRef),
    Value(u64),
}

/// The models of the expressions of `s`, in order.
pub open spec fn views_of(s: Seq<Expr>) -> Seq<ExprView>
    decreases s,
{
    if s.len() == 0 {
        Seq::empty()
    } else {
        views_of(s.drop_last()).push(s.last()@)
    }
}

impl View for Expr {
    type V = ExprView;

    open spec fn view(&self) -> ExprView
        decreases self,
    {
        match self {
            Expr::And(a) => ExprView::And(views_of(a.operands@)),
            Expr::Or(o) => ExprView::Or(views_of(o.operands@)),
            Expr::Bool(b) => ExprView::Bool(*b),
            Expr::Ref(r) => ExprView::Ref(r.key),
            Expr::Value(v) => ExprView::Value(*v),
        }
    }
}

/// `views_of` maps the sequence pointwise.
pub broadcast proof fn lemma_views_of(s: Seq<Expr>)
    ensures
        (#[trigger] views_of(s)).len() == s.len(),
        forall|i: int| 0 <= i < s.len() ==> #[trigger] views_of(s)[i] == s[i]@,
    decreases s.len(),
{
    if s.len() == 0 {
        assert(views_of(s) =~= Seq::<ExprView>::empty());
    } else {
        lemma_views_of(s.drop_last());
        assert(views_of(s) == views_of(s.drop_last()).push(s.last()@));
        assert forall|i: int| 0 <= i < s.len() implies #[trigger] views_of(s)[i] == s[i]@ by {
            if i < s.len() - 1 {
                assert(s.drop_last()[i] == s[i]);
            } else {
                assert(s.last() == s[i]);
            }
        }
    }
}

/// Appending an expression appends its model.
pub proof fn lemma_views_of_push(s: Seq<Expr>, x: Expr)
    ensures
        views_of(s.push(x)) == views_of(s).push(x@),
{
    assert(s.push(x).drop_last() =~= s);
    assert(s.push(x).last() == x);
}

impl Expr {
    /// A conjunction of exactly `[lhs, rhs]`, in that order.
    pub fn and(lhs: Expr, rhs: Expr) -> (r: Expr)
        ensures
            r@ == ExprView::And(seq![lhs@, rhs@]),
    {
        let ghost lv = lhs@;
        let ghost rv = rhs@;
        let mut operands: Vec<Expr> = Vec::new();
        operands.push(lhs);
        operands.push(rhs);
        let ghost ops = operands@;
        let r = Expr::And(ExprAnd { operands });
        proof {
            lemma_views_of(ops);
            assert(views_of(ops) =~= seq![lv, rv]);
            assert(r@ =~~= ExprView::And(seq![lv, rv]));
        }
        r
    }

    /// A disjunction of exactly `[lhs, rhs]`, in that order.
    pub fn or(lhs: Expr, rhs: Expr) -> (r: Expr)
        ensures
            r@ == ExprView::Or(seq![lhs@, rhs@]),
    {
        let ghost lv = lhs@;
        let ghost rv = rhs@;
        let mut operands: Vec<Expr> = Vec::new();
        operands.push(lhs);
        operands.push(rhs);
        let ghost ops = operands@;
        let r = Expr::Or(ExprOr { operands });
        proof {
            lemma_views_of(ops);
            assert(views_of(ops) =~= seq![lv, rv]);
            assert(r@ =~~= ExprView::Or(seq![lv, rv]));
        }
        r
    }

    /// Moves this expression out, leaving a benign always-true literal in its
    /// place so the owner is never left filter-less.
    pub fn take(&mut self) -> (r: Expr)
        ensures
            r == *old(self),
            final(self)@ == ExprView::Bool(true),
    {
        let mut sentinel = Expr::Bool(true);
        core::mem::swap(&mut sentinel, self);
        sentinel
    }

    /// Copies the expression tree; the copy models the same value.
    pub fn duplicate(&self) -> (r: Expr)
        ensures
            r@ == self@,
        decreases self,
    {
        match self {
            Expr::And(a) => {
                let operands = duplicate_all(&a.operands);
                let ghost ops = operands@;
                let r = Expr::And(ExprAnd { operands });
                proof {
                    lemma_views_of(ops);
                    lemma_views_of(a.operands@);
                    assert(views_of(ops) =~= views_of(a.operands@));
                    assert(r@ =~~= self@);
                }
                r
            }
            Expr::Or(o) => {
                let operands = duplicate_all(&o.operands);
                let ghost ops = operands@;
                let r = Expr::Or(ExprOr { operands });
                proof {
                    lemma_views_of(ops);
                    lemma_views_of(o.operands@);
                    assert(views_of(ops) =~= views_of(o.operands@));
                    assert(r@ =~~= self@);
                }
                r
            }
            Expr::Bool(b) => Expr::Bool(*b),
            Expr::Ref(r) => Expr::Ref(ExprRef { key: r.key }),
            Expr::Value(v) => Expr::Value(*v),
        }
    }
}

/// Copies every expression of `v`, in order.
fn duplicate_all(v: &Vec<Expr>) -> (r: Vec<Expr>)
    ensures
        r@.len() == v@.len(),
        forall|i: int| 0 <= i < v@.len() ==> r@[i]@ == v@[i]@,
    decreases v,
{
    let mut r: Vec<Expr> = Vec::new();
    let mut i: usize = 0;
    while i < v.len()
        invariant
            i <= v@.len(),
            r@.len() == i,
            forall|j: int| 0 <= j < i ==> r@[j]@ == v@[j]@,
        decreases v@.len() - i,
    {
        r.push(v[i].duplicate());
        i = i + 1;
    }
    r
}

} // verus!
