//! Resolving placeholder references inside a filter.
//!
//! An [`Input`] collaborator says which concrete expression each reference
//! key stands for; the substitution pass rewrites every `Ref` leaf through
//! it, leaves every other leaf and the `And`/`Or` structure untouched, and
//! surfaces an [`SubstituteError::UnresolvedReference`] instead of silently
//! changing filter semantics when the collaborator cannot resolve a key.

use vstd::prelude::*;
use crate::expr::Expr;
use crate::expr::ExprAnd;
use crate::expr::ExprOr;
use crate::expr::ExprRef;
use crate::expr::ExprView;
use crate::expr::lemma_views_of;
use crate::expr::views_of;

verus! {

/// Why a substitution pass failed. Errors are reported to the immediate
/// caller; the tree is left exactly as it was.
#[derive(Clone, Copy, Debug, PartialEq, Eq, Structural)]
pub enum SubstituteError {
    /// The input collaborator had no expression for this reference key.
    UnresolvedReference { key: u64 },
}

/// A substitution source: resolves a reference key to the concrete
/// expression it stands for, or leaves it unresolved. `resolution` is the
/// abstract partial map an implementation answers from; `resolve_ref` must
/// answer exactly according to it.
pub trait Input {
    /// The key-to-expression mapping this collaborator implements.
    spec fn resolution(&self) -> Map<u64, ExprView>;

    /// The concrete expression `target` stands for, or `None` if the key is
    /// outside this collaborator's mapping.
    fn resolve_ref(&self, target: &ExprRef) -> (out: Option<Expr>)
        ensures
            match out {
                Option::Some(e) => self.resolution().contains_key(target.key)
                    && e@ == self.resolution()[target.key],
                Option::None => !self.resolution().contains_key(target.key),
            },
    ;
}

/// Every reference key of `e` is inside `m`'s domain: substitution through
/// `m` cannot fail.
pub open spec fn resolvable(e: ExprView, m: Map<u64, ExprView>) -> bool
    decreases e,
{
    match e {
        ExprView::And(ops) => forall|i: int|
            0 <= i < ops.len() ==> resolvable(#[trigger] ops[i], m),
        ExprView::Or(ops) => forall|i: int|
            0 <= i < ops.len() ==> resolvable(#[trigger] ops[i], m),
        ExprView::Bool(_) => true,
        ExprView::Ref(k) => m.contains_key(k),
        ExprView::Value(_) => true,
    }
}

/// `e` holds no reference leaf at all: it is fully resolved.
pub open spec fn resolved(e: ExprView) -> bool
    decreases e,
{
    match e {
        ExprView::And(ops) => forall|i: int|
            0 <= i < ops.len() ==> resolved(#[trigger] ops[i]),
        ExprView::Or(ops) => forall|i: int|
            0 <= i < ops.len() ==> resolved(#[trigger] ops[i]),
        ExprView::Bool(_) => true,
        ExprView::Ref(_) => false,
        ExprView::Value(_) => true,
    }
}

/// Some reference leaf of `e` carries key `k`.
pub open spec fn mentions_ref(e: ExprView, k: u64) -> bool
    decreases e,
{
    match e {
        ExprView::And(ops) => exists|i: int|
            0 <= i < ops.len() && mentions_ref(#[trigger] ops[i], k),
        ExprView::Or(ops) => exists|i: int|
            0 <= i < ops.len() && mentions_ref(#[trigger] ops[i], k),
        ExprView::Bool(_) => false,
        ExprView::Ref(r) => r == k,
        ExprView::Value(_) => false,
    }
}

/// What substitution through `m` produces: every `Ref` leaf whose key `m`
/// holds becomes `m`'s expression, every other leaf stays, and the
/// `And`/`Or` structure is kept node for node.
pub open spec fn subst_view(e: ExprView, m: Map<u64, ExprView>) -> ExprView
    decreases e,
{
    match e {
        ExprView::And(ops) => ExprView::And(subst_views(ops, m)),
        ExprView::Or(ops) => ExprView::Or(subst_views(ops, m)),
        ExprView::Bool(b) => ExprView::Bool(b),
        ExprView::Ref(k) => if m.contains_key(k) {
            m[k]
        } else {
            ExprView::Ref(k)
        },
        ExprView::Value(v) => ExprView::Value(v),
    }
}

/// Substitution applied to each expression of `s`, in order.
pub open spec fn subst_views(s: Seq<ExprView>, m: Map<u64, ExprView>) -> Seq<ExprView>
    decreases s,
{
    if s.len() == 0 {
        Seq::empty()
    } else {
        subst_views(s.drop_last(), m).push(subst_view(s.last(), m))
    }
}

/// `subst_views` maps the sequence pointwise.
pub proof fn lemma_subst_views(s: Seq<ExprView>, m: Map<u64, ExprView>)
    ensures
        subst_views(s, m).len() == s.len(),
        forall|i: int| 0 <= i < s.len() ==> #[trigger] subst_views(s, m)[i] == subst_view(s[i], m),
    decreases s.len(),
{
    if s.len() == 0 {
    } else {
        lemma_subst_views(s.drop_last(), m);
        assert forall|i: int| 0 <= i < s.len() implies #[trigger] subst_views(s, m)[i]
            == subst_view(s[i], m) by {
            if i < s.len() - 1 {
                assert(s.drop_last()[i] == s[i]);
            } else {
                assert(s.last() == s[i]);
            }
        }
    }
}

/// A fully resolved filter is a fixed point of substitution: a further pass,
/// through any input at all, returns it unchanged.
pub proof fn lemma_resolved_fixed_point(e: ExprView, m: Map<u64, ExprView>)
    requires
        resolved(e),
    ensures
        subst_view(e, m) == e,
    decreases e,
{
    match e {
        ExprView::And(ops) => {
            assert forall|i: int| 0 <= i < ops.len() implies subst_view(#[trigger] ops[i], m)
                == ops[i] by {
                lemma_resolved_fixed_point(ops[i], m);
            }
            lemma_subst_views(ops, m);
            assert(subst_views(ops, m) =~= ops);
        }
        ExprView::Or(ops) => {
            assert forall|i: int| 0 <= i < ops.len() implies subst_view(#[trigger] ops[i], m)
                == ops[i] by {
                lemma_resolved_fixed_point(ops[i], m);
            }
            lemma_subst_views(ops, m);
            assert(subst_views(ops, m) =~= ops);
        }
        _ => {}
    }
}

/// Substituting through an input whose expressions are themselves fully
/// resolved leaves no reference leaf behind.
pub proof fn lemma_subst_resolves(e: ExprView, m: Map<u64, ExprView>)
    requires
        resolvable(e, m),
        forall|k: u64| #[trigger] m.contains_key(k) ==> resolved(m[k]),
    ensures
        resolved(subst_view(e, m)),
    decreases e,
{
    match e {
        ExprView::And(ops) => {
            lemma_subst_views(ops, m);
            assert forall|i: int| 0 <= i < subst_views(ops, m).len() implies resolved(
                #[trigger] subst_views(ops, m)[i],
            ) by {
                lemma_subst_resolves(ops[i], m);
            }
        }
        ExprView::Or(ops) => {
            lemma_subst_views(ops, m);
            assert forall|i: int| 0 <= i < subst_views(ops, m).len() implies resolved(
                #[trigger] subst_views(ops, m)[i],
            ) by {
                lemma_subst_resolves(ops[i], m);
            }
        }
        _ => {}
    }
}

/// Substitution is idempotent once it succeeds: a second pass through the
/// same input — one whose expressions are fully resolved — produces an
/// identical tree.
pub proof fn lemma_substitute_idempotent(e: ExprView, m: Map<u64, ExprView>)
    requires
        resolvable(e, m),
        forall|k: u64| #[trigger] m.contains_key(k) ==> resolved(m[k]),
    ensures
        subst_view(subst_view(e, m), m) == subst_view(e, m),
{
    lemma_subst_resolves(e, m);
    lemma_resolved_fixed_point(subst_view(e, m), m);
}

/// Substitutes every expression of `v` through `input`, in order, or reports
/// the first failure without handing anything back.
fn subst_all<I: Input>(v: &Vec<Expr>, input: &I) -> (out: Result<Vec<Expr>, SubstituteError>)
    ensures
        match out {
            Result::Ok(r) => r@.len() == v@.len() && (forall|i: int|
                0 <= i < v@.len() ==> resolvable(#[trigger] v@[i]@, input.resolution())) && (
            forall|i: int|
                0 <= i < v@.len() ==> #[trigger] r@[i]@ == subst_view(v@[i]@, input.resolution())),
            Result::Err(err) => (exists|i: int|
                0 <= i < v@.len() && !resolvable(#[trigger] v@[i]@, input.resolution()))
                && match err {
                SubstituteError::UnresolvedReference { key } => !input.resolution().contains_key(
                    key,
                ) && (exists|i: int|
                    0 <= i < v@.len() && mentions_ref(#[trigger] v@[i]@, key)),
            },
        },
    decreases v,
{
    let mut r: Vec<Expr> = Vec::new();
    let mut i: usize = 0;
    while i < v.len()
        invariant
            i <= v@.len(),
            r@.len() == i,
            forall|j: int| 0 <= j < i ==> resolvable(#[trigger] v@[j]@, input.resolution()),
            forall|j: int|
                0 <= j < i ==> #[trigger] r@[j]@ == subst_view(v@[j]@, input.resolution()),
        decreases v@.len() - i,
    {
        match subst_expr(&v[i], input) {
            Result::Ok(x) => {
                r.push(x);
            }
            Result::Err(err) => {
                proof {
                    assert(0 <= i < v@.len() && !resolvable(v@[i as int]@, input.resolution()));
                }
                return Result::Err(err);
            }
        }
        i = i + 1;
    }
    Result::Ok(r)
}

/// Substitutes through `input` inside `e`, building the resolved tree, or
/// reports an unresolved key without building anything.
fn subst_expr<I: Input>(e: &Expr, input: &I) -> (out: Result<Expr, SubstituteError>)
    ensures
        match out {
            Result::Ok(r) => resolvable(e@, input.resolution()) && r@ == subst_view(
                e@,
                input.resolution(),
            ),
            Result::Err(err) => !resolvable(e@, input.resolution()) && match err {
                SubstituteError::UnresolvedReference { key } => mentions_ref(e@, key)
                    && !input.resolution().contains_key(key),
            },
        },
    decreases e,
{
    let ghost m = input.resolution();
    match e {
        Expr::And(a) => {
            match subst_all(&a.operands, input) {
                Result::Ok(operands) => {
                    let ghost nops = operands@;
                    let r = Expr::And(ExprAnd { operands });
                    proof {
                        lemma_views_of(a.operands@);
                        lemma_views_of(nops);
                        lemma_subst_views(views_of(a.operands@), m);
                        assert forall|i: int| 0 <= i < views_of(a.operands@).len() implies
                            resolvable(#[trigger] views_of(a.operands@)[i], m) by {
                            assert(views_of(a.operands@)[i] == a.operands@[i]@);
                        }
                        assert(resolvable(e@, m));
                        assert(views_of(nops) =~= subst_views(views_of(a.operands@), m));
                        assert(r@ == subst_view(e@, m));
                    }
                    Result::Ok(r)
                }
                Result::Err(err) => {
                    proof {
                        lemma_views_of(a.operands@);
                        let j = choose|j: int|
                            0 <= j < a.operands@.len() && !resolvable(
                                #[trigger] a.operands@[j]@,
                                m,
                            );
                        assert(views_of(a.operands@)[j] == a.operands@[j]@);
                        assert(!resolvable(e@, m));
                        match err {
                            SubstituteError::UnresolvedReference { key } => {
                                let jj = choose|jj: int|
                                    0 <= jj < a.operands@.len() && mentions_ref(
                                        #[trigger] a.operands@[jj]@,
                                        key,
                                    );
                                assert(views_of(a.operands@)[jj] == a.operands@[jj]@);
                                assert(mentions_ref(e@, key));
                            }
                        }
                    }
                    Result::Err(err)
                }
            }
        }
        Expr::Or(o) => {
            match subst_all(&o.operands, input) {
                Result::Ok(operands) => {
                    let ghost nops = operands@;
                    let r = Expr::Or(ExprOr { operands });
                    proof {
                        lemma_views_of(o.operands@);
                        lemma_views_of(nops);
                        lemma_subst_views(views_of(o.operands@), m);
                        assert forall|i: int| 0 <= i < views_of(o.operands@).len() implies
                            resolvable(#[trigger] views_of(o.operands@)[i], m) by {
                            assert(views_of(o.operands@)[i] == o.operands@[i]@);
                        }
                        assert(resolvable(e@, m));
                        assert(views_of(nops) =~= subst_views(views_of(o.operands@), m));
                        assert(r@ == subst_view(e@, m));
                    }
                    Result::Ok(r)
                }
                Result::Err(err) => {
                    proof {
                        lemma_views_of(o.operands@);
                        let j = choose|j: int|
                            0 <= j < o.operands@.len() && !resolvable(
                                #[trigger] o.operands@[j]@,
                                m,
                            );
                        assert(views_of(o.operands@)[j] == o.operands@[j]@);
                        assert(!resolvable(e@, m));
                        match err {
                            SubstituteError::UnresolvedReference { key } => {
                                let jj = choose|jj: int|
                                    0 <= jj < o.operands@.len() && mentions_ref(
                                        #[trigger] o.operands@[jj]@,
                                        key,
                                    );
                                assert(views_of(o.operands@)[jj] == o.operands@[jj]@);
                                assert(mentions_ref(e@, key));
                            }
                        }
                    }
                    Result::Err(err)
                }
            }
        }
        Expr::Bool(b) => Result::Ok(Expr::Bool(*b)),
        Expr::Ref(r) => {
            match input.resolve_ref(r) {
                Option::Some(x) => Result::Ok(x),
                Option::None => Result::Err(
                    SubstituteError::UnresolvedReference { key: r.key },
                ),
            }
        }
        Expr::Value(v) => Result::Ok(Expr::Value(*v)),
    }
}

impl Expr {
    /// Rewrites every reference leaf through `input`, recursively, leaving
    /// non-reference leaves and the `And`/`Or` structure untouched. Succeeds
    /// exactly when every reference key is inside `input`'s mapping; on an
    /// unresolved key the tree is left exactly as it was and the key is
    /// reported.
    pub fn substitute_ref<I: Input>(&mut self, input: &I) -> (out: Result<(), SubstituteError>)
        ensures
            match out {
                Result::Ok(u) => resolvable(old(self)@, input.resolution()) && final(self)@
                    == subst_view(old(self)@, input.resolution()),
                Result::Err(err) => !resolvable(old(self)@, input.resolution()) && *final(self)
                    == *old(self) && match err {
                    SubstituteError::UnresolvedReference { key } => mentions_ref(old(self)@, key)
                        && !input.resolution().contains_key(key),
                },
            },
    {
        match subst_expr(self, input) {
            Result::Ok(r) => {
                *self = r;
                Result::Ok(())
            }
            Result::Err(err) => Result::Err(err),
        }
    }
}

/// A substitution source backed by an association list: the first pair whose
/// key matches wins, and its expression is handed out as a fresh copy.
#[derive(Debug, PartialEq)]
pub struct PairsInput {
    pub pairs: Vec<(u64, Expr)>,
}

/// The mapping an association list implements: earlier pairs shadow later
/// ones with the same key.
pub open spec fn pairs_resolution(s: Seq<(u64, Expr)>) -> Map<u64, ExprView>
    decreases s,
{
    if s.len() == 0 {
        Map::empty()
    } else {
        pairs_resolution(s.drop_first()).insert(s[0].0, s[0].1@)
    }
}

/// The first pair holding a key decides its resolution.
proof fn lemma_pairs_resolution_found(s: Seq<(u64, Expr)>, i: int)
    requires
        0 <= i < s.len(),
        forall|j: int| 0 <= j < i ==> (#[trigger] s[j]).0 != s[i].0,
    ensures
        pairs_resolution(s).contains_key(s[i].0),
        pairs_resolution(s)[s[i].0] == s[i].1@,
    decreases s.len(),
{
    if i > 0 {
        assert forall|j: int| 0 <= j < i - 1 implies (#[trigger] s.drop_first()[j]).0
            != s.drop_first()[i - 1].0 by {
            assert(s.drop_first()[j] == s[j + 1]);
        }
        assert(s.drop_first()[i - 1] == s[i]);
        lemma_pairs_resolution_found(s.drop_first(), i - 1);
        assert(s[0].0 != s[i].0);
    }
}

/// A key no pair holds is outside the mapping.
proof fn lemma_pairs_resolution_absent(s: Seq<(u64, Expr)>, key: u64)
    requires
        forall|j: int| 0 <= j < s.len() ==> (#[trigger] s[j]).0 != key,
    ensures
        !pairs_resolution(s).contains_key(key),
    decreases s.len(),
{
    if s.len() > 0 {
        assert forall|j: int| 0 <= j < s.drop_first().len() implies (#[trigger] s.drop_first()[
            j
        ]).0 != key by {
            assert(s.drop_first()[j] == s[j + 1]);
        }
        lemma_pairs_resolution_absent(s.drop_first(), key);
        assert(s[0].0 != key);
    }
}

impl Input for PairsInput {
    open spec fn resolution(&self) -> Map<u64, ExprView> {
        pairs_resolution(self.pairs@)
    }

    fn resolve_ref(&self, target: &ExprRef) -> (out: Option<Expr>) {
        let mut i: usize = 0;
        while i < self.pairs.len()
            invariant
                i <= self.pairs@.len(),
                forall|j: int| 0 <= j < i ==> (#[trigger] self.pairs@[j]).0 != target.key,
            decreases self.pairs@.len() - i,
        {
            if self.pairs[i].0 == target.key {
                let r = self.pairs[i].1.duplicate();
                proof {
                    lemma_pairs_resolution_found(self.pairs@, i as int);
                }
                return Option::Some(r);
            }
            i = i + 1;
        }
        proof {
            lemma_pairs_resolution_absent(self.pairs@, target.key);
        }
        Option::None
    }
}

} // verus!
