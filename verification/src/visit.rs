//! The visitor protocol: three traversal shapes over statement trees.
//!
//! `Visit` is the read-only pass (inspection), `VisitMut` the in-place pass
//! (destructive rewrites), and `MapNode` the structural pass that builds a
//! fresh tree. The statement kinds of this layer form a closed set, so the
//! dispatch side of the protocol is the [`Select`] methods `visit`,
//! `visit_mut` and `map`: each drives the default traversal, which reaches
//! every node of the filter and never skips an owned child.

use vstd::prelude::*;
use crate::expr::Expr;
use crate::expr::ExprAnd;
use crate::expr::ExprOr;
use crate::expr::ExprRef;
use crate::expr::ExprView;
use crate::expr::lemma_views_of;
use crate::expr::lemma_views_of_push;
use crate::expr::views_of;
use crate::select::Select;
use crate::select::SelectView;

verus! {

// ---------------------------------------------------------------------------
// Read-only traversal.
// ---------------------------------------------------------------------------

/// A read-only visitor. `seen` is the abstract trace of the node models it
/// has observed, in visit order; the callback appends exactly the node it is
/// handed and must not mutate the tree (it only borrows it).
pub trait Visit {
    /// The models of the nodes observed so far, in order.
    spec fn seen(&self) -> Seq<ExprView>;

    /// Observes one node.
    fn visit_expr(&mut self, e: &Expr)
        ensures
            final(self).seen() == old(self).seen().push(e@),
    ;
}

/// Preorder trace of a tree: the node itself, then every node of each
/// operand, in operand order.
pub open spec fn nodes_of(e: ExprView) -> Seq<ExprView>
    decreases e,
{
    match e {
        ExprView::And(ops) => seq![e] + nodes_of_seq(ops),
        ExprView::Or(ops) => seq![e] + nodes_of_seq(ops),
        _ => seq![e],
    }
}

/// Preorder traces of the trees of `s`, concatenated in order.
pub open spec fn nodes_of_seq(s: Seq<ExprView>) -> Seq<ExprView>
    decreases s,
{
    if s.len() == 0 {
        Seq::empty()
    } else {
        nodes_of_seq(s.drop_last()) + nodes_of(s.last())
    }
}

/// Appending a tree appends its trace.
proof fn lemma_nodes_of_seq_push(s: Seq<ExprView>, x: ExprView)
    ensures
        nodes_of_seq(s.push(x)) == nodes_of_seq(s) + nodes_of(x),
{
    assert(s.push(x).drop_last() =~= s);
    assert(s.push(x).last() == x);
}

/// `sub` is a node of the tree `e`: the root itself, or a node of one of its
/// operands.
pub open spec fn reachable(sub: ExprView, e: ExprView) -> bool
    decreases e,
{
    sub == e || match e {
        ExprView::And(ops) => exists|i: int|
            0 <= i < ops.len() && reachable(sub, #[trigger] ops[i]),
        ExprView::Or(ops) => exists|i: int|
            0 <= i < ops.len() && reachable(sub, #[trigger] ops[i]),
        _ => false,
    }
}

/// The operand sequence of an `And`/`Or` node; empty for a leaf.
pub open spec fn operands_of(e: ExprView) -> Seq<ExprView> {
    match e {
        ExprView::And(ops) => ops,
        ExprView::Or(ops) => ops,
        _ => Seq::empty(),
    }
}

/// Reachability is transitive.
pub proof fn lemma_reachable_trans(a: ExprView, b: ExprView, c: ExprView)
    requires
        reachable(a, b),
        reachable(b, c),
    ensures
        reachable(a, c),
    decreases c,
{
    if b != c {
        match c {
            ExprView::And(ops) => {
                let i = choose|i: int| 0 <= i < ops.len() && reachable(b, #[trigger] ops[i]);
                lemma_reachable_trans(a, b, ops[i]);
            }
            ExprView::Or(ops) => {
                let i = choose|i: int| 0 <= i < ops.len() && reachable(b, #[trigger] ops[i]);
                lemma_reachable_trans(a, b, ops[i]);
            }
            _ => {}
        }
    }
}

/// The preorder trace opens with the root.
proof fn lemma_nodes_of_root(e: ExprView)
    ensures
        nodes_of(e).len() >= 1,
        nodes_of(e)[0] == e,
{
    match e {
        ExprView::And(ops) => {
            assert((seq![e] + nodes_of_seq(ops))[0] == e);
        }
        ExprView::Or(ops) => {
            assert((seq![e] + nodes_of_seq(ops))[0] == e);
        }
        _ => {}
    }
}

/// A node of any tree of `s` stands in the concatenated trace.
proof fn lemma_nodes_of_seq_contains(s: Seq<ExprView>, i: int, sub: ExprView)
    requires
        0 <= i < s.len(),
        nodes_of(s[i]).contains(sub),
    ensures
        nodes_of_seq(s).contains(sub),
    decreases s.len(),
{
    let left = nodes_of_seq(s.drop_last());
    let right = nodes_of(s.last());
    if i == s.len() - 1 {
        let j = choose|j: int| 0 <= j < right.len() && right[j] == sub;
        assert(nodes_of_seq(s)[left.len() + j] == sub);
    } else {
        assert(s.drop_last()[i] == s[i]);
        lemma_nodes_of_seq_contains(s.drop_last(), i, sub);
        let j = choose|j: int| 0 <= j < left.len() && left[j] == sub;
        assert(nodes_of_seq(s)[j] == sub);
    }
}

/// Completeness of the default traversal: every node reachable from `e`
/// stands in the preorder trace that a `Visit` pass observes.
pub proof fn lemma_nodes_of_complete(sub: ExprView, e: ExprView)
    requires
        reachable(sub, e),
    ensures
        nodes_of(e).contains(sub),
    decreases e,
{
    lemma_nodes_of_root(e);
    if sub == e {
        assert(nodes_of(e)[0] == sub);
    } else {
        match e {
            ExprView::And(ops) => {
                let i = choose|i: int| 0 <= i < ops.len() && reachable(sub, #[trigger] ops[i]);
                lemma_nodes_of_complete(sub, ops[i]);
                lemma_nodes_of_seq_contains(ops, i, sub);
                let j = choose|j: int|
                    0 <= j < nodes_of_seq(ops).len() && nodes_of_seq(ops)[j] == sub;
                assert(nodes_of(e)[1 + j] == sub);
            }
            ExprView::Or(ops) => {
                let i = choose|i: int| 0 <= i < ops.len() && reachable(sub, #[trigger] ops[i]);
                lemma_nodes_of_complete(sub, ops[i]);
                lemma_nodes_of_seq_contains(ops, i, sub);
                let j = choose|j: int|
                    0 <= j < nodes_of_seq(ops).len() && nodes_of_seq(ops)[j] == sub;
                assert(nodes_of(e)[1 + j] == sub);
            }
            _ => {}
        }
    }
}

/// A `Visit` pass over a statement observes every operand of every
/// `And`/`Or` node reachable from the filter.
pub proof fn lemma_visit_observes_operands(f: ExprView, p: ExprView, i: int)
    requires
        reachable(p, f),
        p is And || p is Or,
        0 <= i < operands_of(p).len(),
    ensures
        nodes_of(f).contains(operands_of(p)[i]),
{
    let sub = operands_of(p)[i];
    assert(reachable(sub, sub));
    assert(reachable(sub, p));
    lemma_reachable_trans(sub, p, f);
    lemma_nodes_of_complete(sub, f);
}

/// Default read-only traversal of a tree: observes the node, then every
/// operand's tree, in order — nothing reachable is skipped.
pub fn visit_expr_tree<V: Visit>(v: &mut V, e: &Expr)
    ensures
        final(v).seen() == old(v).seen() + nodes_of(e@),
    decreases e,
{
    let ghost base = v.seen();
    v.visit_expr(e);
    match e {
        Expr::And(a) => {
            visit_all(v, &a.operands);
            proof {
                assert(v.seen() =~= base + nodes_of(e@));
            }
        }
        Expr::Or(o) => {
            visit_all(v, &o.operands);
            proof {
                assert(v.seen() =~= base + nodes_of(e@));
            }
        }
        _ => {
            proof {
                assert(v.seen() =~= base + nodes_of(e@));
            }
        }
    }
}

/// Observes every tree of `s`, in order.
fn visit_all<V: Visit>(v: &mut V, s: &Vec<Expr>)
    ensures
        final(v).seen() == old(v).seen() + nodes_of_seq(views_of(s@)),
    decreases s,
{
    let ghost base = v.seen();
    proof {
        assert(s@.take(0) =~= Seq::<Expr>::empty());
        assert(base + nodes_of_seq(views_of(s@.take(0))) =~= base);
    }
    let mut i: usize = 0;
    while i < s.len()
        invariant
            i <= s@.len(),
            v.seen() == base + nodes_of_seq(views_of(s@.take(i as int))),
        decreases s@.len() - i,
    {
        visit_expr_tree(v, &s[i]);
        proof {
            assert(s@.take(i + 1 as int) =~= s@.take(i as int).push(s@[i as int]));
            lemma_views_of_push(s@.take(i as int), s@[i as int]);
            lemma_nodes_of_seq_push(views_of(s@.take(i as int)), s@[i as int]@);
            assert(v.seen() =~= base + nodes_of_seq(views_of(s@.take(i + 1 as int))));
        }
        i = i + 1;
    }
    proof {
        assert(s@.take(s@.len() as int) =~= s@);
    }
}

/// A read-only visitor that collects the keys of the reference leaves it
/// observes, in visit order; the ghost trace witnesses the full observation.
pub struct RefCollector {
    pub keys: Vec<u64>,
    pub trace: Ghost<Seq<ExprView>>,
}

impl RefCollector {
    /// A collector that has observed nothing yet.
    pub fn new() -> (r: RefCollector)
        ensures
            r.seen() == Seq::<ExprView>::empty(),
            r.keys@ == Seq::<u64>::empty(),
    {
        RefCollector { keys: Vec::new(), trace: Ghost(Seq::empty()) }
    }
}

impl Visit for RefCollector {
    open spec fn seen(&self) -> Seq<ExprView> {
        self.trace@
    }

    fn visit_expr(&mut self, e: &Expr) {
        let ghost t = self.trace@.push(e@);
        self.trace = Ghost(t);
        if let Expr::Ref(r) = e {
            self.keys.push(r.key);
        }
    }
}

// ---------------------------------------------------------------------------
// Structural traversal: build a fresh tree.
// ---------------------------------------------------------------------------

/// A structural visitor: one callback per leaf kind, each producing the
/// replacement tree for that leaf. The default traversal keeps the
/// `And`/`Or` shape and rebuilds every leaf through the callbacks.
pub trait MapNode {
    /// What the visitor makes of a boolean literal.
    spec fn map_bool_spec(&self, b: bool) -> ExprView;

    /// What the visitor makes of a reference leaf.
    spec fn map_ref_spec(&self, key: u64) -> ExprView;

    /// What the visitor makes of an opaque value leaf.
    spec fn map_value_spec(&self, v: u64) -> ExprView;

    /// Builds the replacement for a boolean literal.
    fn map_bool(&self, b: bool) -> (r: Expr)
        ensures
            r@ == self.map_bool_spec(b),
    ;

    /// Builds the replacement for a reference leaf.
    fn map_ref(&self, target: &ExprRef) -> (r: Expr)
        ensures
            r@ == self.map_ref_spec(target.key),
    ;

    /// Builds the replacement for an opaque value leaf.
    fn map_value(&self, v: u64) -> (r: Expr)
        ensures
            r@ == self.map_value_spec(v),
    ;
}

/// What the structural pass produces: the `And`/`Or` shape node for node,
/// every leaf through the visitor's callbacks.
pub open spec fn map_view<M: MapNode>(m: &M, e: ExprView) -> ExprView
    decreases e,
{
    match e {
        ExprView::And(ops) => ExprView::And(map_views(m, ops)),
        ExprView::Or(ops) => ExprView::Or(map_views(m, ops)),
        ExprView::Bool(b) => m.map_bool_spec(b),
        ExprView::Ref(k) => m.map_ref_spec(k),
        ExprView::Value(v) => m.map_value_spec(v),
    }
}

/// The structural pass applied to each tree of `s`, in order.
pub open spec fn map_views<M: MapNode>(m: &M, s: Seq<ExprView>) -> Seq<ExprView>
    decreases s,
{
    if s.len() == 0 {
        Seq::empty()
    } else {
        map_views(m, s.drop_last()).push(map_view(m, s.last()))
    }
}

/// `map_views` maps the sequence pointwise.
pub proof fn lemma_map_views<M: MapNode>(m: &M, s: Seq<ExprView>)
    ensures
        map_views(m, s).len() == s.len(),
        forall|i: int| 0 <= i < s.len() ==> #[trigger] map_views(m, s)[i] == map_view(m, s[i]),
    decreases s.len(),
{
    if s.len() > 0 {
        lemma_map_views(m, s.drop_last());
        assert forall|i: int| 0 <= i < s.len() implies #[trigger] map_views(m, s)[i] == map_view(
            m,
            s[i],
        ) by {
            if i < s.len() - 1 {
                assert(s.drop_last()[i] == s[i]);
            } else {
                assert(s.last() == s[i]);
            }
        }
    }
}

/// Default structural traversal of a tree.
pub fn map_expr_tree<M: MapNode>(m: &M, e: &Expr) -> (r: Expr)
    ensures
        r@ == map_view(m, e@),
    decreases e,
{
    let ghost mv = map_view(m, e@);
    match e {
        Expr::And(a) => {
            let operands = map_all(m, &a.operands);
            let ghost nops = operands@;
            let r = Expr::And(ExprAnd { operands });
            proof {
                lemma_views_of(a.operands@);
                lemma_views_of(nops);
                lemma_map_views(m, views_of(a.operands@));
                assert forall|i: int| 0 <= i < views_of(a.operands@).len() implies #[trigger]
                    views_of(nops)[i] == map_views(m, views_of(a.operands@))[i] by {
                    assert(views_of(a.operands@)[i] == a.operands@[i]@);
                    assert(views_of(nops)[i] == nops[i]@);
                }
                assert(views_of(nops) =~= map_views(m, views_of(a.operands@)));
                assert(r@ == mv);
            }
            r
        }
        Expr::Or(o) => {
            let operands = map_all(m, &o.operands);
            let ghost nops = operands@;
            let r = Expr::Or(ExprOr { operands });
            proof {
                lemma_views_of(o.operands@);
                lemma_views_of(nops);
                lemma_map_views(m, views_of(o.operands@));
                assert forall|i: int| 0 <= i < views_of(o.operands@).len() implies #[trigger]
                    views_of(nops)[i] == map_views(m, views_of(o.operands@))[i] by {
                    assert(views_of(o.operands@)[i] == o.operands@[i]@);
                    assert(views_of(nops)[i] == nops[i]@);
                }
                assert(views_of(nops) =~= map_views(m, views_of(o.operands@)));
                assert(r@ == mv);
            }
            r
        }
        Expr::Bool(b) => m.map_bool(*b),
        Expr::Ref(target) => m.map_ref(target),
        Expr::Value(v) => m.map_value(*v),
    }
}

/// The structural pass applied to every tree of `v`, in order.
fn map_all<M: MapNode>(m: &M, v: &Vec<Expr>) -> (r: Vec<Expr>)
    ensures
        r@.len() == v@.len(),
        forall|i: int| 0 <= i < v@.len() ==> #[trigger] r@[i]@ == map_view(m, v@[i]@),
    decreases v,
{
    let mut r: Vec<Expr> = Vec::new();
    let mut i: usize = 0;
    while i < v.len()
        invariant
            i <= v@.len(),
            r@.len() == i,
            forall|j: int| 0 <= j < i ==> #[trigger] r@[j]@ == map_view(m, v@[j]@),
        decreases v@.len() - i,
    {
        let x = map_expr_tree(m, &v[i]);
        r.push(x);
        i = i + 1;
    }
    r
}

/// What the structural pass makes of a whole statement: the filter through
/// the visitor, the source and the projection kept.
pub open spec fn map_select_view<M: MapNode>(m: &M, s: SelectView) -> SelectView {
    SelectView { source: s.source, filter: map_view(m, s.filter), returning: s.returning }
}

/// The visitor that is the identity on every node kind.
pub struct IdentityMap {}

impl MapNode for IdentityMap {
    open spec fn map_bool_spec(&self, b: bool) -> ExprView {
        ExprView::Bool(b)
    }

    open spec fn map_ref_spec(&self, key: u64) -> ExprView {
        ExprView::Ref(key)
    }

    open spec fn map_value_spec(&self, v: u64) -> ExprView {
        ExprView::Value(v)
    }

    fn map_bool(&self, b: bool) -> (r: Expr) {
        Expr::Bool(b)
    }

    fn map_ref(&self, target: &ExprRef) -> (r: Expr) {
        Expr::Ref(ExprRef { key: target.key })
    }

    fn map_value(&self, v: u64) -> (r: Expr) {
        Expr::Value(v)
    }
}

/// The identity visitor reproduces every tree exactly.
pub proof fn lemma_identity_map(m: &IdentityMap, e: ExprView)
    ensures
        map_view(m, e) == e,
    decreases e,
{
    match e {
        ExprView::And(ops) => {
            lemma_map_views(m, ops);
            assert forall|i: int| 0 <= i < ops.len() implies #[trigger] map_views(m, ops)[i]
                == ops[i] by {
                lemma_identity_map(m, ops[i]);
            }
            assert(map_views(m, ops) =~= ops);
        }
        ExprView::Or(ops) => {
            lemma_map_views(m, ops);
            assert forall|i: int| 0 <= i < ops.len() implies #[trigger] map_views(m, ops)[i]
                == ops[i] by {
                lemma_identity_map(m, ops[i]);
            }
            assert(map_views(m, ops) =~= ops);
        }
        _ => {}
    }
}

/// A structural pass with the identity visitor produces a statement
/// structurally equal to its input.
pub proof fn lemma_identity_map_select(m: &IdentityMap, s: SelectView)
    ensures
        map_select_view(m, s) == s,
{
    lemma_identity_map(m, s.filter);
    assert(map_select_view(m, s) =~~= s);
}

// ---------------------------------------------------------------------------
// In-place traversal.
// ---------------------------------------------------------------------------

/// An in-place visitor: one callback that rewrites a leaf where it stands.
/// The default traversal keeps the `And`/`Or` shape and drives the callback
/// over every leaf.
pub trait VisitMut {
    /// What the visitor leaves in place of a leaf.
    spec fn rewrite_spec(&self, e: ExprView) -> ExprView;

    /// Rewrites one leaf in place.
    fn visit_leaf_mut(&self, e: &mut Expr)
        requires
            !(old(e)@ is And),
            !(old(e)@ is Or),
        ensures
            final(e)@ == self.rewrite_spec(old(e)@),
    ;
}

/// What the in-place pass leaves behind: the `And`/`Or` shape node for node,
/// every leaf through the visitor's callback.
pub open spec fn rewrite_view<V: VisitMut>(v: &V, e: ExprView) -> ExprView
    decreases e,
{
    match e {
        ExprView::And(ops) => ExprView::And(rewrite_views(v, ops)),
        ExprView::Or(ops) => ExprView::Or(rewrite_views(v, ops)),
        _ => v.rewrite_spec(e),
    }
}

/// The in-place pass applied to each tree of `s`, in order.
pub open spec fn rewrite_views<V: VisitMut>(v: &V, s: Seq<ExprView>) -> Seq<ExprView>
    decreases s,
{
    if s.len() == 0 {
        Seq::empty()
    } else {
        rewrite_views(v, s.drop_last()).push(rewrite_view(v, s.last()))
    }
}

/// `rewrite_views` maps the sequence pointwise.
pub proof fn lemma_rewrite_views<V: VisitMut>(v: &V, s: Seq<ExprView>)
    ensures
        rewrite_views(v, s).len() == s.len(),
        forall|i: int| 0 <= i < s.len() ==> #[trigger] rewrite_views(v, s)[i] == rewrite_view(
            v,
            s[i],
        ),
    decreases s.len(),
{
    if s.len() > 0 {
        lemma_rewrite_views(v, s.drop_last());
        assert forall|i: int| 0 <= i < s.len() implies #[trigger] rewrite_views(v, s)[i]
            == rewrite_view(v, s[i]) by {
            if i < s.len() - 1 {
                assert(s.drop_last()[i] == s[i]);
            } else {
                assert(s.last() == s[i]);
            }
        }
    }
}

/// Builds the tree the in-place pass leaves behind.
fn rewrite_expr_tree<V: VisitMut>(v: &V, e: &Expr) -> (r: Expr)
    ensures
        r@ == rewrite_view(v, e@),
    decreases e,
{
    let ghost rv = rewrite_view(v, e@);
    match e {
        Expr::And(a) => {
            let operands = rewrite_all(v, &a.operands);
            let ghost nops = operands@;
            let r = Expr::And(ExprAnd { operands });
            proof {
                lemma_views_of(a.operands@);
                lemma_views_of(nops);
                lemma_rewrite_views(v, views_of(a.operands@));
                assert forall|i: int| 0 <= i < views_of(a.operands@).len() implies #[trigger]
                    views_of(nops)[i] == rewrite_views(v, views_of(a.operands@))[i] by {
                    assert(views_of(a.operands@)[i] == a.operands@[i]@);
                    assert(views_of(nops)[i] == nops[i]@);
                }
                assert(views_of(nops) =~= rewrite_views(v, views_of(a.operands@)));
                assert(r@ == rv);
            }
            r
        }
        Expr::Or(o) => {
            let operands = rewrite_all(v, &o.operands);
            let ghost nops = operands@;
            let r = Expr::Or(ExprOr { operands });
            proof {
                lemma_views_of(o.operands@);
                lemma_views_of(nops);
                lemma_rewrite_views(v, views_of(o.operands@));
                assert forall|i: int| 0 <= i < views_of(o.operands@).len() implies #[trigger]
                    views_of(nops)[i] == rewrite_views(v, views_of(o.operands@))[i] by {
                    assert(views_of(o.operands@)[i] == o.operands@[i]@);
                    assert(views_of(nops)[i] == nops[i]@);
                }
                assert(views_of(nops) =~= rewrite_views(v, views_of(o.operands@)));
                assert(r@ == rv);
            }
            r
        }
        Expr::Bool(b) => {
            let mut leaf = Expr::Bool(*b);
            v.visit_leaf_mut(&mut leaf);
            leaf
        }
        Expr::Ref(target) => {
            let mut leaf = Expr::Ref(ExprRef { key: target.key });
            v.visit_leaf_mut(&mut leaf);
            leaf
        }
        Expr::Value(val) => {
            let mut leaf = Expr::Value(*val);
            v.visit_leaf_mut(&mut leaf);
            leaf
        }
    }
}

/// The in-place pass applied to every tree of `src`, in order.
fn rewrite_all<V: VisitMut>(v: &V, src: &Vec<Expr>) -> (r: Vec<Expr>)
    ensures
        r@.len() == src@.len(),
        forall|i: int| 0 <= i < src@.len() ==> #[trigger] r@[i]@ == rewrite_view(v, src@[i]@),
    decreases src,
{
    let mut r: Vec<Expr> = Vec::new();
    let mut i: usize = 0;
    while i < src.len()
        invariant
            i <= src@.len(),
            r@.len() == i,
            forall|j: int| 0 <= j < i ==> #[trigger] r@[j]@ == rewrite_view(v, src@[j]@),
        decreases src@.len() - i,
    {
        let x = rewrite_expr_tree(v, &src[i]);
        r.push(x);
        i = i + 1;
    }
    r
}

/// Default in-place traversal of a tree: rewrites every leaf where it
/// stands, keeping the `And`/`Or` structure.
pub fn visit_mut_expr_tree<V: VisitMut>(v: &V, e: &mut Expr)
    ensures
        final(e)@ == rewrite_view(v, old(e)@),
{
    let r = rewrite_expr_tree(v, e);
    *e = r;
}

/// An in-place visitor that binds every reference leaf to a copy of one
/// replacement expression, leaving other leaves alone.
pub struct RefBinder {
    pub replacement: Expr,
}

impl VisitMut for RefBinder {
    open spec fn rewrite_spec(&self, e: ExprView) -> ExprView {
        match e {
            ExprView::Ref(_) => self.replacement@,
            other => other,
        }
    }

    fn visit_leaf_mut(&self, e: &mut Expr) {
        let bind = match &*e {
            Expr::Ref(_) => true,
            _ => false,
        };
        if bind {
            *e = self.replacement.duplicate();
        }
    }
}

// ---------------------------------------------------------------------------
// The dispatch side: every statement node accepts all three passes.
// ---------------------------------------------------------------------------

impl Select {
    /// Accepts a read-only visitor: drives the default traversal over the
    /// filter, so the visitor observes every reachable node.
    pub fn visit<V: Visit>(&self, v: &mut V)
        ensures
            final(v).seen() == old(v).seen() + nodes_of(self@.filter),
    {
        visit_expr_tree(v, &self.filter);
    }

    /// Accepts an in-place visitor: rewrites the filter's leaves where they
    /// stand; the source and the projection are untouched.
    pub fn visit_mut<V: VisitMut>(&mut self, v: &V)
        ensures
            final(self)@.filter == rewrite_view(v, old(self)@.filter),
            final(self)@.source == old(self)@.source,
            final(self)@.returning == old(self)@.returning,
    {
        visit_mut_expr_tree(v, &mut self.filter);
    }

    /// Accepts a structural visitor: builds a fresh statement whose filter
    /// went through the visitor and whose source and projection model the
    /// same values as this one's.
    pub fn map<M: MapNode>(&self, m: &M) -> (r: Select)
        ensures
            r@ == map_select_view(m, self@),
    {
        let source = self.source.duplicate();
        let filter = map_expr_tree(m, &self.filter);
        let r = Select { source, filter, returning: self.returning };
        proof {
            assert(r@ =~~= map_select_view(m, self@));
        }
        r
    }
}

} // verus!
