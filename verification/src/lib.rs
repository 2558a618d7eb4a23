//! Intermediate representation for SELECT-style statements: a mutable
//! abstract syntax tree combining a data source, a boolean filter expression,
//! and a projection clause, together with combinators that grow the filter
//! without nesting, a substitution pass that resolves placeholder references,
//! and a visitor protocol offering read-only, in-place, and structural
//! traversals over statement trees.

mod expr;
mod returning;
mod select;
mod source;
mod substitute;
mod visit;

pub use expr::Expr;
pub use expr::ExprAnd;
pub use expr::ExprOr;
pub use expr::ExprRef;
pub use expr::ExprView;
pub use expr::lemma_views_of;
pub use expr::lemma_views_of_push;
pub use expr::views_of;
pub use returning::Returning;
pub use select::Select;
pub use select::SelectView;
pub use select::and_view;
pub use select::lemma_and_flattens;
pub use select::lemma_operator_switch_wraps;
pub use select::lemma_or_flattens;
pub use select::lemma_with_path_order;
pub use select::or_view;
pub use select::with_path;
pub use source::Path;
pub use source::Source;
pub use source::SourceModel;
pub use source::SourceModelView;
pub use source::SourceView;
pub use substitute::Input;
pub use substitute::PairsInput;
pub use substitute::SubstituteError;
pub use substitute::lemma_resolved_fixed_point;
pub use substitute::lemma_subst_resolves;
pub use substitute::lemma_substitute_idempotent;
pub use substitute::mentions_ref;
pub use substitute::pairs_resolution;
pub use substitute::resolvable;
pub use substitute::resolved;
pub use substitute::subst_view;
pub use substitute::subst_views;
pub use visit::IdentityMap;
pub use visit::MapNode;
pub use visit::RefBinder;
pub use visit::RefCollector;
pub use visit::Visit;
pub use visit::VisitMut;
pub use visit::lemma_identity_map;
pub use visit::lemma_identity_map_select;
pub use visit::lemma_nodes_of_complete;
pub use visit::lemma_reachable_trans;
pub use visit::lemma_visit_observes_operands;
pub use visit::map_select_view;
pub use visit::map_view;
pub use visit::map_views;
pub use visit::nodes_of;
pub use visit::nodes_of_seq;
pub use visit::operands_of;
pub use visit::reachable;
pub use visit::rewrite_view;
pub use visit::rewrite_views;
pub use visit::map_expr_tree;
pub use visit::visit_expr_tree;
pub use visit::visit_mut_expr_tree;
