use stmt_ir::Expr;
use stmt_ir::ExprAnd;
use stmt_ir::ExprOr;
use stmt_ir::ExprRef;
use stmt_ir::IdentityMap;
use stmt_ir::PairsInput;
use stmt_ir::RefBinder;
use stmt_ir::RefCollector;
use stmt_ir::Returning;
use stmt_ir::Select;
use stmt_ir::Source;
use stmt_ir::SourceModel;
use stmt_ir::SubstituteError;

fn model_source(model: u64) -> Source {
    Source::Model(SourceModel::new(model))
}

fn nested_filter() -> Expr {
    // And(Ref(1), Value(9), Or(Ref(2), Bool(false)))
    Expr::And(ExprAnd {
        operands: vec![
            Expr::Ref(ExprRef { key: 1 }),
            Expr::Value(9),
            Expr::Or(ExprOr {
                operands: vec![Expr::Ref(ExprRef { key: 2 }), Expr::Bool(false)],
            }),
        ],
    })
}

#[test]
fn substitute_resolves_every_reference() {
    let mut s = Select::new(model_source(1), nested_filter());
    let input = PairsInput {
        pairs: vec![(1, Expr::Value(10)), (2, Expr::Bool(true))],
    };
    let out = s.substitute_ref(&input);
    assert_eq!(out, Ok(()));
    assert_eq!(
        s.filter,
        Expr::And(ExprAnd {
            operands: vec![
                Expr::Value(10),
                Expr::Value(9),
                Expr::Or(ExprOr { operands: vec![Expr::Bool(true), Expr::Bool(false)] }),
            ]
        })
    );
}

#[test]
fn substitute_second_pass_is_identity() {
    let mut s = Select::new(model_source(1), nested_filter());
    let input = PairsInput {
        pairs: vec![(1, Expr::Value(10)), (2, Expr::Bool(true))],
    };
    assert_eq!(s.substitute_ref(&input), Ok(()));
    let once = s.filter.duplicate();
    assert_eq!(s.substitute_ref(&input), Ok(()));
    assert_eq!(s.filter, once);
}

#[test]
fn substitute_unresolved_key_is_reported() {
    let mut s = Select::new(model_source(1), nested_filter());
    let before = nested_filter();
    let input = PairsInput { pairs: vec![(1, Expr::Value(10))] };
    let out = s.substitute_ref(&input);
    assert_eq!(out, Err(SubstituteError::UnresolvedReference { key: 2 }));
    // the statement is left exactly as it was
    assert_eq!(s.filter, before);
    assert_eq!(s.source, model_source(1));
    assert_eq!(s.returning, Returning::Star);
}

#[test]
fn substitute_first_matching_pair_wins() {
    let mut s = Select::new(model_source(1), Expr::Ref(ExprRef { key: 1 }));
    let input = PairsInput {
        pairs: vec![(1, Expr::Value(10)), (1, Expr::Value(20))],
    };
    assert_eq!(s.substitute_ref(&input), Ok(()));
    assert_eq!(s.filter, Expr::Value(10));
}

#[test]
fn substitute_leaves_other_leaves_alone() {
    let mut s = Select::new(model_source(1), Expr::Value(5));
    let input = PairsInput { pairs: vec![] };
    assert_eq!(s.substitute_ref(&input), Ok(()));
    assert_eq!(s.filter, Expr::Value(5));
}

#[test]
fn visit_observes_every_reference() {
    let s = Select::new(model_source(1), nested_filter());
    let mut collector = RefCollector::new();
    s.visit(&mut collector);
    // preorder: both references, outer one first
    assert_eq!(collector.keys, vec![1, 2]);
}

#[test]
fn visit_on_leaf_filter() {
    let s = Select::new(model_source(1), Expr::Ref(ExprRef { key: 8 }));
    let mut collector = RefCollector::new();
    s.visit(&mut collector);
    assert_eq!(collector.keys, vec![8]);
}

#[test]
fn map_with_identity_reproduces_statement() {
    let mut s = Select::new(model_source(3), nested_filter());
    s.includes(stmt_ir::Path { id: 11 });
    let mapped = s.map(&IdentityMap {});
    assert_eq!(mapped, s);
}

#[test]
fn visit_mut_binds_references_in_place() {
    let mut s = Select::new(model_source(1), nested_filter());
    let binder = RefBinder { replacement: Expr::Value(42) };
    s.visit_mut(&binder);
    assert_eq!(
        s.filter,
        Expr::And(ExprAnd {
            operands: vec![
                Expr::Value(42),
                Expr::Value(9),
                Expr::Or(ExprOr { operands: vec![Expr::Value(42), Expr::Bool(false)] }),
            ]
        })
    );
    assert_eq!(s.source, model_source(1));
    assert_eq!(s.returning, Returning::Star);
}

#[test]
fn map_expr_tree_keeps_structure() {
    let e = nested_filter();
    let mapped = stmt_ir::map_expr_tree(&IdentityMap {}, &e);
    assert_eq!(mapped, e);
}
