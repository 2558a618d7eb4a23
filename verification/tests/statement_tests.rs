use stmt_ir::Expr;
use stmt_ir::ExprAnd;
use stmt_ir::ExprOr;
use stmt_ir::ExprRef;
use stmt_ir::Path;
use stmt_ir::Returning;
use stmt_ir::Select;
use stmt_ir::Source;
use stmt_ir::SourceModel;

fn model_source(model: u64) -> Source {
    Source::Model(SourceModel::new(model))
}

#[test]
fn new_defaults_to_star() {
    let s = Select::new(model_source(7), Expr::Value(1));
    assert_eq!(s.returning, Returning::Star);
    assert_eq!(s.filter, Expr::Value(1));
    assert_eq!(s.source, model_source(7));
}

#[test]
fn and_flattens_two_calls() {
    let mut s = Select::new(model_source(1), Expr::Value(1));
    s.and(Expr::Value(2));
    s.and(Expr::Value(3));
    assert_eq!(
        s.filter,
        Expr::And(ExprAnd { operands: vec![Expr::Value(1), Expr::Value(2), Expr::Value(3)] })
    );
}

#[test]
fn and_appends_to_existing_and() {
    let filter = Expr::And(ExprAnd { operands: vec![Expr::Value(1), Expr::Value(2)] });
    let mut s = Select::new(model_source(1), filter);
    s.and(Expr::Value(3));
    assert_eq!(
        s.filter,
        Expr::And(ExprAnd { operands: vec![Expr::Value(1), Expr::Value(2), Expr::Value(3)] })
    );
}

#[test]
fn and_on_degenerate_empty_and() {
    let filter = Expr::And(ExprAnd { operands: vec![] });
    let mut s = Select::new(model_source(1), filter);
    s.and(Expr::Value(1));
    assert_eq!(s.filter, Expr::And(ExprAnd { operands: vec![Expr::Value(1)] }));
}

#[test]
fn or_appends_to_existing_or() {
    let filter = Expr::Or(ExprOr { operands: vec![Expr::Value(1), Expr::Value(2)] });
    let mut s = Select::new(model_source(1), filter);
    s.or(Expr::Value(3));
    assert_eq!(
        s.filter,
        Expr::Or(ExprOr { operands: vec![Expr::Value(1), Expr::Value(2), Expr::Value(3)] })
    );
}

#[test]
fn or_flattens_two_calls() {
    let mut s = Select::new(model_source(1), Expr::Bool(false));
    s.or(Expr::Value(2));
    s.or(Expr::Value(3));
    assert_eq!(
        s.filter,
        Expr::Or(ExprOr { operands: vec![Expr::Bool(false), Expr::Value(2), Expr::Value(3)] })
    );
}

#[test]
fn operator_switch_wraps() {
    let mut s = Select::new(model_source(1), Expr::Value(1));
    s.and(Expr::Value(2));
    s.or(Expr::Value(3));
    assert_eq!(
        s.filter,
        Expr::Or(ExprOr {
            operands: vec![
                Expr::And(ExprAnd { operands: vec![Expr::Value(1), Expr::Value(2)] }),
                Expr::Value(3),
            ]
        })
    );
}

#[test]
fn or_then_and_wraps_too() {
    let mut s = Select::new(model_source(1), Expr::Value(1));
    s.or(Expr::Value(2));
    s.and(Expr::Value(3));
    assert_eq!(
        s.filter,
        Expr::And(ExprAnd {
            operands: vec![
                Expr::Or(ExprOr { operands: vec![Expr::Value(1), Expr::Value(2)] }),
                Expr::Value(3),
            ]
        })
    );
}

#[test]
fn includes_keeps_call_order() {
    let mut s = Select::new(model_source(4), Expr::Bool(true));
    s.includes(Path { id: 10 });
    s.includes(Path { id: 20 });
    match &s.source {
        Source::Model(m) => {
            assert_eq!(m.includes, vec![Path { id: 10 }, Path { id: 20 }]);
            assert_eq!(m.model, 4);
        }
    }
    assert_eq!(s.filter, Expr::Bool(true));
    assert_eq!(s.returning, Returning::Star);
}

#[test]
fn expr_and_constructor_is_binary() {
    let e = Expr::and(Expr::Value(1), Expr::Ref(ExprRef { key: 2 }));
    assert_eq!(
        e,
        Expr::And(ExprAnd { operands: vec![Expr::Value(1), Expr::Ref(ExprRef { key: 2 })] })
    );
}

#[test]
fn expr_or_constructor_is_binary() {
    let e = Expr::or(Expr::Bool(true), Expr::Value(5));
    assert_eq!(e, Expr::Or(ExprOr { operands: vec![Expr::Bool(true), Expr::Value(5)] }));
}

#[test]
fn take_leaves_true_literal() {
    let mut e = Expr::Value(9);
    let taken = e.take();
    assert_eq!(taken, Expr::Value(9));
    assert_eq!(e, Expr::Bool(true));
}

#[test]
fn duplicate_copies_deeply() {
    let e = Expr::And(ExprAnd {
        operands: vec![
            Expr::Or(ExprOr { operands: vec![Expr::Ref(ExprRef { key: 1 }), Expr::Bool(false)] }),
            Expr::Value(3),
        ],
    });
    assert_eq!(e.duplicate(), e);
}
