//! The `FROM` part of a statement: where its rows come from.

use vstd::prelude::*;

verus! {

/// One relation-traversal step: a hint that a related entity should be
/// joined when the source is resolved. Opaque leaf value; immutable once
/// constructed.
#[derive(Clone, Copy, Debug, PartialEq, Eq, Structural)]
pub struct Path {
    pub id: u64,
}

/// A model-level source: the logical entity rows are drawn from, plus the
/// relation-traversal paths accumulated so far. `includes` keeps the order in
/// which the paths were added; that order is significant for downstream join
/// ordering.
#[derive(Debug, PartialEq)]
pub struct SourceModel {
    pub model: u64,
    pub includes: Vec<Path>,
}

/// The origin of rows for a statement. Lower abstraction levels (physical
/// tables with joins) are an extension point; the model-level variant is the
/// only one this layer defines, so every statement built here is
/// model-sourced by construction.
#[derive(Debug, PartialEq)]
pub enum Source {
    Model(SourceModel),
}

/// Mathematical model of a model-level source.
#[verifier::ext_equal]
pub struct SourceModelView {
    pub model: u64,
    pub includes: Seq<Path>,
}

/// Mathematical model of a source.
#[verifier::ext_equal]
pub enum SourceView {
    Model(SourceModelView),
}

impl View for SourceModel {
    type V = SourceModelView;

    open spec fn view(&self) -> SourceModelView {
        SourceModelView { model: self.model, includes: self.includes@ }
    }
}

impl View for Source {
    type V = SourceView;

    open spec fn view(&self) -> SourceView {
        match self {
            Source::Model(m) => SourceView::Model(m@),
        }
    }
}

impl SourceModel {
    /// A model-level source over `model` with no relation paths yet.
    pub fn new(model: u64) -> (r: SourceModel)
        ensures
            r@ == (SourceModelView { model, includes: Seq::<Path>::empty() }),
    {
        let r = SourceModel { model, includes: Vec::new() };
        proof {
            assert(r@ =~= SourceModelView { model, includes: Seq::<Path>::empty() });
        }
        r
    }
}

impl Source {
    /// Copies the source; the copy models the same value.
    pub fn duplicate(&self) -> (r: Source)
        ensures
            r@ == self@,
    {
        match self {
            Source::Model(m) => {
                let mut includes: Vec<Path> = Vec::new();
                let mut i: usize = 0;
                while i < m.includes.len()
                    invariant
                        i <= m.includes.len(),
                        includes@ == m.includes@.take(i as int),
                    decreases m.includes.len() - i,
                {
                    includes.push(m.includes[i]);
                    proof {
                        assert(includes@ =~= m.includes@.take(i + 1 as int));
                    }
                    i = i + 1;
                }
                proof {
                    assert(m.includes@.take(m.includes@.len() as int) =~= m.includes@);
                }
                Source::Model(SourceModel { model: m.model, includes })
            }
        }
    }
}

} // verus!
