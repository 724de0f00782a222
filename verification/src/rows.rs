//! The rows of the log in a model of slint.
//!
//! A model is shared through an `Rc` and changes behind it. Here it is held alone: `Rows` has no
//! `Clone`, gives its `Rc` to nobody, and every change to the rows goes through `&mut Rows`.
//! What a window is handed is for reading.

use crate::log::{Line, LogRow};
use slint::{Model, ModelRc, VecModel};
use std::rc::Rc;
use vstd::prelude::*;

verus! {

/// `slint::VecModel`, a model that is backed by a vector.
#[verifier::external_type_specification]
#[verifier::external_body]
#[verifier::reject_recursive_types(T)]
pub struct ExVecModel<T>(slint::VecModel<T>);

/// `slint::ModelRc`, a model as a window takes it.
#[verifier::external_type_specification]
#[verifier::external_body]
#[verifier::reject_recursive_types(T)]
pub struct ExModelRc<T>(slint::ModelRc<T>);

/// The rows that a model holds, in their order.
pub uninterp spec fn rows(model: VecModel<LogRow>) -> Seq<(Seq<char>, Seq<char>, int)>;

/// The rows that a model gives to a window at the moment it is handed over, in their order.
pub uninterp spec fn handed_over(model: ModelRc<LogRow>) -> Seq<(Seq<char>, Seq<char>, int)>;

/// Whether a model as a window takes it reads its rows from `source`: from that model, as it
/// was then or as it is now.
pub uninterp spec fn reads_from(model: ModelRc<LogRow>, source: VecModel<LogRow>) -> bool;

/// The rows, in a model that nobody else changes.
pub(crate) struct Rows {
    model: Rc<VecModel<LogRow>>,
}

impl View for Rows {
    type V = Seq<Line>;

    closed spec fn view(&self) -> Seq<Line> {
        rows(*self.model)
    }
}

/// `VecModel::from`, of no rows: the model holds none.
#[verifier::external_body]
fn empty_model() -> (r: Rc<VecModel<LogRow>>)
    ensures
        rows(*r) == Seq::<Line>::empty(),
{
    Rc::new(VecModel::from(Vec::new()))
}

/// `ModelRc::from`: the same model as a window takes it. It keeps the `Rc` and reads through
/// it, so that it gives the rows that the model holds: now those that it holds now, and later
/// those that it then holds.
#[verifier::external_body]
fn shared(model: &Rc<VecModel<LogRow>>) -> (r: ModelRc<LogRow>)
    ensures
        reads_from(r, **model),
        handed_over(r) == rows(**model),
{
    ModelRc::from(model.clone())
}

impl Rows {
    /// Whether a window that was handed `m` shows these rows, and whatever becomes of them.
    pub(crate) closed spec fn feeds(&self, m: ModelRc<LogRow>) -> bool {
        reads_from(m, *self.model)
    }

    /// No rows.
    pub(crate) fn new() -> (r: Self)
        ensures
            r@ == Seq::<Line>::empty(),
    {
        Rows { model: empty_model() }
    }

    /// `VecModel::push`: the row is added behind the others, in the same model.
    #[verifier::external_body]
    pub(crate) fn push(&mut self, row: LogRow)
        ensures
            final(self)@ == old(self)@.push(row@),
            forall|m: ModelRc<LogRow>| #[trigger] old(self).feeds(m) ==> final(self).feeds(m),
    {
        self.model.push(row)
    }

    /// `VecModel::remove`: the row at `index` is taken out and returned, and those behind it
    /// move up, in the same model. It panics where there is no such row.
    #[verifier::external_body]
    pub(crate) fn remove(&mut self, index: usize) -> (r: LogRow)
        requires
            index < old(self)@.len(),
        ensures
            final(self)@ == old(self)@.remove(index as int),
            r@ == old(self)@[index as int],
            forall|m: ModelRc<LogRow>| #[trigger] old(self).feeds(m) ==> final(self).feeds(m),
    {
        self.model.remove(index)
    }

    /// `VecModel::clear`: no row is left in the model, which stays the same.
    #[verifier::external_body]
    pub(crate) fn clear(&mut self)
        ensures
            final(self)@ == Seq::<Line>::empty(),
            forall|m: ModelRc<LogRow>| #[trigger] old(self).feeds(m) ==> final(self).feeds(m),
    {
        self.model.clear()
    }

    /// `VecModel::row_count`: how many rows there are.
    #[verifier::external_body]
    pub(crate) fn count(&self) -> (r: usize)
        ensures
            r == self@.len(),
    {
        self.model.row_count()
    }

    /// `VecModel::row_data`: a copy of the row at `row`, if there is one.
    #[verifier::external_body]
    pub(crate) fn get(&self, row: usize) -> (r: Option<LogRow>)
        ensures
            match r {
                Some(x) => row < self@.len() && x@ == self@[row as int],
                None => row >= self@.len(),
            },
    {
        self.model.row_data(row)
    }

    /// The rows as a window takes them.
    pub(crate) fn share(&self) -> (r: ModelRc<LogRow>)
        ensures
            self.feeds(r),
            handed_over(r) == self@,
    {
        shared(&self.model)
    }
}

} // verus!
