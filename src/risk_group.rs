//! Risk groups: ordered sets of borrowers that share one idiosyncratic draw
//! per trial.
use vstd::prelude::*;

verus! {

/// An ordered collection of borrowers sharing one group draw per trial.
pub struct RiskGroup<B> {
    borrower: Vec<B>,
}

impl<B> View for RiskGroup<B> {
    type V = Seq<B>;

    /// The members, in the order they were added.
    closed spec fn view(&self) -> Seq<B> {
        self.borrower@
    }
}

impl<B> RiskGroup<B> {
    /// An empty group.
    pub fn new() -> (r: Self)
        ensures
            r@ == Seq::<B>::empty(),
    {
        RiskGroup { borrower: Vec::new() }
    }

    /// Appends `borrower` after the current members.
    pub fn add_borrower(&mut self, borrower: B)
        ensures
            final(self)@ == old(self)@.push(borrower),
    {
        self.borrower.push(borrower);
    }

    /// The members, in order.
    pub fn iter_borrower(&self) -> (r: &[B])
        ensures
            r@ == self@,
    {
        self.borrower.as_slice()
    }

    /// Number of members.
    pub fn num_borrower(&self) -> (r: usize)
        ensures
            r == self@.len(),
    {
        self.borrower.len()
    }

    /// Hands the members back, in order, giving up the group.
    pub fn into_borrowers(self) -> (r: Vec<B>)
        ensures
            r@ == self@,
    {
        self.borrower
    }
}

} // verus!
