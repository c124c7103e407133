use vstd::prelude::*;
use vstd::string::StringExecFns;
use core::marker::PhantomData;
use crate::query::{
    spec_merge, Cacheability, CacheabilityModel, Context, GenericQuery, Query, QueryValue,
};
use crate::relative_pos::RelativePos;
use crate::unique_descrip::UniqueDescrip;

verus! {

/// A query that compares the results of two inner queries for equality.
pub struct Equals<T, L, R> {
    pub left: L,
    pub right: R,
    pub _phantom: PhantomData<T>,
}

impl<T, L: Copy, R: Copy> Clone for Equals<T, L, R> {
    fn clone(&self) -> (r: Self)
        ensures
            r == *self,
    {
        Equals { left: self.left, right: self.right, _phantom: PhantomData }
    }
}

impl<T, L: Copy, R: Copy> Copy for Equals<T, L, R> {

}

impl<T, L, R> Equals<T, L, R> where
    T: Copy + QueryValue,
    L: Query<T>,
    R: Query<T>,
 {
    pub fn new(left: &L, right: &R) -> (q: Equals<T, L, R>)
        ensures
            q.left == *left,
            q.right == *right,
    {
        Equals { left: *left, right: *right, _phantom: PhantomData }
    }
}

impl<T, L, R> UniqueDescrip for Equals<T, L, R> where
    T: Copy + QueryValue,
    L: Query<T>,
    R: Query<T>,
 {
    open spec fn spec_descrip(&self) -> Seq<char> {
        "Equals( "@ + self.left.spec_descrip() + ", "@ + self.right.spec_descrip() + " )"@
    }

    fn unique_descrip(&self) -> (s: String)
        ensures
            s@ == self.spec_descrip(),
    {
        let mut s = "Equals( ".to_owned();
        let l = self.left.unique_descrip();
        s.append(l.as_str());
        s.append(", ");
        let r = self.right.unique_descrip();
        s.append(r.as_str());
        s.append(" )");
        s
    }
}

impl<T, L, R> GenericQuery for Equals<T, L, R> where
    T: Copy + QueryValue,
    L: Query<T>,
    R: Query<T>,
 {
    open spec fn wf(&self) -> bool {
        self.left.wf() && self.right.wf()
    }

    open spec fn reach(&self) -> int {
        if self.left.reach() >= self.right.reach() {
            self.left.reach()
        } else {
            self.right.reach()
        }
    }

    open spec fn spec_cacheability(&self) -> CacheabilityModel {
        spec_merge(self.left.spec_cacheability(), self.right.spec_cacheability())
    }

    proof fn reach_nonneg(&self) {
        self.left.reach_nonneg();
        self.right.reach_nonneg();
    }

    /// Stale whenever either side's result would be.
    fn cacheability(&self) -> (c: Cacheability)
        ensures
            c@ == self.spec_cacheability(),
            c.wf(),
    {
        let cl = self.left.cacheability();
        let cr = self.right.cacheability();
        Cacheability::merge(&cl, &cr)
    }
}

impl<T, L, R> Query<bool> for Equals<T, L, R> where
    T: Copy + QueryValue,
    L: Query<T>,
    R: Query<T>,
 {
    open spec fn spec_eval(
        &self,
        ctx: spec_fn(RelativePos) -> crate::block::BlockType,
        pos: RelativePos,
    ) -> bool {
        self.left.spec_eval(ctx, pos) == self.right.spec_eval(ctx, pos)
    }

    fn eval<C: Context>(&self, n: &C, pos: RelativePos) -> (r: bool)
        ensures
            r.deep_view() == self.spec_eval(n.model(), pos),
    {
        let a = self.left.eval(n, pos);
        let b = self.right.eval(n, pos);
        a.eq_value(&b)
    }
}

} // verus!
