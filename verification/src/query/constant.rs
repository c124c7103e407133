use vstd::prelude::*;
use crate::query::{Cacheability, CacheabilityModel, Context, GenericQuery, Query};
use crate::relative_pos::RelativePos;
use crate::unique_descrip::UniqueDescrip;

verus! {

/// A query that produces the same value everywhere, reading nothing.
pub struct Constant<T> {
    pub value: T,
}

impl<T: Copy> Clone for Constant<T> {
    fn clone(&self) -> (r: Self)
        ensures
            r == *self,
    {
        Constant { value: self.value }
    }
}

impl<T: Copy> Copy for Constant<T> {

}

impl<T: Copy + UniqueDescrip + DeepView> Constant<T> {
    pub fn new(value: T) -> (q: Constant<T>)
        ensures
            q.value == value,
    {
        Constant { value }
    }
}

impl<T: Copy + UniqueDescrip + DeepView> UniqueDescrip for Constant<T> {
    open spec fn spec_descrip(&self) -> Seq<char> {
        self.value.spec_descrip()
    }

    fn unique_descrip(&self) -> (s: String)
        ensures
            s@ == self.spec_descrip(),
    {
        self.value.unique_descrip()
    }
}

impl<T: Copy + UniqueDescrip + DeepView> GenericQuery for Constant<T> {
    open spec fn wf(&self) -> bool {
        true
    }

    open spec fn reach(&self) -> int {
        0
    }

    open spec fn spec_cacheability(&self) -> CacheabilityModel {
        CacheabilityModel::Forever
    }

    proof fn reach_nonneg(&self) {
    }

    /// A constant never goes stale.
    fn cacheability(&self) -> (c: Cacheability)
        ensures
            c@ == self.spec_cacheability(),
            c.wf(),
    {
        Cacheability::Forever
    }
}

impl<T: Copy + UniqueDescrip + DeepView> Query<T> for Constant<T> {
    open spec fn spec_eval(
        &self,
        ctx: spec_fn(RelativePos) -> crate::block::BlockType,
        pos: RelativePos,
    ) -> <T as DeepView>::V {
        self.value.deep_view()
    }

    fn eval<C: Context>(&self, _n: &C, _pos: RelativePos) -> (r: T)
        ensures
            r.deep_view() == self.spec_eval(_n.model(), _pos),
    {
        self.value
    }
}

} // verus!
