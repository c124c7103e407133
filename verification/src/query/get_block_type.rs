use vstd::prelude::*;
use vstd::string::StringExecFns;
use crate::block::BlockType;
use crate::query::{Cacheability, CacheabilityModel, CacheableField, Context, GenericQuery, Query};
use crate::relative_pos::RelativePos;
use crate::unique_descrip::UniqueDescrip;

verus! {

/// The query that reads a cell's block type.
#[derive(Clone, Copy, Debug)]
pub struct GetBlockType {}

impl GetBlockType {
    pub fn new() -> (q: GetBlockType)
        ensures
            q == (GetBlockType {  }),
    {
        GetBlockType {  }
    }
}

impl Default for GetBlockType {
    fn default() -> (q: GetBlockType)
        ensures
            q == (GetBlockType {  }),
    {
        GetBlockType::new()
    }
}

impl UniqueDescrip for GetBlockType {
    open spec fn spec_descrip(&self) -> Seq<char> {
        "GetBlockType"@
    }

    fn unique_descrip(&self) -> (s: String)
        ensures
            s@ == self.spec_descrip(),
    {
        "GetBlockType".to_owned()
    }
}

impl GenericQuery for GetBlockType {
    open spec fn wf(&self) -> bool {
        true
    }

    open spec fn reach(&self) -> int {
        0
    }

    open spec fn spec_cacheability(&self) -> CacheabilityModel {
        CacheabilityModel::UntilChangeInSelf {
            fields: set![CacheableField::CacheableBlockType],
        }
    }

    proof fn reach_nonneg(&self) {
    }

    /// The result goes stale exactly when the cell's own block type changes.
    fn cacheability(&self) -> (c: Cacheability)
        ensures
            c@ == self.spec_cacheability(),
            c.wf(),
    {
        let mut fields: Vec<CacheableField> = Vec::new();
        fields.push(CacheableField::CacheableBlockType);
        proof {
            assert(fields@.len() == 1);
            assert(fields@[0] == CacheableField::CacheableBlockType);
            assert(fields@.contains(CacheableField::CacheableBlockType));
            assert(fields@.to_set() =~= set![CacheableField::CacheableBlockType]) by {
                assert forall|f: CacheableField| fields@.contains(f) implies f
                    == CacheableField::CacheableBlockType by {
                    match f {
                        CacheableField::CacheableBlockType => {},
                    }
                }
            }
            assert(fields@.no_duplicates());
        }
        Cacheability::UntilChangeInSelf { fields }
    }
}

impl Query<BlockType> for GetBlockType {
    open spec fn spec_eval(
        &self,
        ctx: spec_fn(RelativePos) -> BlockType,
        pos: RelativePos,
    ) -> BlockType {
        ctx(pos)
    }

    fn eval<C: Context>(&self, n: &C, pos: RelativePos) -> (r: BlockType)
        ensures
            r.deep_view() == self.spec_eval(n.model(), pos),
    {
        n.get_block(pos).block_type()
    }
}

} // verus!
