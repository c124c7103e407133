use vstd::prelude::*;
use vstd::string::StringExecFns;
use crate::text::spec_dec;
use crate::text::u32_dec;
use crate::unique_descrip::UniqueDescrip;

verus! {

/// A small unsigned tag identifying what a cell is.
#[derive(Clone, Copy, Debug, PartialEq, Eq, Hash, Structural)]
pub struct BlockType(pub u16);

pub open spec fn spec_unknown() -> BlockType {
    BlockType(1)
}

/// The block type of a cell that lies outside the chunk or was never
/// initialized.
#[allow(non_snake_case)]
#[verifier::when_used_as_spec(spec_unknown)]
pub fn UNKNOWN() -> (b: BlockType)
    ensures
        b == spec_unknown(),
{
    BlockType(1)
}

pub open spec fn spec_empty() -> BlockType {
    BlockType(2)
}

/// The block type of a cell that holds nothing.
#[allow(non_snake_case)]
#[verifier::when_used_as_spec(spec_empty)]
pub fn EMPTY() -> (b: BlockType)
    ensures
        b == spec_empty(),
{
    BlockType(2)
}

impl View for BlockType {
    type V = BlockType;

    open spec fn view(&self) -> BlockType {
        *self
    }
}

impl DeepView for BlockType {
    type V = BlockType;

    open spec fn deep_view(&self) -> BlockType {
        *self
    }
}

impl UniqueDescrip for BlockType {
    open spec fn spec_descrip(&self) -> Seq<char> {
        "BlockType"@ + spec_dec(self.0 as nat)
    }

    fn unique_descrip(&self) -> (s: String)
        ensures
            s@ == self.spec_descrip(),
    {
        let mut s = "BlockType".to_owned();
        let digits = u32_dec(self.0 as u32);
        s.append(digits.as_str());
        s
    }
}

} // verus!
