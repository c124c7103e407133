use vstd::prelude::*;
use vstd::string::StringExecFns;
use crate::text::{spec_dec, u32_dec};

verus! {

/// A stable, content-addressed textual identity, used to intern queries:
/// two queries with the same description must have the same cacheability.
pub trait UniqueDescrip {
    /// The description as a mathematical sequence of characters.
    spec fn spec_descrip(&self) -> Seq<char>;

    fn unique_descrip(&self) -> (s: String)
        ensures
            s@ == self.spec_descrip(),
    ;
}

impl UniqueDescrip for u8 {
    open spec fn spec_descrip(&self) -> Seq<char> {
        spec_dec(*self as nat) + "u8"@
    }

    fn unique_descrip(&self) -> (s: String)
        ensures
            s@ == self.spec_descrip(),
    {
        let mut s = u32_dec(*self as u32);
        s.append("u8");
        s
    }
}

impl UniqueDescrip for u16 {
    open spec fn spec_descrip(&self) -> Seq<char> {
        spec_dec(*self as nat) + "u16"@
    }

    fn unique_descrip(&self) -> (s: String)
        ensures
            s@ == self.spec_descrip(),
    {
        let mut s = u32_dec(*self as u32);
        s.append("u16");
        s
    }
}

impl UniqueDescrip for u32 {
    open spec fn spec_descrip(&self) -> Seq<char> {
        spec_dec(*self as nat) + "u32"@
    }

    fn unique_descrip(&self) -> (s: String)
        ensures
            s@ == self.spec_descrip(),
    {
        let mut s = u32_dec(*self);
        s.append("u32");
        s
    }
}

} // verus!
