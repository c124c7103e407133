use vstd::prelude::*;
use vstd::assert_sets_equal;
use crate::block::BlockType;
use crate::chunk::CHUNK_WIDTH;
use crate::relative_pos::RelativePos;
use crate::unique_descrip::UniqueDescrip;

mod chebyshev_2d_neighbors;
pub use chebyshev_2d_neighbors::{cheb_len, cheb_rel, Chebyshev2DNeighbors};

mod constant;
pub use constant::Constant;

mod equals;
pub use equals::Equals;

mod get_block_type;
pub use get_block_type::GetBlockType;

verus! {

/// A source of block reads for query evaluation, anchored at the cell being
/// evaluated.
pub trait Context {
    /// The block type each relative position holds, as a mathematical
    /// function.
    spec fn model(&self) -> spec_fn(RelativePos) -> BlockType;

    fn get_block(&self, pos: RelativePos) -> (b: BlockInfo)
        ensures
            b.block_type == self.model()(pos),
    ;
}

/// What every query provides regardless of its result type: a well-formed
/// shape, a bound on how far it reads, and a cacheability derived from its
/// structure alone.
pub trait GenericQuery: UniqueDescrip {
    /// Structural well-formedness of the query tree.
    spec fn wf(&self) -> bool;

    /// How far from the evaluation position the query may read, in Chebyshev
    /// distance.
    spec fn reach(&self) -> int;

    /// The derived cacheability, as a mathematical value.
    spec fn spec_cacheability(&self) -> CacheabilityModel;

    /// A query never reads at a negative distance.
    proof fn reach_nonneg(&self)
        requires
            self.wf(),
        ensures
            self.reach() >= 0,
    ;

    /// When the query's result at a position goes stale, derived from the
    /// query's structure; pure, callable before evaluation.
    fn cacheability(&self) -> (c: Cacheability)
        requires
            self.wf(),
        ensures
            c@ == self.spec_cacheability(),
            c.wf(),
    ;
}

/// A composable read expression producing a value of type `T`.
pub trait Query<T: DeepView>: GenericQuery + Sized + Clone + Copy {
    /// The value the query produces, as a function of the context's reads.
    spec fn spec_eval(
        &self,
        ctx: spec_fn(RelativePos) -> BlockType,
        pos: RelativePos,
    ) -> <T as DeepView>::V;

    /// Evaluate the query at the given relative position, reading blocks
    /// through `n`. The position must leave the query's whole read reach
    /// inside the band of representable offsets.
    fn eval<C: Context>(&self, n: &C, pos: RelativePos) -> (r: T)
        requires
            self.wf(),
            -(CHUNK_WIDTH as int) < pos.x as int - self.reach(),
            pos.x as int + self.reach() < (CHUNK_WIDTH as int),
            -(CHUNK_WIDTH as int) < pos.y as int - self.reach(),
            pos.y as int + self.reach() < (CHUNK_WIDTH as int),
            -(CHUNK_WIDTH as int) < (pos.z as int) < (CHUNK_WIDTH as int),
        ensures
            r.deep_view() == self.spec_eval(n.model(), pos),
    ;
}

/// A type a query can produce and compare: equality of values coincides
/// with equality of their mathematical views.
pub trait QueryValue: DeepView + Sized {
    fn eq_value(&self, other: &Self) -> (r: bool)
        ensures
            r == (self.deep_view() == other.deep_view()),
    ;
}

impl QueryValue for bool {
    fn eq_value(&self, other: &Self) -> (r: bool)
        ensures
            r == (self.deep_view() == other.deep_view()),
    {
        *self == *other
    }
}

impl QueryValue for u8 {
    fn eq_value(&self, other: &Self) -> (r: bool)
        ensures
            r == (self.deep_view() == other.deep_view()),
    {
        *self == *other
    }
}

impl QueryValue for u16 {
    fn eq_value(&self, other: &Self) -> (r: bool)
        ensures
            r == (self.deep_view() == other.deep_view()),
    {
        *self == *other
    }
}

impl QueryValue for u32 {
    fn eq_value(&self, other: &Self) -> (r: bool)
        ensures
            r == (self.deep_view() == other.deep_view()),
    {
        *self == *other
    }
}

impl QueryValue for BlockType {
    fn eq_value(&self, other: &Self) -> (r: bool)
        ensures
            r == (self.deep_view() == other.deep_view()),
    {
        self.0 == other.0
    }
}

/// The closed set of per-cell fields a query may depend on. A block
/// currently carries only its type.
#[derive(Clone, Copy, Debug, PartialEq, Eq, Structural)]
pub enum CacheableField {
    CacheableBlockType,
}

/// What a query sees for one cell.
#[derive(Clone, Copy, Debug, PartialEq, Eq, Structural)]
pub struct BlockInfo {
    pub block_type: BlockType,
}

impl BlockInfo {
    pub fn block_type(&self) -> (r: BlockType)
        ensures
            r == self.block_type,
    {
        self.block_type
    }
}

/// When a query's cached result at a position becomes stale.
#[derive(Debug)]
pub enum Cacheability {
    /// The result depends on unknown inputs; re-evaluate every tick.
    DontCache,
    /// The result is constant.
    Forever,
    /// Stale only if one of `fields` changes at the same position.
    UntilChangeInSelf { fields: Vec<CacheableField> },
    /// Stale if one of `fields` changes anywhere within the Chebyshev
    /// distance `distance` (inclusive).
    UntilChangeInChebyshevNeighborhood { distance: u8, fields: Vec<CacheableField> },
}

/// The mathematical shape of a `Cacheability`: field lists become sets and
/// the distance becomes an unbounded integer.
pub enum CacheabilityModel {
    DontCache,
    Forever,
    UntilChangeInSelf { fields: Set<CacheableField> },
    UntilChangeInChebyshevNeighborhood { distance: int, fields: Set<CacheableField> },
}

impl View for Cacheability {
    type V = CacheabilityModel;

    open spec fn view(&self) -> CacheabilityModel {
        match self {
            Cacheability::DontCache => CacheabilityModel::DontCache,
            Cacheability::Forever => CacheabilityModel::Forever,
            Cacheability::UntilChangeInSelf { fields } => CacheabilityModel::UntilChangeInSelf {
                fields: fields@.to_set(),
            },
            Cacheability::UntilChangeInChebyshevNeighborhood { distance, fields } => {
                CacheabilityModel::UntilChangeInChebyshevNeighborhood {
                    distance: *distance as int,
                    fields: fields@.to_set(),
                }
            },
        }
    }
}

impl CacheabilityModel {
    /// The distance within which a change matters; zero unless the result
    /// depends on a neighborhood.
    pub open spec fn spec_distance(self) -> int {
        match self {
            CacheabilityModel::UntilChangeInChebyshevNeighborhood { distance, .. } => distance,
            _ => 0,
        }
    }

    /// The fields whose change can make a cached result stale. A result that
    /// must always be recomputed depends on every field; a constant result
    /// depends on none.
    pub open spec fn spec_fields(self) -> Set<CacheableField> {
        match self {
            CacheabilityModel::DontCache => set![CacheableField::CacheableBlockType],
            CacheabilityModel::Forever => Set::empty(),
            CacheabilityModel::UntilChangeInSelf { fields } => fields,
            CacheabilityModel::UntilChangeInChebyshevNeighborhood { fields, .. } => fields,
        }
    }
}

/// The pointwise combination of two cacheabilities: the result is stale
/// whenever either argument would be.
pub open spec fn spec_merge(a: CacheabilityModel, b: CacheabilityModel) -> CacheabilityModel {
    match (a, b) {
        (CacheabilityModel::DontCache, _) => CacheabilityModel::DontCache,
        (_, CacheabilityModel::DontCache) => CacheabilityModel::DontCache,
        (CacheabilityModel::Forever, _) => b,
        (_, CacheabilityModel::Forever) => a,
        (
            CacheabilityModel::UntilChangeInSelf { fields: fa },
            CacheabilityModel::UntilChangeInSelf { fields: fb },
        ) => CacheabilityModel::UntilChangeInSelf { fields: fa + fb },
        (_, _) => CacheabilityModel::UntilChangeInChebyshevNeighborhood {
            distance: if a.spec_distance() >= b.spec_distance() {
                a.spec_distance()
            } else {
                b.spec_distance()
            },
            fields: a.spec_fields() + b.spec_fields(),
        },
    }
}

/// Merging is commutative.
pub proof fn lemma_merge_commutative(a: CacheabilityModel, b: CacheabilityModel)
    ensures
        spec_merge(a, b) == spec_merge(b, a),
{
    match (a, b) {
        (
            CacheabilityModel::UntilChangeInSelf { fields: fa },
            CacheabilityModel::UntilChangeInSelf { fields: fb },
        ) => {
            assert_sets_equal!(fa + fb, fb + fa);
        },
        (_, _) => {
            assert_sets_equal!(a.spec_fields() + b.spec_fields(), b.spec_fields() + a.spec_fields());
        },
    }
}

/// Merging is associative.
pub proof fn lemma_merge_associative(
    a: CacheabilityModel,
    b: CacheabilityModel,
    c: CacheabilityModel,
)
    ensures
        spec_merge(spec_merge(a, b), c) == spec_merge(a, spec_merge(b, c)),
{
    let ab = spec_merge(a, b);
    let bc = spec_merge(b, c);
    assert_sets_equal!(
        a.spec_fields() + (b.spec_fields() + c.spec_fields()),
        (a.spec_fields() + b.spec_fields()) + c.spec_fields()
    );
    assert(ab.spec_fields() =~= a.spec_fields() + b.spec_fields());
    assert(bc.spec_fields() =~= b.spec_fields() + c.spec_fields());
    assert(spec_merge(ab, c).spec_fields() =~= ab.spec_fields() + c.spec_fields());
    assert(spec_merge(a, bc).spec_fields() =~= a.spec_fields() + bc.spec_fields());
}

/// `Forever` is the identity of merging.
pub proof fn lemma_merge_forever_identity(a: CacheabilityModel)
    ensures
        spec_merge(CacheabilityModel::Forever, a) == a,
        spec_merge(a, CacheabilityModel::Forever) == a,
{
}

/// `DontCache` absorbs anything it is merged with.
pub proof fn lemma_merge_dont_cache_absorbs(a: CacheabilityModel)
    ensures
        spec_merge(CacheabilityModel::DontCache, a) == CacheabilityModel::DontCache,
        spec_merge(a, CacheabilityModel::DontCache) == CacheabilityModel::DontCache,
{
}

impl CacheableField {
    /// The union of two deduplicated field lists, again deduplicated.
    pub fn merge(a: &[CacheableField], b: &[CacheableField]) -> (r: Vec<CacheableField>)
        ensures
            r@.to_set() == a@.to_set() + b@.to_set(),
            r@.no_duplicates(),
    {
        let mut r: Vec<CacheableField> = Vec::new();
        if slice_contains_field(a, CacheableField::CacheableBlockType) || slice_contains_field(
            b,
            CacheableField::CacheableBlockType,
        ) {
            r.push(CacheableField::CacheableBlockType);
        }
        proof {
            assert_sets_equal!(r@.to_set(), a@.to_set() + b@.to_set(), f => {
                match f {
                    CacheableField::CacheableBlockType => {},
                }
                assert(f == CacheableField::CacheableBlockType);
                if (a@.to_set() + b@.to_set()).contains(f) {
                    assert(a@.contains(f) || b@.contains(f));
                    assert(r@.len() == 1);
                    assert(r@[0] == f);
                    assert(r@.contains(f));
                }
                if r@.to_set().contains(f) {
                    assert(r@.contains(f));
                    assert(r@.len() == 1);
                    assert(a@.contains(f) || b@.contains(f));
                }
            });
        }
        r
    }
}

fn slice_contains_field(s: &[CacheableField], f: CacheableField) -> (r: bool)
    ensures
        r == s@.contains(f),
{
    let mut i: usize = 0;
    while i < s.len()
        invariant
            0 <= i <= s@.len(),
            forall|j: int| 0 <= j < i ==> s@[j] != f,
        decreases s@.len() - i,
    {
        if s[i] == f {
            return true;
        }
        i = i + 1;
    }
    false
}

/// Copy a field list element by element.
fn fields_copy(fs: &Vec<CacheableField>) -> (r: Vec<CacheableField>)
    ensures
        r@ == fs@,
{
    let mut r: Vec<CacheableField> = Vec::new();
    let mut i: usize = 0;
    while i < fs.len()
        invariant
            0 <= i <= fs@.len(),
            r@ == fs@.subrange(0, i as int),
        decreases fs@.len() - i,
    {
        r.push(fs[i]);
        i = i + 1;
    }
    proof {
        assert(r@ == fs@.subrange(0, fs@.len() as int));
        assert(fs@.subrange(0, fs@.len() as int) == fs@);
    }
    r
}

impl Cacheability {
    /// A canonical field list: no duplicates (with the single field variant
    /// this makes the list itself canonical for its set).
    pub open spec fn wf(&self) -> bool {
        match self {
            Cacheability::UntilChangeInSelf { fields } => fields@.no_duplicates(),
            Cacheability::UntilChangeInChebyshevNeighborhood { fields, .. } => {
                fields@.no_duplicates()
            },
            _ => true,
        }
    }

    /// Structural equality, down to the order of the field lists.
    pub open spec fn spec_deep_eq(&self, o: &Cacheability) -> bool {
        match (self, o) {
            (Cacheability::DontCache, Cacheability::DontCache) => true,
            (Cacheability::Forever, Cacheability::Forever) => true,
            (
                Cacheability::UntilChangeInSelf { fields: fa },
                Cacheability::UntilChangeInSelf { fields: fb },
            ) => fa@ == fb@,
            (
                Cacheability::UntilChangeInChebyshevNeighborhood { distance: da, fields: fa },
                Cacheability::UntilChangeInChebyshevNeighborhood { distance: db, fields: fb },
            ) => da == db && fa@ == fb@,
            (_, _) => false,
        }
    }

    /// On canonical values, structural equality coincides with equality of
    /// the mathematical models.
    pub proof fn lemma_deep_eq_is_model_eq(&self, o: &Cacheability)
        requires
            self.wf(),
            o.wf(),
        ensures
            self.spec_deep_eq(o) <==> self@ == o@,
    {
        lemma_field_seq_canonical();
        if self@ == o@ {
            match (self, o) {
                (
                    Cacheability::UntilChangeInSelf { fields: fa },
                    Cacheability::UntilChangeInSelf { fields: fb },
                ) => {
                    assert(fa@.to_set() == fb@.to_set());
                    assert(fa@ == fb@);
                },
                (
                    Cacheability::UntilChangeInChebyshevNeighborhood { distance: da, fields: fa },
                    Cacheability::UntilChangeInChebyshevNeighborhood { distance: db, fields: fb },
                ) => {
                    assert(fa@.to_set() == fb@.to_set());
                    assert(fa@ == fb@);
                },
                (_, _) => {},
            }
        }
    }

    /// Combine two cacheabilities pointwise: `DontCache` absorbs, `Forever`
    /// is the identity, two `UntilChangeInSelf` merge by union of fields,
    /// and any other mix lifts to a neighborhood with the larger distance
    /// and the union of fields.
    pub fn merge(a: &Cacheability, b: &Cacheability) -> (r: Cacheability)
        requires
            a.wf(),
            b.wf(),
        ensures
            r@ == spec_merge(a@, b@),
            r.wf(),
    {
        match (a, b) {
            (Cacheability::DontCache, _) => Cacheability::DontCache,
            (_, Cacheability::DontCache) => Cacheability::DontCache,
            (Cacheability::Forever, _) => b.duplicate(),
            (_, Cacheability::Forever) => a.duplicate(),
            (
                Cacheability::UntilChangeInSelf { fields: fields_a },
                Cacheability::UntilChangeInSelf { fields: fields_b },
            ) => Cacheability::UntilChangeInSelf {
                fields: CacheableField::merge(fields_a.as_slice(), fields_b.as_slice()),
            },
            (_, _) => {
                let r = Cacheability::UntilChangeInChebyshevNeighborhood {
                    distance: if a.distance() >= b.distance() {
                        a.distance()
                    } else {
                        b.distance()
                    },
                    fields: CacheableField::merge(a.fields().as_slice(), b.fields().as_slice()),
                };
                proof {
                    assert(r@.spec_fields() =~= spec_merge(a@, b@).spec_fields());
                }
                r
            },
        }
    }

    /// An identical copy, field list included.
    pub fn duplicate(&self) -> (r: Cacheability)
        ensures
            r.spec_deep_eq(self),
            r@ == self@,
            r.wf() == self.wf(),
    {
        match self {
            Cacheability::DontCache => Cacheability::DontCache,
            Cacheability::Forever => Cacheability::Forever,
            Cacheability::UntilChangeInSelf { fields } => Cacheability::UntilChangeInSelf {
                fields: fields_copy(fields),
            },
            Cacheability::UntilChangeInChebyshevNeighborhood { distance, fields } => {
                Cacheability::UntilChangeInChebyshevNeighborhood {
                    distance: *distance,
                    fields: fields_copy(fields),
                }
            },
        }
    }

    /// The distance within which a change matters; zero unless the result
    /// depends on a neighborhood.
    pub fn distance(&self) -> (r: u8)
        ensures
            r as int == self@.spec_distance(),
    {
        match self {
            Cacheability::UntilChangeInChebyshevNeighborhood { distance, .. } => *distance,
            _ => 0,
        }
    }

    /// The fields whose change can make a cached result stale.
    pub fn fields(&self) -> (r: Vec<CacheableField>)
        requires
            self.wf(),
        ensures
            r@.to_set() == self@.spec_fields(),
            r@.no_duplicates(),
            self.wf() ==> match self {
                Cacheability::UntilChangeInSelf { fields } => r@ == fields@,
                Cacheability::UntilChangeInChebyshevNeighborhood { fields, .. } => r@ == fields@,
                _ => true,
            },
    {
        match self {
            Cacheability::DontCache => {
                let mut r: Vec<CacheableField> = Vec::new();
                r.push(CacheableField::CacheableBlockType);
                proof {
                    assert(r@.len() == 1);
                    assert(r@.no_duplicates());
                    assert_sets_equal!(r@.to_set(), set![CacheableField::CacheableBlockType], f => {
                        if r@.to_set().contains(f) {
                            assert(r@.contains(f));
                        } else if f == CacheableField::CacheableBlockType {
                            assert(r@[0] == f);
                            assert(r@.contains(f));
                        }
                    });
                }
                r
            },
            Cacheability::Forever => {
                let r: Vec<CacheableField> = Vec::new();
                proof {
                    assert_sets_equal!(r@.to_set(), Set::<CacheableField>::empty());
                }
                r
            },
            Cacheability::UntilChangeInSelf { fields } => fields_copy(fields),
            Cacheability::UntilChangeInChebyshevNeighborhood { fields, .. } => fields_copy(fields),
        }
    }
}

impl PartialEq for Cacheability {
    fn eq(&self, o: &Cacheability) -> (r: bool) {
        match (self, o) {
            (Cacheability::DontCache, Cacheability::DontCache) => true,
            (Cacheability::Forever, Cacheability::Forever) => true,
            (
                Cacheability::UntilChangeInSelf { fields: fa },
                Cacheability::UntilChangeInSelf { fields: fb },
            ) => fields_seq_eq(fa, fb),
            (
                Cacheability::UntilChangeInChebyshevNeighborhood { distance: da, fields: fa },
                Cacheability::UntilChangeInChebyshevNeighborhood { distance: db, fields: fb },
            ) => *da == *db && fields_seq_eq(fa, fb),
            (_, _) => false,
        }
    }
}

impl Eq for Cacheability {

}

impl vstd::std_specs::cmp::PartialEqSpecImpl for Cacheability {
    open spec fn obeys_eq_spec() -> bool {
        true
    }

    open spec fn eq_spec(&self, o: &Cacheability) -> bool {
        self.spec_deep_eq(o)
    }
}

fn fields_seq_eq(a: &Vec<CacheableField>, b: &Vec<CacheableField>) -> (r: bool)
    ensures
        r == (a@ == b@),
{
    if a.len() != b.len() {
        proof {
            assert(a@.len() != b@.len());
        }
        return false;
    }
    let mut i: usize = 0;
    while i < a.len()
        invariant
            a@.len() == b@.len(),
            0 <= i <= a@.len(),
            forall|j: int| 0 <= j < i ==> a@[j] == b@[j],
        decreases a@.len() - i,
    {
        if a[i] != b[i] {
            proof {
                assert(a@[i as int] != b@[i as int]);
            }
            return false;
        }
        i = i + 1;
    }
    proof {
        assert(a@ =~= b@);
    }
    true
}

/// A deduplicated sequence over the single-variant field set is determined
/// by the set of its elements.
pub proof fn lemma_field_seq_canonical()
    ensures
        forall|a: Seq<CacheableField>, b: Seq<CacheableField>|
            a.no_duplicates() && b.no_duplicates() && a.to_set() == b.to_set() ==> a == b,
{
    assert forall|a: Seq<CacheableField>, b: Seq<CacheableField>|
        a.no_duplicates() && b.no_duplicates() && a.to_set() == b.to_set() implies a == b by {
        lemma_field_seq_small(a);
        lemma_field_seq_small(b);
        if a.len() == 0 {
            if b.len() == 1 {
                assert(b.to_set().contains(b[0]));
                assert(a.to_set().contains(b[0]));
                assert(false);
            }
            assert(a =~= b);
        } else {
            assert(a.to_set().contains(a[0]));
            if b.len() == 0 {
                assert(b.to_set().contains(a[0]));
                assert(false);
            }
            match (a[0], b[0]) {
                (CacheableField::CacheableBlockType, CacheableField::CacheableBlockType) => {},
            }
            assert(a =~= b);
        }
    }
}

proof fn lemma_field_seq_small(a: Seq<CacheableField>)
    requires
        a.no_duplicates(),
    ensures
        a.len() <= 1,
{
    if a.len() >= 2 {
        match (a[0], a[1]) {
            (CacheableField::CacheableBlockType, CacheableField::CacheableBlockType) => {},
        }
        assert(a[0] == a[1]);
        assert(false);
    }
}

} // verus!
