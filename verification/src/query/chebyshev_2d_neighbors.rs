use vstd::prelude::*;
use vstd::string::StringExecFns;
use core::marker::PhantomData;
use crate::chunk::CHUNK_WIDTH;
use crate::query::{Cacheability, CacheabilityModel, Context, GenericQuery, Query};
use crate::relative_pos::RelativePos;
use crate::text::{spec_dec, u32_dec};
use crate::unique_descrip::UniqueDescrip;

verus! {

/// A query that maps an inner query over every position of the same-z
/// square of Chebyshev radius `distance`, y-outer and x-inner.
pub struct Chebyshev2DNeighbors<T, E> {
    pub distance: u8,
    pub map_expr: E,
    pub _phantom: PhantomData<T>,
}

impl<T, E: Copy> Clone for Chebyshev2DNeighbors<T, E> {
    fn clone(&self) -> (r: Self)
        ensures
            r == *self,
    {
        Chebyshev2DNeighbors {
            distance: self.distance,
            map_expr: self.map_expr,
            _phantom: PhantomData,
        }
    }
}

impl<T, E: Copy> Copy for Chebyshev2DNeighbors<T, E> {

}

/// The number of positions the square of radius `d` holds.
pub open spec fn cheb_len(d: int) -> int {
    (2 * d + 1) * (2 * d + 1)
}

/// The `i`-th position of the square of radius `d` around `pos`, y-outer
/// and x-inner.
pub open spec fn cheb_rel(pos: RelativePos, d: int, i: int) -> RelativePos {
    let side = 2 * d + 1;
    RelativePos {
        x: (pos.x as int + (i % side) - d) as i8,
        y: (pos.y as int + (i / side) - d) as i8,
        z: pos.z,
    }
}

impl<T, E> Chebyshev2DNeighbors<T, E> where T: DeepView, E: Query<T> {
    /// Build the neighborhood query. The radius is capped at 127, and the
    /// lifted cacheability distance must stay representable.
    pub fn new(distance: u8, map_expr: &E) -> (q: Chebyshev2DNeighbors<T, E>)
        requires
            distance <= 127,
            map_expr.wf(),
            distance as int + map_expr.spec_cacheability().spec_distance() <= 255,
        ensures
            q.distance == distance,
            q.map_expr == *map_expr,
            q.wf(),
    {
        Chebyshev2DNeighbors { distance, map_expr: *map_expr, _phantom: PhantomData }
    }
}

impl<T, E> UniqueDescrip for Chebyshev2DNeighbors<T, E> where T: DeepView, E: Query<T> {
    open spec fn spec_descrip(&self) -> Seq<char> {
        "Chebyshev2DNeighbors( dist:"@ + spec_dec(self.distance as nat) + ", "@
            + self.map_expr.spec_descrip() + " )"@
    }

    fn unique_descrip(&self) -> (s: String)
        ensures
            s@ == self.spec_descrip(),
    {
        let mut s = "Chebyshev2DNeighbors( dist:".to_owned();
        let d = u32_dec(self.distance as u32);
        s.append(d.as_str());
        s.append(", ");
        let inner = self.map_expr.unique_descrip();
        s.append(inner.as_str());
        s.append(" )");
        s
    }
}

impl<T, E> GenericQuery for Chebyshev2DNeighbors<T, E> where T: DeepView, E: Query<T> {
    open spec fn wf(&self) -> bool {
        &&& self.distance <= 127
        &&& self.map_expr.wf()
        &&& self.distance as int + self.map_expr.spec_cacheability().spec_distance() <= 255
    }

    open spec fn reach(&self) -> int {
        self.distance as int + self.map_expr.reach()
    }

    open spec fn spec_cacheability(&self) -> CacheabilityModel {
        match self.map_expr.spec_cacheability() {
            CacheabilityModel::DontCache => CacheabilityModel::DontCache,
            CacheabilityModel::Forever => CacheabilityModel::Forever,
            inner => CacheabilityModel::UntilChangeInChebyshevNeighborhood {
                distance: self.distance as int + inner.spec_distance(),
                fields: inner.spec_fields(),
            },
        }
    }

    proof fn reach_nonneg(&self) {
        self.map_expr.reach_nonneg();
    }

    /// The inner cacheability, lifted by this query's radius: a change
    /// within `distance + inner distance` can reach an input of some mapped
    /// position.
    fn cacheability(&self) -> (c: Cacheability)
        ensures
            c@ == self.spec_cacheability(),
            c.wf(),
    {
        let inner = self.map_expr.cacheability();
        match inner {
            Cacheability::DontCache => Cacheability::DontCache,
            Cacheability::Forever => Cacheability::Forever,
            _ => {
                let d = self.distance + inner.distance();
                Cacheability::UntilChangeInChebyshevNeighborhood {
                    distance: d,
                    fields: inner.fields(),
                }
            },
        }
    }
}

impl<T, E> Query<Vec<T>> for Chebyshev2DNeighbors<T, E> where T: DeepView, E: Query<T> {
    open spec fn spec_eval(
        &self,
        ctx: spec_fn(RelativePos) -> crate::block::BlockType,
        pos: RelativePos,
    ) -> Seq<<T as DeepView>::V> {
        Seq::new(
            cheb_len(self.distance as int) as nat,
            |i: int| self.map_expr.spec_eval(ctx, cheb_rel(pos, self.distance as int, i)),
        )
    }

    fn eval<C: Context>(&self, n: &C, pos: RelativePos) -> (r: Vec<T>)
        ensures
            r.deep_view() == self.spec_eval(n.model(), pos),
    {
        proof {
            self.map_expr.reach_nonneg();
        }
        proof {
            assert(self.distance < 32) by {
                assert(2 * self.reach() < 64);
            }
        }
        let d = self.distance as i8;
        let side: usize = 2 * (d as usize) + 1;
        let ghost di = d as int;
        proof {
            assert(di == self.distance as int);
            assert(di <= self.reach());
        }
        let mut r: Vec<T> = Vec::new();
        let mut y_offset: i8 = -d;
        proof {
            assert(y_offset as int == -di);
            assert((y_offset as int + di) * (2 * di + 1) == 0) by (nonlinear_arith)
                requires
                    y_offset as int + di == 0,
            ;
        }
        while y_offset <= d
            invariant
                -di <= y_offset as int <= di + 1,
                0 <= di <= 31,
                di == self.distance as int,
                di == d as int,
                side == 2 * di + 1,
                self.wf(),
                self.map_expr.reach() >= 0,
                -(CHUNK_WIDTH as int) < pos.x as int - self.reach(),
                pos.x as int + self.reach() < (CHUNK_WIDTH as int),
                -(CHUNK_WIDTH as int) < pos.y as int - self.reach(),
                pos.y as int + self.reach() < (CHUNK_WIDTH as int),
                -(CHUNK_WIDTH as int) < (pos.z as int) < (CHUNK_WIDTH as int),
                r@.len() == (y_offset as int + di) * (2 * di + 1),
                forall|i: int|
                    0 <= i < r@.len() ==> (#[trigger] r@[i]).deep_view() == self.map_expr.spec_eval(
                        n.model(),
                        cheb_rel(pos, di, i),
                    ),
            decreases di + 1 - y_offset,
        {
            let mut x_offset: i8 = -d;
            proof {
                assert(x_offset as int == -di);
                assert((y_offset as int + di) * (2 * di + 1) + (x_offset as int + di) == (y_offset
                    as int + di) * (2 * di + 1));
            }
            while x_offset <= d
                invariant
                    -di <= y_offset as int <= di,
                    -di <= x_offset as int <= di + 1,
                    0 <= di <= 31,
                    di == self.distance as int,
                    di == d as int,
                    side == 2 * di + 1,
                    self.wf(),
                    self.map_expr.reach() >= 0,
                    -(CHUNK_WIDTH as int) < pos.x as int - self.reach(),
                    pos.x as int + self.reach() < (CHUNK_WIDTH as int),
                    -(CHUNK_WIDTH as int) < pos.y as int - self.reach(),
                    pos.y as int + self.reach() < (CHUNK_WIDTH as int),
                    -(CHUNK_WIDTH as int) < (pos.z as int) < (CHUNK_WIDTH as int),
                    r@.len() == (y_offset as int + di) * (2 * di + 1) + (x_offset as int + di),
                    forall|i: int|
                        0 <= i < r@.len() ==> (#[trigger] r@[i]).deep_view()
                            == self.map_expr.spec_eval(n.model(), cheb_rel(pos, di, i)),
                decreases di + 1 - x_offset,
            {
                proof {
                    assert(di <= self.reach());
                }
                let rel = RelativePos::new(x_offset + pos.x, y_offset + pos.y, pos.z);
                let v = self.map_expr.eval(n, rel);
                proof {
                    let i = r@.len() as int;
                    lemma_grid_index(y_offset as int + di, x_offset as int + di, 2 * di + 1);
                    assert(cheb_rel(pos, di, i) == rel);
                }
                r.push(v);
                x_offset = x_offset + 1;
            }
            proof {
                assert((y_offset as int + di) * (2 * di + 1) + (2 * di + 1) == (y_offset as int + di
                    + 1) * (2 * di + 1)) by (nonlinear_arith);
            }
            y_offset = y_offset + 1;
        }
        proof {
            assert((2 * di + 1) * (2 * di + 1) == cheb_len(di));
            assert(r.deep_view() =~= self.spec_eval(n.model(), pos));
        }
        r
    }
}

proof fn lemma_grid_index(row: int, col: int, side: int)
    requires
        0 <= col < side,
        0 <= row,
    ensures
        (row * side + col) % side == col,
        (row * side + col) / side == row,
{
    assert((row * side + col) % side == col && (row * side + col) / side == row)
        by (nonlinear_arith)
        requires
            0 <= col < side,
            0 <= row,
    ;
}

} // verus!
