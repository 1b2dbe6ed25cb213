//! The bucket store of the spatial hash: ids filed under integer grid cells,
//! and the ids of a rectangle of cells. Which cell a position falls in is
//! arithmetic on canvas coordinates, done by the presentation layer.
use vstd::prelude::*;
use std::collections::HashMap;

verus! {

broadcast use vstd::std_specs::hash::group_hash_axioms;

/// The key under which cell `(x, y)` is stored: one integer per cell.
pub open spec fn cell_key(x: i32, y: i32) -> int {
    x as int * 0x1_0000_0000 + (y as int + 0x8000_0000)
}

/// Ids filed under grid cells, each cell keeping its ids in the order in
/// which they were filed.
pub struct CellBuckets {
    cells: HashMap<i64, Vec<u128>>,
}

/// Two cells with the same key are the same cell.
proof fn lemma_cell_key_injective(x: i32, y: i32, a: i32, b: i32)
    ensures
        cell_key(x, y) == cell_key(a, b) ==> x == a && y == b,
{
    if cell_key(x, y) == cell_key(a, b) {
        assert((x - a) * 0x1_0000_0000 == b - y);
        assert(x == a) by (nonlinear_arith)
            requires
                (x - a) * 0x1_0000_0000 == b - y,
                -0x1_0000_0000 < b - y < 0x1_0000_0000,
        ;
    }
}

/// The ids of cells `(x, y_lo) ..= (x, y_hi)`, cell after cell.
pub open spec fn column_ids(buckets: spec_fn(i32, i32) -> Seq<u128>, x: i32, y_lo: int, y_hi: int) -> Seq<
    u128,
>
    decreases y_hi - y_lo + 1,
{
    if y_hi < y_lo {
        Seq::empty()
    } else {
        column_ids(buckets, x, y_lo, y_hi - 1) + buckets(x, y_hi as i32)
    }
}

/// The ids of the cells of the rectangle `x_lo ..= x_hi` by `y_lo ..= y_hi`,
/// column after column, each column from `y_lo` up.
pub open spec fn rect_ids(
    buckets: spec_fn(i32, i32) -> Seq<u128>,
    x_lo: int,
    x_hi: int,
    y_lo: int,
    y_hi: int,
) -> Seq<u128>
    decreases x_hi - x_lo + 1,
{
    if x_hi < x_lo {
        Seq::empty()
    } else {
        rect_ids(buckets, x_lo, x_hi - 1, y_lo, y_hi) + column_ids(buckets, x_hi as i32, y_lo, y_hi)
    }
}

impl CellBuckets {
    /// The ids filed under cell `(x, y)`, oldest first.
    pub closed spec fn bucket(&self, x: i32, y: i32) -> Seq<u128> {
        let k = cell_key(x, y) as i64;
        if self.cells@.contains_key(k) {
            self.cells@[k]@
        } else {
            Seq::empty()
        }
    }

    /// All buckets, as a function of the cell.
    pub open spec fn buckets(&self) -> spec_fn(i32, i32) -> Seq<u128> {
        |x: i32, y: i32| self.bucket(x, y)
    }

    /// No id is filed anywhere.
    pub fn new() -> (c: Self)
        ensures
            forall|x: i32, y: i32| #[trigger] c.bucket(x, y) == Seq::<u128>::empty(),
    {
        CellBuckets { cells: HashMap::new() }
    }

    /// Empties every cell.
    pub fn clear(&mut self)
        ensures
            forall|x: i32, y: i32| #[trigger] final(self).bucket(x, y) == Seq::<u128>::empty(),
    {
        self.cells.clear();
    }

    /// Files `id` last in cell `(x, y)`; no other cell changes.
    pub fn insert(&mut self, x: i32, y: i32, id: u128)
        ensures
            final(self).bucket(x, y) == old(self).bucket(x, y).push(id),
            forall|a: i32, b: i32|
                !(a == x && b == y) ==> #[trigger] final(self).bucket(a, b) == old(self).bucket(a, b),
    {
        let k: i64 = x as i64 * 0x1_0000_0000i64 + (y as i64 + 0x8000_0000i64);
        assert(k == cell_key(x, y));
        let mut ids = match self.cells.remove(&k) {
            Some(v) => v,
            None => Vec::new(),
        };
        ids.push(id);
        self.cells.insert(k, ids);
        proof {
            assert forall|a: i32, b: i32| !(a == x && b == y) implies #[trigger] self.bucket(a, b)
                == old(self).bucket(a, b) by {
                lemma_cell_key_injective(x, y, a, b);
            }
        }
    }

    /// The ids of every cell with `min.0 <= x <= max.0` and
    /// `min.1 <= y <= max.1`, column by column from `min.0` up and, within a
    /// column, cell by cell from `min.1` up; empty when the range is empty.
    pub fn query(&self, min: (i32, i32), max: (i32, i32)) -> (ids: Vec<u128>)
        ensures
            ids@ == rect_ids(self.buckets(), min.0 as int, max.0 as int, min.1 as int, max.1 as int),
    {
        let mut ids: Vec<u128> = Vec::new();
        let mut x: i64 = min.0 as i64;
        let ghost b = self.buckets();
        while x <= max.0 as i64
            invariant
                min.0 <= x <= max.0 as int + 1 || (x == min.0 && max.0 < min.0),
                ids@ == rect_ids(b, min.0 as int, x - 1, min.1 as int, max.1 as int),
                b == self.buckets(),
            decreases max.0 as int + 1 - x,
        {
            let mut y: i64 = min.1 as i64;
            let ghost before = ids@;
            while y <= max.1 as i64
                invariant
                    min.0 <= x <= max.0,
                    min.1 <= y <= max.1 as int + 1 || (y == min.1 && max.1 < min.1),
                    before == rect_ids(b, min.0 as int, x - 1, min.1 as int, max.1 as int),
                    ids@ == before + column_ids(b, x as i32, min.1 as int, y - 1),
                    b == self.buckets(),
                decreases max.1 as int + 1 - y,
            {
                let k: i64 = x * 0x1_0000_0000i64 + (y + 0x8000_0000i64);
                assert(k == cell_key(x as i32, y as i32));
                let ghost prev = ids@;
                match self.cells.get(&k) {
                    Some(v) => {
                        let mut j: usize = 0;
                        while j < v.len()
                            invariant
                                0 <= j <= v@.len(),
                                ids@ == prev + v@.take(j as int),
                            decreases v@.len() - j,
                        {
                            ids.push(v[j]);
                            j = j + 1;
                            assert(ids@ =~= prev + v@.take(j as int));
                        }
                        assert(v@.take(j as int) =~= v@);
                    },
                    None => {
                        assert(prev =~= prev + Seq::<u128>::empty());
                    },
                }
                assert(ids@ =~= before + column_ids(b, x as i32, min.1 as int, y as int));
                y = y + 1;
            }
            assert(ids@ =~= rect_ids(b, min.0 as int, x as int, min.1 as int, max.1 as int));
            x = x + 1;
        }
        ids
    }
}

} // verus!
