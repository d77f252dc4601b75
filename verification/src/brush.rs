//! The spawn brush: a ring of cells, one cell thick, around an origin.
//!
//! A brush of radius `r` covers the offsets `(dx, dy)` whose squared length
//! lies between `(r - 1)²` and `r²`, both included. The ring is scanned
//! column by column, each column from its lowest row up.

use vstd::prelude::*;
use crate::cell::Cell;

verus! {

/// Whether the offset `(dx, dy)` belongs to the ring of the given radius.
pub open spec fn in_ring(dx: int, dy: int, radius: int) -> bool {
    (radius - 1) * (radius - 1) <= dx * dx + dy * dy <= radius * radius
}

/// Whether the cell at the offset `(dx, dy)` from `origin` exists on the grid.
pub open spec fn on_grid(origin: Cell, dx: int, dy: int) -> bool {
    i32::MIN <= origin.x + dx <= i32::MAX && i32::MIN <= origin.y + dy <= i32::MAX
}

/// The cell at the offset `(dx, dy)` from `origin`.
pub open spec fn offset_cell(origin: Cell, dx: int, dy: int) -> Cell {
    Cell { x: (origin.x + dx) as i32, y: (origin.y + dy) as i32 }
}

/// The ring cells of the column at offset `dx`, for the row offsets from
/// `-radius` up to, but not including, `dy_end`.
pub open spec fn ring_column(origin: Cell, radius: int, dx: int, dy_end: int) -> Seq<Cell>
    decreases dy_end + radius,
{
    if dy_end <= -radius {
        Seq::empty()
    } else {
        let lower = ring_column(origin, radius, dx, dy_end - 1);
        if in_ring(dx, dy_end - 1, radius) && on_grid(origin, dx, dy_end - 1) {
            lower.push(offset_cell(origin, dx, dy_end - 1))
        } else {
            lower
        }
    }
}

/// The ring cells of the columns at the offsets from `-radius` up to, but
/// not including, `dx_end`.
pub open spec fn ring_columns(origin: Cell, radius: int, dx_end: int) -> Seq<Cell>
    decreases dx_end + radius,
{
    if dx_end <= -radius {
        Seq::empty()
    } else {
        ring_columns(origin, radius, dx_end - 1) + ring_column(
            origin,
            radius,
            dx_end - 1,
            radius + 1,
        )
    }
}

/// The cells of the brush of the given radius around `origin`, in scan order.
pub open spec fn ring(origin: Cell, radius: int) -> Seq<Cell> {
    ring_columns(origin, radius, radius + 1)
}

/// Every cell of a ring column lies in that column, at a ring offset.
pub proof fn lemma_ring_column_members(origin: Cell, radius: int, dx: int, dy_end: int)
    ensures
        forall|k: int|
            0 <= k < ring_column(origin, radius, dx, dy_end).len() ==> {
                let cell = #[trigger] ring_column(origin, radius, dx, dy_end)[k];
                &&& cell.x == origin.x + dx
                &&& -radius <= cell.y - origin.y < dy_end
                &&& in_ring(dx, cell.y - origin.y, radius)
            },
    decreases dy_end + radius,
{
    if dy_end > -radius {
        lemma_ring_column_members(origin, radius, dx, dy_end - 1);
        let lower = ring_column(origin, radius, dx, dy_end - 1);
        let column = ring_column(origin, radius, dx, dy_end);
        assert forall|k: int| 0 <= k < column.len() implies {
            let cell = #[trigger] column[k];
            &&& cell.x == origin.x + dx
            &&& -radius <= cell.y - origin.y < dy_end
            &&& in_ring(dx, cell.y - origin.y, radius)
        } by {
            if k < lower.len() {
                assert(column[k] == lower[k]);
            } else {
                assert(column[k] == offset_cell(origin, dx, dy_end - 1));
                assert(column[k].y - origin.y == dy_end - 1);
            }
        }
    }
}

/// Every cell of a brush lies at a ring offset from the origin: its squared
/// distance is at least `(radius - 1)²` and at most `radius²`.
pub proof fn lemma_ring_members(origin: Cell, radius: int, dx_end: int)
    ensures
        forall|k: int|
            0 <= k < ring_columns(origin, radius, dx_end).len() ==> {
                let cell = #[trigger] ring_columns(origin, radius, dx_end)[k];
                in_ring(cell.x - origin.x, cell.y - origin.y, radius)
            },
    decreases dx_end + radius,
{
    if dx_end > -radius {
        lemma_ring_members(origin, radius, dx_end - 1);
        lemma_ring_column_members(origin, radius, dx_end - 1, radius + 1);
        let left = ring_columns(origin, radius, dx_end - 1);
        let column = ring_column(origin, radius, dx_end - 1, radius + 1);
        let all = ring_columns(origin, radius, dx_end);
        assert forall|k: int| 0 <= k < all.len() implies {
            let cell = #[trigger] all[k];
            in_ring(cell.x - origin.x, cell.y - origin.y, radius)
        } by {
            if k < left.len() {
                assert(all[k] == left[k]);
            } else {
                assert(all[k] == column[k - left.len()]);
                assert(all[k].x - origin.x == dx_end - 1);
            }
        }
    }
}

/// A ring column holds every ring cell of its column below `dy_end`.
proof fn lemma_ring_column_holds(origin: Cell, radius: int, dx: int, dy_end: int, dy: int)
    requires
        -radius <= dy < dy_end,
        in_ring(dx, dy, radius),
        on_grid(origin, dx, dy),
    ensures
        ring_column(origin, radius, dx, dy_end).contains(offset_cell(origin, dx, dy)),
    decreases dy_end + radius,
{
    let column = ring_column(origin, radius, dx, dy_end);
    if dy == dy_end - 1 {
        assert(column[column.len() - 1] == offset_cell(origin, dx, dy));
    } else {
        lemma_ring_column_holds(origin, radius, dx, dy_end - 1, dy);
        let lower = ring_column(origin, radius, dx, dy_end - 1);
        let k = lower.index_of(offset_cell(origin, dx, dy));
        assert(column[k] == lower[k]);
    }
}

/// The ring columns left of `dx_end` hold every ring cell of those columns.
proof fn lemma_ring_columns_hold(origin: Cell, radius: int, dx_end: int, dx: int, dy: int)
    requires
        -radius <= dx < dx_end,
        -radius <= dy <= radius,
        in_ring(dx, dy, radius),
        on_grid(origin, dx, dy),
    ensures
        ring_columns(origin, radius, dx_end).contains(offset_cell(origin, dx, dy)),
    decreases dx_end + radius,
{
    let all = ring_columns(origin, radius, dx_end);
    let left = ring_columns(origin, radius, dx_end - 1);
    let column = ring_column(origin, radius, dx_end - 1, radius + 1);
    if dx == dx_end - 1 {
        lemma_ring_column_holds(origin, radius, dx, radius + 1, dy);
        let k = column.index_of(offset_cell(origin, dx, dy));
        assert(all[left.len() + k] == column[k]);
    } else {
        lemma_ring_columns_hold(origin, radius, dx_end - 1, dx, dy);
        let k = left.index_of(offset_cell(origin, dx, dy));
        assert(all[k] == left[k]);
    }
}

/// The brush misses no cell: every cell of the grid whose offset from the
/// origin has a squared length between `(radius - 1)²` and `radius²` is one
/// of its cells.
pub proof fn lemma_ring_complete(origin: Cell, radius: int, cell: Cell)
    requires
        in_ring(cell.x - origin.x, cell.y - origin.y, radius),
    ensures
        ring(origin, radius).contains(cell),
{
    let dx = cell.x - origin.x;
    let dy = cell.y - origin.y;
    assert(radius >= 1 && -radius <= dx <= radius && -radius <= dy <= radius) by (nonlinear_arith)
        requires
            (radius - 1) * (radius - 1) <= dx * dx + dy * dy <= radius * radius,
    ;
    lemma_ring_columns_hold(origin, radius, radius + 1, dx, dy);
    assert(offset_cell(origin, dx, dy) == cell);
}

/// A square fits the machine word used for squared distances.
proof fn lemma_square_bound(a: int, bound: int)
    requires
        -bound <= a <= bound,
    ensures
        0 <= a * a <= bound * bound,
{
    assert(0 <= a * a <= bound * bound) by (nonlinear_arith)
        requires
            -bound <= a <= bound,
    ;
}

/// Lists the cells of the brush of the given radius around `origin`.
pub fn ring_cells(origin: Cell, radius: i32) -> (cells: Vec<Cell>)
    ensures
        cells@ == ring(origin, radius as int),
{
    let mut cells: Vec<Cell> = Vec::new();
    let r: i64 = radius as i64;
    proof {
        lemma_square_bound(r - 1, 0x8000_0001);
        lemma_square_bound(r as int, 0x8000_0001);
    }
    let inner: i64 = (r - 1) * (r - 1);
    let outer: i64 = r * r;
    let mut dx: i64 = -r;
    while dx <= r
        invariant
            r == radius,
            inner == (r - 1) * (r - 1),
            outer == r * r,
            dx == -r || -r <= dx <= r + 1,
            cells@ == ring_columns(origin, radius as int, dx as int),
        decreases r + 1 - dx,
    {
        let ghost before = cells@;
        let mut dy: i64 = -r;
        while dy <= r
            invariant
                r == radius,
                inner == (r - 1) * (r - 1),
                outer == r * r,
                -r <= dx <= r,
                -r <= dy <= r + 1,
                cells@ == before + ring_column(origin, radius as int, dx as int, dy as int),
            decreases r + 1 - dy,
        {
            proof {
                lemma_square_bound(dx as int, 0x7fff_ffff);
                lemma_square_bound(dy as int, 0x7fff_ffff);
            }
            let dist_sq: i64 = dx * dx + dy * dy;
            let x: i64 = origin.x as i64 + dx;
            let y: i64 = origin.y as i64 + dy;
            if inner <= dist_sq && dist_sq <= outer && i32::MIN as i64 <= x && x <= i32::MAX as i64
                && i32::MIN as i64 <= y && y <= i32::MAX as i64 {
                cells.push(Cell { x: x as i32, y: y as i32 });
            }
            dy = dy + 1;
            assert(cells@ =~= before + ring_column(origin, radius as int, dx as int, dy as int));
        }
        dx = dx + 1;
    }
    cells
}

} // verus!
