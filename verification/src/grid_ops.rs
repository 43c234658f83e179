//! Copies of a layer in the cells of a grid.
use vstd::prelude::*;

use crate::document::Page;
use crate::geometry::Vec2;
use crate::grouping::{can_copy_all, copied, copy_of, duplicate_layers};
use crate::model::{group_views, IdSource, LayerId, LayerView};
use crate::scalar::Scalar;
use crate::tree::{
    holds, holds_all, home, lemma_home, lemma_position, lemma_reached_has_home,
    lemma_with_list_at, list_at, position, with_list_at,
};

verus! {

broadcast use group_views;

/// A grid: how many cells in a row, and how far apart cells begin.
#[derive(Debug, PartialEq)]
pub struct Grid<S> {
    pub cols: u32,
    pub step: Vec2<S>,
}

/// Where the `k`-th cell is, row by row, from the first.
pub open spec fn cell_offset<S: Scalar>(grid: Grid<S>, k: int) -> Vec2<S> {
    Vec2 {
        x: S::spec_ratio(k % (grid.cols as int), 1).spec_times(grid.step.x),
        y: S::spec_ratio(k / (grid.cols as int), 1).spec_times(grid.step.y),
    }
}

/// What filling the first `k` cells leads to: the layers, the ids of the copies, and the next
/// unused id. The layer itself is in the first cell.
pub open spec fn gridded<S: Scalar>(
    s: Seq<LayerView<S>>,
    id: LayerId,
    grid: Grid<S>,
    n: int,
    k: nat,
) -> (Seq<LayerView<S>>, Seq<LayerId>, int)
    decreases k,
{
    if k <= 1 {
        (s, Seq::empty(), n)
    } else {
        let (t, made, m) = gridded(s, id, grid, n, (k - 1) as nat);
        let (u, more, p) = copied(t, seq![id], cell_offset(grid, k - 1), false, m);
        (u, made + more, p)
    }
}

/// Whether every copy in turn can be named and given ids.
pub open spec fn can_grid<S: Scalar>(
    s: Seq<LayerView<S>>,
    id: LayerId,
    grid: Grid<S>,
    n: int,
    k: int,
) -> bool {
    forall|j: int|
        1 <= j < k ==> {
            let g = #[trigger] gridded(s, id, grid, n, j as nat);
            can_copy_all(g.0, seq![id], cell_offset(grid, j), false, g.2)
        }
}

/// The grid of a layer: its cells are as large as its frame, with gutters between them.
pub open spec fn grid_of<S: Scalar>(v: LayerView<S>, cols: u32, gutter_x: S, gutter_y: S) -> Grid<S> {
    let size = v.frame.spec_bounds().spec_size();
    Grid {
        cols,
        step: Vec2 { x: size.x.spec_plus(gutter_x), y: size.y.spec_plus(gutter_y) },
    }
}

/// Copies a layer into the cells of a grid of `cols` by `rows`, the layer itself in the first, and
/// returns the ids of the copies; none if there is no cell or no such layer.
#[verifier::rlimit(50)]
pub fn make_grid<S: Scalar>(
    page: &mut Page<S>,
    id: LayerId,
    cols: u32,
    rows: u32,
    gutter_x: S,
    gutter_y: S,
    source: &mut IdSource,
) -> (r: Vec<LayerId>)
    requires
        crate::tree::find(old(page)@.layers, id) matches Some(v) ==> can_grid(
            old(page)@.layers,
            id,
            grid_of(v, cols, gutter_x, gutter_y),
            old(source).next as int,
            cols * rows,
        ),
    ensures
        match crate::tree::find(old(page)@.layers, id) {
            Some(v) => if cols == 0 || rows == 0 {
                r@.len() == 0 && final(page)@ == old(page)@ && final(source).next == old(
                    source,
                ).next
            } else {
                let g = gridded(
                    old(page)@.layers,
                    id,
                    grid_of(v, cols, gutter_x, gutter_y),
                    old(source).next as int,
                    (cols * rows) as nat,
                );
                final(page)@ == old(page)@.with_layers(g.0) && r@ == g.1 && final(source).next
                    == g.2
            },
            None => r@.len() == 0 && final(page)@ == old(page)@ && final(source).next == old(
                source,
            ).next,
        },
{
    let mut made: Vec<LayerId> = Vec::new();
    if cols == 0 || rows == 0 {
        return made;
    }
    let size = match page.find(id) {
        Some(layer) => layer.frame.bounds().size(),
        None => return made,
    };
    let ghost s = page@.layers;
    let ghost n = source.next as int;
    let step = Vec2 { x: size.x.plus(gutter_x), y: size.y.plus(gutter_y) };
    let ghost grid = Grid { cols, step };
    let wanted: Vec<LayerId> = vec![id];
    assert(wanted@ =~= seq![id]);
    let mut row: u32 = 0;
    let ghost mut k: int = 0;
    assert(0 * cols == 0) by (nonlinear_arith);
    while row < rows
        invariant
            grid == (Grid { cols, step }),
            wanted@ == seq![id],
            0 < cols,
            row <= rows,
            k == row * cols,
            can_grid(s, id, grid, n, cols * rows),
            page@ == old(page)@.with_layers(gridded(s, id, grid, n, k as nat).0),
            made@ == gridded(s, id, grid, n, k as nat).1,
            source.next == gridded(s, id, grid, n, k as nat).2,
        decreases rows - row,
    {
        let mut col: u32 = 0;
        while col < cols
            invariant
                grid == (Grid { cols, step }),
                wanted@ == seq![id],
                0 < cols,
                row < rows,
                col <= cols,
                k == row * cols + col,
                can_grid(s, id, grid, n, cols * rows),
                page@ == old(page)@.with_layers(gridded(s, id, grid, n, k as nat).0),
                made@ == gridded(s, id, grid, n, k as nat).1,
                source.next == gridded(s, id, grid, n, k as nat).2,
            decreases cols - col,
        {
            assert(k % (cols as int) == col && k / (cols as int) == row && 0 <= k < cols * rows)
                by (nonlinear_arith)
                requires
                    k == row * cols + col,
                    0 <= col < cols,
                    0 <= row < rows,
            ;
            if row == 0 && col == 0 {
                assert(k == 0) by (nonlinear_arith)
                    requires
                        k == row * cols + col,
                        row == 0,
                        col == 0,
                ;
            } else {
                assert(k > 0) by (nonlinear_arith)
                    requires
                        k == row * cols + col,
                        row > 0 || col > 0,
                        0 < cols,
                        0 <= row,
                        0 <= col,
                ;
                let offset = Vec2 {
                    x: S::of_count(col as u64).times(step.x),
                    y: S::of_count(row as u64).times(step.y),
                };
                assert(offset == cell_offset(grid, k));
                let ghost g = gridded(s, id, grid, n, k as nat);
                assert(can_copy_all(g.0, seq![id], cell_offset(grid, k), false, g.2));
                let mut more = duplicate_layers(page, wanted.as_slice(), offset, source);
                let ghost before = made@;
                let ghost fresh = more@;
                made.append(&mut more);
                assert(made@ =~= before + fresh);
            }
            proof {
                k = k + 1;
            }
            col += 1;
        }
        assert(row * cols + cols == (row + 1) * cols) by (nonlinear_arith);
        row += 1;
    }
    assert(rows * cols == cols * rows) by (nonlinear_arith);
    made
}

proof fn lemma_copying_keeps_the_home<S: Scalar>(
    s: Seq<LayerView<S>>,
    id: LayerId,
    offset: Vec2<S>,
    n: int,
)
    requires
        home(s, seq![id]) is Some,
    ensures
        copied(s, seq![id], offset, false, n).1.len() == 1,
        home(copied(s, seq![id], offset, false, n).0, seq![id]) is Some,
{
    let ids = seq![id];
    assert(ids.drop_last() =~= Seq::empty());
    assert(copied(s, ids.drop_last(), offset, false, n) == (s, Seq::<LayerId>::empty(), n));
    assert(ids.last() == id && ids[0] == id);
    lemma_home(s, ids);
    let p = home(s, ids)->0;
    let list = list_at(s, p);
    lemma_position(list, id);
    let k = position(list, id);
    let longer = list.insert(k + 1, copy_of(list[k], n, offset));
    lemma_with_list_at(s, p, longer);
    let t = with_list_at(s, p, longer);
    assert(longer[k] == list[k]);
    assert(holds(longer, id));
    assert(holds_all(longer, ids));
    lemma_reached_has_home(t, ids, p);
}

/// A grid gets a copy for every cell but the first.
pub proof fn law_every_other_cell_gets_a_copy<S: Scalar>(
    s: Seq<LayerView<S>>,
    id: LayerId,
    grid: Grid<S>,
    n: int,
    k: nat,
)
    requires
        home(s, seq![id]) is Some,
        k >= 1,
    ensures
        gridded(s, id, grid, n, k).1.len() == k - 1,
        home(gridded(s, id, grid, n, k).0, seq![id]) is Some,
    decreases k,
{
    if k > 1 {
        law_every_other_cell_gets_a_copy(s, id, grid, n, (k - 1) as nat);
        let (t, made, m) = gridded(s, id, grid, n, (k - 1) as nat);
        lemma_copying_keeps_the_home(t, id, cell_offset(grid, k - 1), m);
    }
}

} // verus!
