//! The rectangular inventory grid: which item id occupies which cell, and
//! where an item of a given shape fits.
use vstd::prelude::*;

verus! {

/// One horizontal run of cells that an item covers, relative to the item's origin.
#[derive(Debug, PartialEq, Eq, Clone, Copy)]
pub struct RowSpace {
    /// How far from the origin this run starts, to the right.
    pub col_offset: usize,
    /// How far from the origin this run lies, downwards.
    pub row_offset: usize,
    /// How many cells of the row the run covers.
    pub growth: usize,
}

/// The shape of an item: the runs of cells it covers.
#[derive(Debug, PartialEq, Eq, Clone)]
pub struct ItemSize {
    pub space: Vec<RowSpace>,
}

/// What a look at (or a change of) the grid found.
#[derive(Debug)]
pub enum InventoryResult {
    /// The item was written into these cells.
    Inserted(Vec<usize>),
    /// These cells are free for the item.
    Free(Vec<usize>),
    /// Some run of the item falls outside the grid.
    OutsideRange,
    /// These cells are held by other items (cell, id).
    Taken(Vec<(usize, u32)>),
}

/// A rectangular grid of cells, each empty or holding an item id, stored row by row.
#[derive(Debug, Default)]
pub struct Grid {
    pub array: Vec<Option<u32>>,
    pub width: usize,
    pub height: usize,
}

// ---------------------------------------------------------------------------
// The model.
// ---------------------------------------------------------------------------

/// The grid holds exactly `width * height` cells.
pub open spec fn grid_wf(array: Seq<Option<u32>>, width: int, height: int) -> bool {
    array.len() == width * height
}

/// Index of the first cell of run `r` when the item's origin is cell `at`.
pub open spec fn row_first_cell(width: int, at: int, r: RowSpace) -> int {
    (at / width + r.row_offset) * width + at % width + r.col_offset
}

/// Run `r`, placed with the origin at `at`, leaves the grid (downwards or to the right).
pub open spec fn row_outside(width: int, height: int, at: int, r: RowSpace) -> bool {
    at / width + r.row_offset >= height || at % width + r.col_offset + r.growth > width
}

/// The index computations for run `r` placed at `at` stay within `usize`.
pub open spec fn row_arith_ok(width: int, height: int, at: int, r: RowSpace) -> bool {
    &&& at / width + r.row_offset <= usize::MAX
    &&& at % width + r.col_offset <= usize::MAX
    &&& (at / width + r.row_offset < height ==> at % width + r.col_offset + r.growth
        <= usize::MAX)
}

/// Every run that is examined (all runs up to the first one outside the grid)
/// can be placed at `at` without leaving `usize`.
pub open spec fn size_arith_ok(width: int, height: int, at: int, rows: Seq<RowSpace>) -> bool {
    forall|i: int|
        #![trigger rows[i]]
        0 <= i < rows.len() && (forall|j: int|
            0 <= j < i ==> !row_outside(width, height, at, #[trigger] rows[j])) ==> row_arith_ok(
            width,
            height,
            at,
            rows[i],
        )
}

/// Some run of the item leaves the grid when the origin is at `at`.
pub open spec fn size_outside(width: int, height: int, at: int, rows: Seq<RowSpace>) -> bool {
    exists|i: int| 0 <= i < rows.len() && row_outside(width, height, at, #[trigger] rows[i])
}

/// The cells `first .. first + n`.
pub open spec fn cell_range(first: int, n: nat) -> Seq<usize> {
    Seq::new(n, |k: int| (first + k) as usize)
}

/// The cells of run `r` with the origin at `at`, left to right.
pub open spec fn row_cells(width: int, at: int, r: RowSpace) -> Seq<usize> {
    cell_range(row_first_cell(width, at, r), r.growth as nat)
}

/// The cells of all runs, run after run.
pub open spec fn size_cells(width: int, at: int, rows: Seq<RowSpace>) -> Seq<usize>
    decreases rows.len(),
{
    if rows.len() == 0 {
        Seq::empty()
    } else {
        size_cells(width, at, rows.drop_last()) + row_cells(width, at, rows.last())
    }
}

/// A cell counts as free for `item` when it is empty or already holds `item` itself.
pub open spec fn free_for(cell: Option<u32>, item: Option<u32>) -> bool {
    match cell {
        None => true,
        Some(id) => item == Some(id),
    }
}

/// The cells among `first .. first + n` that are held by something other than `item`,
/// with the id that holds each, in increasing order.
pub open spec fn taken_in(array: Seq<Option<u32>>, item: Option<u32>, first: int, n: nat) -> Seq<
    (usize, u32),
>
    decreases n,
{
    if n == 0 {
        Seq::empty()
    } else {
        let prev = taken_in(array, item, first, (n - 1) as nat);
        let c = first + n - 1;
        if free_for(array[c], item) {
            prev
        } else {
            prev.push((c as usize, array[c].unwrap()))
        }
    }
}

/// The cells held by other items, run after run.
pub open spec fn size_taken(
    array: Seq<Option<u32>>,
    item: Option<u32>,
    width: int,
    at: int,
    rows: Seq<RowSpace>,
) -> Seq<(usize, u32)>
    decreases rows.len(),
{
    if rows.len() == 0 {
        Seq::empty()
    } else {
        size_taken(array, item, width, at, rows.drop_last()) + taken_in(
            array,
            item,
            row_first_cell(width, at, rows.last()),
            rows.last().growth as nat,
        )
    }
}

/// The item fits at `at`: no run leaves the grid and no cell is held by another item.
pub open spec fn fits_at(
    array: Seq<Option<u32>>,
    width: int,
    height: int,
    at: int,
    rows: Seq<RowSpace>,
    item: Option<u32>,
) -> bool {
    !size_outside(width, height, at, rows) && size_taken(array, item, width, at, rows).len() == 0
}

/// The item fits with its origin at row `row`, column `col`.
pub open spec fn fits_at_position(
    array: Seq<Option<u32>>,
    width: int,
    height: int,
    rows: Seq<RowSpace>,
    row: int,
    col: int,
) -> bool {
    fits_at(array, width, height, row * width + col, rows, None)
}

/// `array` with every cell listed in `ids` set to `value`.
pub open spec fn fill_cells(array: Seq<Option<u32>>, ids: Seq<usize>, value: Option<u32>) -> Seq<
    Option<u32>,
> {
    Seq::new(array.len(), |i: int| if ids.contains(i as usize) { value } else { array[i] })
}

/// `array` with every cell that holds `id` emptied.
pub open spec fn free_id(array: Seq<Option<u32>>, id: u32) -> Seq<Option<u32>> {
    Seq::new(array.len(), |i: int| if array[i] == Some(id) { None } else { array[i] })
}

/// The width of the smallest rectangle, anchored at the origin, that holds all runs.
pub open spec fn rect_width(rows: Seq<RowSpace>) -> int
    decreases rows.len(),
{
    if rows.len() == 0 {
        0
    } else {
        let prev = rect_width(rows.drop_last());
        let here = rows.last().col_offset + rows.last().growth;
        if here > prev {
            here
        } else {
            prev
        }
    }
}

/// The height of the smallest rectangle, anchored at the origin, that holds all runs.
pub open spec fn rect_height(rows: Seq<RowSpace>) -> int
    decreases rows.len(),
{
    if rows.len() == 0 {
        0
    } else {
        let prev = rect_height(rows.drop_last());
        let here = rows.last().row_offset + 1;
        if here > prev {
            here
        } else {
            prev
        }
    }
}

/// The bounding rectangle of the runs can be computed in `usize`.
pub open spec fn size_fits_usize(rows: Seq<RowSpace>) -> bool {
    forall|i: int|
        0 <= i < rows.len() ==> #[trigger] rows[i].row_offset < usize::MAX && rows[i].col_offset
            + rows[i].growth <= usize::MAX
}

impl Grid {
    pub open spec fn wf(&self) -> bool {
        grid_wf(self.array@, self.width as int, self.height as int)
    }

    /// Creates an empty grid of `width * height` cells.
    pub fn new(width: usize, height: usize) -> (grid: Self)
        requires
            width * height <= usize::MAX,
        ensures
            grid.wf(),
            grid.width == width,
            grid.height == height,
            grid.array@ == Seq::new((width * height) as nat, |i: int| None::<u32>),
    {
        let n = width * height;
        let mut array: Vec<Option<u32>> = Vec::with_capacity(n);
        let mut i: usize = 0;
        while i < n
            invariant
                i <= n,
                array@ == Seq::new(i as nat, |k: int| None::<u32>),
            decreases n - i,
        {
            array.push(None);
            i = i + 1;
        }
        Self { array, width, height }
    }

    /// Empties the given cells.
    pub fn clear(&mut self, ids: &[usize])
        requires
            forall|i: int| 0 <= i < ids@.len() ==> #[trigger] ids@[i] < old(self).array@.len(),
        ensures
            final(self).array@ == fill_cells(old(self).array@, ids@, None),
            final(self).width == old(self).width,
            final(self).height == old(self).height,
    {
        self.fill(ids, None);
    }

    /// Empties every cell that holds `id`.
    pub fn free(&mut self, id: u32)
        ensures
            final(self).array@ == free_id(old(self).array@, id),
            final(self).width == old(self).width,
            final(self).height == old(self).height,
    {
        let n = self.array.len();
        let mut i: usize = 0;
        while i < n
            invariant
                n == old(self).array@.len(),
                i <= n,
                self.width == old(self).width,
                self.height == old(self).height,
                self.array@.len() == n,
                forall|k: int|
                    0 <= k < n ==> #[trigger] self.array@[k] == if k < i {
                        free_id(old(self).array@, id)[k]
                    } else {
                        old(self).array@[k]
                    },
            decreases n - i,
        {
            if let Some(held) = self.array[i] {
                if held == id {
                    self.array.set(i, None);
                }
            }
            i = i + 1;
        }
        assert(self.array@ =~= free_id(old(self).array@, id));
    }

    /// Writes `item_id` into the given cells, whatever they held.
    pub fn force_insert(&mut self, item_id: u32, ids: &[usize])
        requires
            forall|i: int| 0 <= i < ids@.len() ==> #[trigger] ids@[i] < old(self).array@.len(),
        ensures
            final(self).array@ == fill_cells(old(self).array@, ids@, Some(item_id)),
            final(self).width == old(self).width,
            final(self).height == old(self).height,
    {
        self.fill(ids, Some(item_id));
    }

    fn fill(&mut self, ids: &[usize], value: Option<u32>)
        requires
            forall|i: int| 0 <= i < ids@.len() ==> #[trigger] ids@[i] < old(self).array@.len(),
        ensures
            final(self).array@ == fill_cells(old(self).array@, ids@, value),
            final(self).width == old(self).width,
            final(self).height == old(self).height,
    {
        let n = self.array.len();
        let mut k: usize = 0;
        while k < ids.len()
            invariant
                k <= ids@.len(),
                n == old(self).array@.len(),
                forall|i: int| 0 <= i < ids@.len() ==> #[trigger] ids@[i] < old(self).array@.len(),
                self.width == old(self).width,
                self.height == old(self).height,
                self.array@ == fill_cells(old(self).array@, ids@.take(k as int), value),
            decreases ids@.len() - k,
        {
            let id = ids[k];
            proof {
                let before = ids@.take(k as int);
                let after = ids@.take(k + 1);
                assert forall|x: usize| after.contains(x) <==> (before.contains(x) || x == id) by {
                    if after.contains(x) {
                        let j = choose|j: int| 0 <= j < after.len() && #[trigger] after[j] == x;
                        if j < k {
                            assert(before[j] == x);
                        }
                    }
                    if before.contains(x) {
                        let j = choose|j: int| 0 <= j < before.len() && #[trigger] before[j] == x;
                        assert(after[j] == x);
                    }
                    if x == id {
                        assert(after[k as int] == x);
                    }
                }
            }
            let ghost prev = self.array@;
            self.array.set(id, value);
            proof {
                let after = ids@.take(k + 1);
                assert forall|i: int| 0 <= i < n implies #[trigger] self.array@[i]
                    == fill_cells(old(self).array@, after, value)[i] by {
                    assert(after.contains(i as usize) <==> (ids@.take(k as int).contains(
                        i as usize,
                    ) || i as usize == id));
                    if i != id {
                        assert(prev[i] == self.array@[i]);
                    }
                }
            }
            k = k + 1;
            assert(self.array@ =~= fill_cells(old(self).array@, ids@.take(k as int), value));
        }
        assert(ids@.take(ids@.len() as int) =~= ids@);
    }
}


/// A cell on a row below `height` and a column below `width` lies inside the grid.
proof fn lemma_cell_in_grid(row: int, col: int, width: int, height: int)
    requires
        0 <= row < height,
        0 <= col < width,
    ensures
        0 <= row * width + col < width * height,
{
    assert(row * width + col < width * height) by (nonlinear_arith)
        requires
            0 <= row < height,
            0 <= col < width,
    ;
    assert(0 <= row * width) by (nonlinear_arith)
        requires
            0 <= row,
            0 <= col < width,
    ;
}

impl Grid {
    /// Looks at the cells of one run with the item's origin at `at`.
    fn check_row_at(&self, item_id: Option<u32>, at: usize, row_size: &RowSpace) -> (result:
        InventoryResult)
        requires
            self.wf(),
            self.width > 0,
            row_arith_ok(self.width as int, self.height as int, at as int, *row_size),
        ensures
            match result {
                InventoryResult::OutsideRange => row_outside(
                    self.width as int,
                    self.height as int,
                    at as int,
                    *row_size,
                ),
                InventoryResult::Free(f) => {
                    &&& !row_outside(self.width as int, self.height as int, at as int, *row_size)
                    &&& taken_in(
                        self.array@,
                        item_id,
                        row_first_cell(self.width as int, at as int, *row_size),
                        row_size.growth as nat,
                    ).len() == 0
                    &&& f@ == row_cells(self.width as int, at as int, *row_size)
                },
                InventoryResult::Taken(t) => {
                    &&& !row_outside(self.width as int, self.height as int, at as int, *row_size)
                    &&& t@ == taken_in(
                        self.array@,
                        item_id,
                        row_first_cell(self.width as int, at as int, *row_size),
                        row_size.growth as nat,
                    )
                    &&& t@.len() > 0
                },
                InventoryResult::Inserted(_) => false,
            },
    {
        let len = self.array.len();
        let row = at / self.width + row_size.row_offset;
        let col_start = at % self.width + row_size.col_offset;
        if row >= self.height || col_start + row_size.growth > self.width {
            return InventoryResult::OutsideRange;
        }
        let ghost first = row_first_cell(self.width as int, at as int, *row_size);
        proof {
            lemma_cell_in_grid(row as int, 0, self.width as int, self.height as int);
        }
        let base = row * self.width;
        let end = col_start + row_size.growth;
        let mut free: Vec<usize> = Vec::with_capacity(row_size.growth);
        let mut taken: Vec<(usize, u32)> = Vec::with_capacity(row_size.growth);
        let mut x = col_start;
        while x < end
            invariant
                self.wf(),
                len == self.array@.len(),
                col_start <= x <= end <= self.width,
                row < self.height,
                base == row * self.width,
                first == base + col_start,
                end == col_start + row_size.growth,
                taken@ == taken_in(self.array@, item_id, first, (x - col_start) as nat),
                taken@.len() == 0 ==> free@ == cell_range(first, (x - col_start) as nat),
            decreases end - x,
        {
            proof {
                lemma_cell_in_grid(row as int, x as int, self.width as int, self.height as int);
            }
            let coord = x + base;
            let ghost k = (x - col_start) as nat;
            assert(coord == first + k);
            match self.array[coord] {
                Some(id) => {
                    let mine = match item_id {
                        Some(current_item) => current_item == id,
                        None => false,
                    };
                    if mine {
                        free.push(coord);
                    } else {
                        taken.push((coord, id));
                    }
                },
                None => {
                    free.push(coord);
                },
            }
            x = x + 1;
            assert(taken_in(self.array@, item_id, first, (k + 1) as nat) == if free_for(
                self.array@[first + k],
                item_id,
            ) {
                taken_in(self.array@, item_id, first, k)
            } else {
                taken_in(self.array@, item_id, first, k).push(
                    ((first + k) as usize, self.array@[first + k].unwrap()),
                )
            });
            assert(taken@.len() == 0 ==> free@ =~= cell_range(first, (x - col_start) as nat));
        }
        if taken.len() == 0 {
            return InventoryResult::Free(free);
        }
        InventoryResult::Taken(taken)
    }
}


/// What `check_at` answers for an item of shape `rows` with its origin at `at`:
/// `OutsideRange` exactly when a run leaves the grid; otherwise `Free` with every
/// covered cell when no covered cell is held by another item, else `Taken` with
/// the covered cells held by other items.
pub open spec fn check_outcome(
    result: InventoryResult,
    array: Seq<Option<u32>>,
    width: int,
    height: int,
    at: int,
    rows: Seq<RowSpace>,
    item: Option<u32>,
) -> bool {
    match result {
        InventoryResult::OutsideRange => size_outside(width, height, at, rows),
        InventoryResult::Free(f) => {
            &&& !size_outside(width, height, at, rows)
            &&& size_taken(array, item, width, at, rows).len() == 0
            &&& f@ == size_cells(width, at, rows)
        },
        InventoryResult::Taken(t) => {
            &&& !size_outside(width, height, at, rows)
            &&& t@ == size_taken(array, item, width, at, rows)
            &&& t@.len() > 0
        },
        InventoryResult::Inserted(_) => false,
    }
}

/// What inserting item `id` of shape `rows` with its origin at `at` answers and does
/// (`array` before, `after` afterwards): `Inserted` with the covered cells, now
/// holding `id`, when it fits there; otherwise the answer of a check (see
/// `check_outcome`) and the grid unchanged.
pub open spec fn insert_outcome(
    result: InventoryResult,
    array: Seq<Option<u32>>,
    after: Seq<Option<u32>>,
    width: int,
    height: int,
    at: int,
    rows: Seq<RowSpace>,
    id: u32,
) -> bool {
    match result {
        InventoryResult::Inserted(v) => {
            &&& fits_at(array, width, height, at, rows, Some(id))
            &&& v@ == size_cells(width, at, rows)
            &&& after == fill_cells(array, v@, Some(id))
        },
        InventoryResult::Free(_) => false,
        _ => {
            &&& check_outcome(result, array, width, height, at, rows, Some(id))
            &&& after == array
        },
    }
}

/// A check and an insertion agree: on the same grid, for the same item and place, the
/// check finds the cells free exactly when the insertion takes them, and then names
/// the cells the insertion fills; when the check finds cells taken or the item
/// outside the grid, the insertion answers the same and changes nothing.
pub proof fn lemma_check_agrees_with_insert(
    checked: InventoryResult,
    inserted: InventoryResult,
    array: Seq<Option<u32>>,
    after: Seq<Option<u32>>,
    width: int,
    height: int,
    at: int,
    rows: Seq<RowSpace>,
    id: u32,
)
    requires
        check_outcome(checked, array, width, height, at, rows, Some(id)),
        insert_outcome(inserted, array, after, width, height, at, rows, id),
    ensures
        checked is Free <==> inserted is Inserted,
        checked matches InventoryResult::Free(f) ==> (inserted matches InventoryResult::Inserted(v)
            && v@ == f@ && after == fill_cells(array, f@, Some(id))),
        checked is OutsideRange <==> inserted is OutsideRange,
        checked matches InventoryResult::Taken(t) ==> (inserted matches InventoryResult::Taken(t2)
            && t2@ == t@ && after == array),
{
}

impl Grid {
    /// Looks at every cell that an item of shape `size` would cover with its
    /// origin at `at`. Cells that hold `item_id` itself count as free.
    pub fn check_at(&self, at: usize, size: &ItemSize, item_id: Option<u32>) -> (result:
        InventoryResult)
        requires
            self.wf(),
            self.width > 0 || size.space@.len() == 0,
            size_arith_ok(self.width as int, self.height as int, at as int, size.space@),
        ensures
            check_outcome(
                result,
                self.array@,
                self.width as int,
                self.height as int,
                at as int,
                size.space@,
                item_id,
            ),
    {
        let ghost w = self.width as int;
        let ghost h = self.height as int;
        let ghost rows = size.space@;
        let mut free: Vec<usize> = Vec::new();
        let mut taken: Vec<(usize, u32)> = Vec::new();
        let mut i: usize = 0;
        while i < size.space.len()
            invariant
                self.wf(),
                self.width > 0 || rows.len() == 0,
                rows == size.space@,
                w == self.width,
                h == self.height,
                size_arith_ok(w, h, at as int, rows),
                i <= rows.len(),
                forall|j: int| 0 <= j < i ==> !row_outside(w, h, at as int, #[trigger] rows[j]),
                taken@ == size_taken(self.array@, item_id, w, at as int, rows.take(i as int)),
                taken@.len() == 0 ==> free@ == size_cells(w, at as int, rows.take(i as int)),
            decreases rows.len() - i,
        {
            let row_space = &size.space[i];
            assert(row_arith_ok(w, h, at as int, rows[i as int]));
            let ghost before = rows.take(i as int);
            let ghost after = rows.take(i + 1);
            assert(after.drop_last() =~= before);
            assert(after.last() == rows[i as int]);
            match self.check_row_at(item_id, at, row_space) {
                InventoryResult::Free(f) => {
                    let mut f = f;
                    free.append(&mut f);
                },
                InventoryResult::OutsideRange => {
                    assert(row_outside(w, h, at as int, rows[i as int]));
                    return InventoryResult::OutsideRange;
                },
                InventoryResult::Taken(t) => {
                    let mut t = t;
                    taken.append(&mut t);
                },
                InventoryResult::Inserted(_) => {
                    assert(false);
                    return InventoryResult::OutsideRange;
                },
            }
            i = i + 1;
        }
        assert(rows.take(rows.len() as int) =~= rows);
        if taken.len() == 0 {
            return InventoryResult::Free(free);
        }
        InventoryResult::Taken(taken)
    }
}


/// Every cell covered by an item that stays inside the grid is a cell of the grid.
pub proof fn lemma_size_cells_in_grid(width: int, height: int, at: int, rows: Seq<RowSpace>)
    requires
        width > 0,
        at >= 0,
        width * height <= usize::MAX,
        !size_outside(width, height, at, rows),
    ensures
        forall|i: int|
            0 <= i < size_cells(width, at, rows).len() ==> (#[trigger] size_cells(
                width,
                at,
                rows,
            )[i] as int) < width * height,
    decreases rows.len(),
{
    if rows.len() > 0 {
        let prefix = rows.drop_last();
        assert forall|i: int| 0 <= i < prefix.len() implies !row_outside(
            width,
            height,
            at,
            #[trigger] prefix[i],
        ) by {
            assert(prefix[i] == rows[i]);
        }
        lemma_size_cells_in_grid(width, height, at, prefix);
        let r = rows.last();
        assert(!row_outside(width, height, at, rows[rows.len() - 1]));
        let cells = size_cells(width, at, rows);
        let before = size_cells(width, at, prefix);
        assert forall|i: int| 0 <= i < cells.len() implies (#[trigger] cells[i] as int) < width
            * height by {
            if i >= before.len() {
                let k = i - before.len();
                let row = at / width + r.row_offset;
                let col = at % width + r.col_offset + k;
                lemma_cell_in_grid(row, col, width, height);
                assert(cells[i] == row_cells(width, at, r)[k]);
            } else {
                assert(cells[i] == before[i]);
            }
        }
    }
}

impl Grid {
    /// Puts item `item_id` of shape `size` with its origin at `at` when every cell it
    /// would cover is free (or already its own); otherwise leaves the grid as it was
    /// and answers as `check_at` does.
    pub fn insert_item_at(&mut self, item_id: u32, at: usize, size: &ItemSize) -> (result:
        InventoryResult)
        requires
            old(self).wf(),
            old(self).width > 0 || size.space@.len() == 0,
            size_arith_ok(old(self).width as int, old(self).height as int, at as int, size.space@),
        ensures
            final(self).width == old(self).width,
            final(self).height == old(self).height,
            insert_outcome(
                result,
                old(self).array@,
                final(self).array@,
                old(self).width as int,
                old(self).height as int,
                at as int,
                size.space@,
                item_id,
            ),
    {
        let result = self.check_at(at, size, Some(item_id));
        match result {
            InventoryResult::Free(ids) => {
                let len = self.array.len();
                proof {
                    if size.space@.len() > 0 {
                        lemma_size_cells_in_grid(
                            self.width as int,
                            self.height as int,
                            at as int,
                            size.space@,
                        );
                    } else {
                        assert(ids@.len() == 0);
                    }
                    assert forall|i: int| 0 <= i < ids@.len() implies #[trigger] ids@[i]
                        < self.array@.len() by {
                        assert(ids@[i] == size_cells(self.width as int, at as int, size.space@)[i]);
                    }
                }
                self.force_insert(item_id, ids.as_slice());
                InventoryResult::Inserted(ids)
            },
            _ => result,
        }
    }
}


/// Every run lies within the bounding rectangle of all runs.
pub proof fn lemma_rows_in_rect(rows: Seq<RowSpace>)
    ensures
        rect_width(rows) >= 0,
        rect_height(rows) >= 0,
        rows.len() > 0 ==> rect_height(rows) >= 1,
        forall|i: int|
            0 <= i < rows.len() ==> #[trigger] rows[i].col_offset + rows[i].growth <= rect_width(
                rows,
            ) && rows[i].row_offset + 1 <= rect_height(rows),
    decreases rows.len(),
{
    if rows.len() > 0 {
        let prefix = rows.drop_last();
        lemma_rows_in_rect(prefix);
        assert forall|i: int| 0 <= i < rows.len() implies #[trigger] rows[i].col_offset
            + rows[i].growth <= rect_width(rows) && rows[i].row_offset + 1 <= rect_height(rows) by {
            if i < prefix.len() {
                assert(prefix[i] == rows[i]);
            }
        }
    }
}

impl ItemSize {
    /// Returns the width and the height of the smallest rectangle, anchored at the
    /// item's origin, that holds all of its runs.
    pub fn total_rectangular_space_taken(&self) -> (wh: (usize, usize))
        requires
            size_fits_usize(self.space@),
        ensures
            wh.0 == rect_width(self.space@),
            wh.1 == rect_height(self.space@),
    {
        let ghost rows = self.space@;
        let mut max_row: usize = 0;
        let mut max_col: usize = 0;
        let mut i: usize = 0;
        while i < self.space.len()
            invariant
                rows == self.space@,
                size_fits_usize(rows),
                i <= rows.len(),
                max_row == rect_height(rows.take(i as int)),
                max_col == rect_width(rows.take(i as int)),
            decreases rows.len() - i,
        {
            let space = &self.space[i];
            assert(rows.take(i + 1).drop_last() =~= rows.take(i as int));
            assert(rows.take(i + 1).last() == rows[i as int]);
            let row_end = space.row_offset + 1;
            if row_end > max_row {
                max_row = row_end;
            }
            let col_end = space.col_offset + space.growth;
            if col_end > max_col {
                max_col = col_end;
            }
            i = i + 1;
        }
        assert(rows.take(rows.len() as int) =~= rows);
        (max_col, max_row)
    }

    /// Creates a `width` by `height` rectangle: one run of `width` cells per row.
    pub fn new_rectangular(width: usize, height: usize) -> (size: Self)
        ensures
            size.space@.len() == height,
            forall|i: int|
                0 <= i < height ==> #[trigger] size.space@[i] == (RowSpace {
                    col_offset: 0,
                    row_offset: i as usize,
                    growth: width,
                }),
    {
        let mut taken_space: Vec<RowSpace> = Vec::with_capacity(width);
        let mut row_i: usize = 0;
        while row_i < height
            invariant
                row_i <= height,
                taken_space@.len() == row_i,
                forall|i: int|
                    0 <= i < row_i ==> #[trigger] taken_space@[i] == (RowSpace {
                        col_offset: 0,
                        row_offset: i as usize,
                        growth: width,
                    }),
            decreases height - row_i,
        {
            taken_space.push(RowSpace { col_offset: 0, row_offset: row_i, growth: width });
            row_i = row_i + 1;
        }
        ItemSize { space: taken_space }
    }
}


/// The item fits at (`row`, `col`), and at no position that comes earlier in
/// row-major order among the positions where its bounding rectangle lies in the grid.
pub open spec fn first_fit(
    array: Seq<Option<u32>>,
    width: int,
    height: int,
    rows: Seq<RowSpace>,
    row: int,
    col: int,
) -> bool {
    &&& fits_at_position(array, width, height, rows, row, col)
    &&& forall|r: int, c: int|
        0 <= r && 0 <= c <= width - rect_width(rows) && (r < row || (r == row && c < col))
            ==> !#[trigger] fits_at_position(array, width, height, rows, r, c)
}

/// `cells` are the cells that the item covers at its first fit.
pub open spec fn first_free_cells(
    array: Seq<Option<u32>>,
    width: int,
    height: int,
    rows: Seq<RowSpace>,
    cells: Seq<usize>,
) -> bool {
    exists|row: int, col: int|
        0 <= row <= height - rect_height(rows) && 0 <= col <= width - rect_width(rows)
            && #[trigger] first_fit(array, width, height, rows, row, col) && cells == size_cells(
            width,
            row * width + col,
            rows,
        )
}

/// The item fits at no position where its bounding rectangle lies in the grid.
pub open spec fn fits_nowhere(
    array: Seq<Option<u32>>,
    width: int,
    height: int,
    rows: Seq<RowSpace>,
) -> bool {
    forall|row: int, col: int|
        0 <= row <= height - rect_height(rows) && 0 <= col <= width - rect_width(rows)
            ==> !#[trigger] fits_at_position(array, width, height, rows, row, col)
}

/// What `get_first_free_space` answers: `Free` with the cells of the first fit in
/// row-major order, or `OutsideRange` when the item fits nowhere.
pub open spec fn first_free_outcome(
    result: InventoryResult,
    array: Seq<Option<u32>>,
    width: int,
    height: int,
    rows: Seq<RowSpace>,
) -> bool {
    match result {
        InventoryResult::Free(v) => first_free_cells(array, width, height, rows, v@),
        InventoryResult::OutsideRange => fits_nowhere(array, width, height, rows),
        _ => false,
    }
}

/// The search for a first fit can run: the bounding rectangle fits the grid, and
/// every count it uses stays within `usize`.
pub open spec fn first_free_ok(width: int, height: int, rows: Seq<RowSpace>) -> bool {
    &&& size_fits_usize(rows)
    &&& rect_height(rows) <= height
    &&& height - rect_height(rows) < usize::MAX
    &&& rect_width(rows) <= width + 1
    &&& width < usize::MAX
    &&& (width > 0 || rows.len() == 0 || rect_width(rows) == width + 1)
}

/// The number of cells an item covers.
pub open spec fn total_growth(rows: Seq<RowSpace>) -> int
    decreases rows.len(),
{
    if rows.len() == 0 {
        0
    } else {
        total_growth(rows.drop_last()) + rows.last().growth
    }
}

/// An item covers one cell per unit of growth of its runs, wherever it is placed.
pub proof fn lemma_size_cells_len(width: int, at: int, rows: Seq<RowSpace>)
    ensures
        size_cells(width, at, rows).len() == total_growth(rows),
        total_growth(rows) >= 0,
    decreases rows.len(),
{
    if rows.len() > 0 {
        lemma_size_cells_len(width, at, rows.drop_last());
    }
}

/// Placing the origin at a position where the bounding rectangle lies in the grid
/// keeps every index computation within `usize`.
proof fn lemma_position_arith(width: int, height: int, rows: Seq<RowSpace>, row: int, col: int)
    requires
        width >= 1,
        width * height <= usize::MAX,
        rows.len() > 0,
        0 <= row <= height - rect_height(rows),
        0 <= col <= width - rect_width(rows),
    ensures
        row * width + col <= usize::MAX,
        size_arith_ok(width, height, row * width + col, rows),
{
    lemma_rows_in_rect(rows);
    let at = row * width + col;
    assert(height <= width * height) by (nonlinear_arith)
        requires
            width >= 1,
            height >= 0,
    ;
    assert(row * width + width <= height * width) by (nonlinear_arith)
        requires
            width >= 1,
            0 <= row <= height - 1,
    ;
    assert(height * width == width * height) by (nonlinear_arith);
    let (q, m) = if col < width {
        (row, col)
    } else {
        assert(row * width + width == (row + 1) * width) by (nonlinear_arith);
        (row + 1, 0)
    };
    vstd::arithmetic::div_mod::lemma_fundamental_div_mod_converse(at, width, q, m);
    assert forall|i: int| 0 <= i < rows.len() implies row_arith_ok(
        width,
        height,
        at,
        #[trigger] rows[i],
    ) by {
        assert(rows[i].col_offset + rows[i].growth <= rect_width(rows));
    }
}

impl Grid {
    /// Searches the positions where the bounding rectangle of `size` lies in the grid,
    /// row by row and left to right, for the first one where the item fits; answers
    /// `Free` with the cells it would cover there, or `OutsideRange` when it fits nowhere.
    #[verifier::rlimit(40)]
    pub fn get_first_free_space(&self, size: &ItemSize) -> (result: InventoryResult)
        requires
            self.wf(),
            first_free_ok(self.width as int, self.height as int, size.space@),
        ensures
            first_free_outcome(
                result,
                self.array@,
                self.width as int,
                self.height as int,
                size.space@,
            ),
    {
        let ghost w = self.width as int;
        let ghost h = self.height as int;
        let ghost rows = size.space@;
        let len = self.array.len();
        let (rec_width, rec_height) = size.total_rectangular_space_taken();
        let row_count = self.height - rec_height + 1;
        let col_count = self.width + 1 - rec_width;
        let mut row: usize = 0;
        while row < row_count
            invariant
                self.wf(),
                len == self.array@.len(),
                w == self.width,
                h == self.height,
                rows == size.space@,
                rec_width == rect_width(rows),
                rec_height == rect_height(rows),
                row_count == h - rec_height + 1,
                col_count == w + 1 - rec_width,
                self.width > 0 || rows.len() == 0 || col_count == 0,
                row <= row_count,
                rows.len() == 0 ==> row == 0,
                forall|r: int, c: int|
                    0 <= r < row && 0 <= c < col_count ==> !#[trigger] fits_at_position(
                        self.array@,
                        w,
                        h,
                        rows,
                        r,
                        c,
                    ),
            decreases row_count - row,
        {
            let mut column: usize = 0;
            while column < col_count
                invariant
                    self.wf(),
                    len == self.array@.len(),
                    w == self.width,
                    h == self.height,
                    rows == size.space@,
                    rec_width == rect_width(rows),
                    rec_height == rect_height(rows),
                    row_count == h - rec_height + 1,
                    col_count == w + 1 - rec_width,
                    self.width > 0 || rows.len() == 0 || col_count == 0,
                    row < row_count,
                    column <= col_count,
                    rows.len() == 0 ==> row == 0 && column == 0,
                    forall|r: int, c: int|
                        0 <= r < row && 0 <= c < col_count ==> !#[trigger] fits_at_position(
                            self.array@,
                            w,
                            h,
                            rows,
                            r,
                            c,
                        ),
                    forall|c: int|
                        0 <= c < column ==> !#[trigger] fits_at_position(
                            self.array@,
                            w,
                            h,
                            rows,
                            row as int,
                            c,
                        ),
                decreases col_count - column,
            {
                proof {
                    if rows.len() > 0 {
                        lemma_position_arith(w, h, rows, row as int, column as int);
                    }
                }
                let at = row * self.width + column;
                match self.check_at(at, size, None) {
                    InventoryResult::Free(free) => {
                        assert(first_fit(self.array@, w, h, rows, row as int, column as int));
                        assert(first_free_cells(self.array@, w, h, rows, free@));
                        return InventoryResult::Free(free);
                    },
                    _ => {},
                }
                column = column + 1;
            }
            row = row + 1;
        }
        InventoryResult::OutsideRange
    }
}


// ---------------------------------------------------------------------------
// Laws of the grid.
// ---------------------------------------------------------------------------

/// A run has no cell held by another item exactly when each of its cells is free for the item.
proof fn lemma_taken_in_empty_iff(array: Seq<Option<u32>>, item: Option<u32>, first: int, n: nat)
    ensures
        taken_in(array, item, first, n).len() == 0 <==> forall|k: int|
            0 <= k < n ==> free_for(#[trigger] array[first + k], item),
    decreases n,
{
    if n > 0 {
        lemma_taken_in_empty_iff(array, item, first, (n - 1) as nat);
        if taken_in(array, item, first, n).len() == 0 {
            assert forall|k: int| 0 <= k < n implies free_for(#[trigger] array[first + k], item) by {
                if k == n - 1 {
                    assert(free_for(array[first + n - 1], item));
                }
            }
        }
    }
}

/// For an item that stays inside the grid: no covered cell is held by another item
/// exactly when every covered cell is free for it.
pub proof fn lemma_size_taken_empty_iff(
    array: Seq<Option<u32>>,
    item: Option<u32>,
    width: int,
    height: int,
    at: int,
    rows: Seq<RowSpace>,
)
    requires
        width > 0,
        at >= 0,
        width * height <= usize::MAX,
        !size_outside(width, height, at, rows),
    ensures
        size_taken(array, item, width, at, rows).len() == 0 <==> forall|k: int|
            0 <= k < size_cells(width, at, rows).len() ==> free_for(
                array[#[trigger] size_cells(width, at, rows)[k] as int],
                item,
            ),
    decreases rows.len(),
{
    if rows.len() > 0 {
        let prefix = rows.drop_last();
        let r = rows.last();
        assert forall|i: int| 0 <= i < prefix.len() implies !row_outside(
            width,
            height,
            at,
            #[trigger] prefix[i],
        ) by {
            assert(prefix[i] == rows[i]);
        }
        assert(!row_outside(width, height, at, rows[rows.len() - 1]));
        lemma_size_taken_empty_iff(array, item, width, height, at, prefix);
        let first = row_first_cell(width, at, r);
        lemma_taken_in_empty_iff(array, item, first, r.growth as nat);
        let cells = size_cells(width, at, rows);
        let before = size_cells(width, at, prefix);
        if size_taken(array, item, width, at, rows).len() == 0 {
            assert forall|k: int| 0 <= k < cells.len() implies free_for(
                array[#[trigger] cells[k] as int],
                item,
            ) by {
                if k < before.len() {
                    assert(cells[k] == before[k]);
                } else {
                    let j = k - before.len();
                    lemma_cell_in_grid(
                        at / width + r.row_offset,
                        at % width + r.col_offset + j,
                        width,
                        height,
                    );
                    assert(cells[k] == row_cells(width, at, r)[j]);
                    assert(free_for(array[first + j], item));
                }
            }
        }
        if forall|k: int|
            0 <= k < cells.len() ==> free_for(array[#[trigger] cells[k] as int], item) {
            assert forall|k: int| 0 <= k < before.len() implies free_for(
                array[#[trigger] before[k] as int],
                item,
            ) by {
                assert(cells[k] == before[k]);
            }
            assert forall|j: int| 0 <= j < r.growth implies free_for(
                #[trigger] array[first + j],
                item,
            ) by {
                let k = before.len() + j;
                lemma_cell_in_grid(
                    at / width + r.row_offset,
                    at % width + r.col_offset + j,
                    width,
                    height,
                );
                assert(cells[k] == row_cells(width, at, r)[j]);
                assert(free_for(array[cells[k] as int], item));
            }
        }
    }
}

/// An item placed inside the grid leaves its own cells free for itself: checking it
/// again where it was just inserted finds no cell held by another item.
pub proof fn lemma_inserted_item_fits_in_place(
    array: Seq<Option<u32>>,
    width: int,
    height: int,
    at: int,
    rows: Seq<RowSpace>,
    id: u32,
)
    requires
        grid_wf(array, width, height),
        width > 0,
        at >= 0,
        width * height <= usize::MAX,
        !size_outside(width, height, at, rows),
    ensures
        fits_at(
            fill_cells(array, size_cells(width, at, rows), Some(id)),
            width,
            height,
            at,
            rows,
            Some(id),
        ),
{
    let cells = size_cells(width, at, rows);
    let filled = fill_cells(array, cells, Some(id));
    lemma_size_cells_in_grid(width, height, at, rows);
    assert forall|k: int| 0 <= k < cells.len() implies free_for(
        filled[#[trigger] cells[k] as int],
        Some(id),
    ) by {
        assert(cells.contains(cells[k]));
        assert((cells[k] as int) as usize == cells[k]);
    }
    lemma_size_taken_empty_iff(filled, Some(id), width, height, at, rows);
}

/// Inserting an item again where it was just inserted succeeds, takes the same cells
/// and changes nothing.
pub proof fn lemma_reinsert_changes_nothing(
    first: InventoryResult,
    second: InventoryResult,
    a0: Seq<Option<u32>>,
    a1: Seq<Option<u32>>,
    a2: Seq<Option<u32>>,
    width: int,
    height: int,
    at: int,
    rows: Seq<RowSpace>,
    id: u32,
)
    requires
        grid_wf(a0, width, height),
        width > 0,
        at >= 0,
        width * height <= usize::MAX,
        first is Inserted,
        insert_outcome(first, a0, a1, width, height, at, rows, id),
        insert_outcome(second, a1, a2, width, height, at, rows, id),
    ensures
        second is Inserted,
        first matches InventoryResult::Inserted(v1) ==> (second matches InventoryResult::Inserted(
            v2,
        ) && v2@ == v1@),
        a2 == a1,
{
    lemma_inserted_item_fits_in_place(a0, width, height, at, rows, id);
    let cells = size_cells(width, at, rows);
    assert(fill_cells(a1, cells, Some(id)) =~= a1);
}

/// Some run reaches the bottom of the bounding rectangle, and some run its right edge.
proof fn lemma_rect_attained(rows: Seq<RowSpace>)
    requires
        rows.len() > 0,
    ensures
        exists|i: int| 0 <= i < rows.len() && #[trigger] rows[i].row_offset + 1 == rect_height(rows),
        exists|j: int|
            0 <= j < rows.len() && #[trigger] rows[j].col_offset + rows[j].growth == rect_width(rows),
    decreases rows.len(),
{
    let prefix = rows.drop_last();
    let last = rows.len() - 1;
    assert(rows.last() == rows[last]);
    if prefix.len() == 0 {
        assert(rect_height(prefix) == 0 && rect_width(prefix) == 0);
        assert(rows[last].row_offset + 1 == rect_height(rows));
        assert(rows[last].col_offset + rows[last].growth == rect_width(rows));
    } else {
        lemma_rect_attained(prefix);
        if rows[last].row_offset + 1 > rect_height(prefix) {
            assert(rows[last].row_offset + 1 == rect_height(rows));
        } else {
            let i = choose|i: int| 0 <= i < prefix.len() && #[trigger] prefix[i].row_offset + 1
                == rect_height(prefix);
            assert(rows[i] == prefix[i]);
            assert(rows[i].row_offset + 1 == rect_height(rows));
        }
        if rows[last].col_offset + rows[last].growth > rect_width(prefix) {
            assert(rows[last].col_offset + rows[last].growth == rect_width(rows));
        } else {
            let j = choose|j: int| 0 <= j < prefix.len() && #[trigger] prefix[j].col_offset
                + prefix[j].growth == rect_width(prefix);
            assert(rows[j] == prefix[j]);
            assert(rows[j].col_offset + rows[j].growth == rect_width(rows));
        }
    }
}

/// An item that fits with its origin at cell `p` fits at the position (row `p / width`,
/// column `p % width`), and that position keeps its bounding rectangle in the grid.
proof fn lemma_fit_is_a_position(
    array: Seq<Option<u32>>,
    width: int,
    height: int,
    rows: Seq<RowSpace>,
    p: int,
)
    requires
        width > 0,
        p >= 0,
        rows.len() > 0,
        fits_at(array, width, height, p, rows, None),
    ensures
        0 <= p / width <= height - rect_height(rows),
        0 <= p % width <= width - rect_width(rows),
        p == (p / width) * width + p % width,
        fits_at_position(array, width, height, rows, p / width, p % width),
{
    vstd::arithmetic::div_mod::lemma_fundamental_div_mod(p, width);
    assert(p == (p / width) * width + p % width) by (nonlinear_arith)
        requires
            p == width * (p / width) + p % width,
    ;
    vstd::arithmetic::div_mod::lemma_div_pos_is_pos(p, width);
    lemma_rect_attained(rows);
    let i = choose|i: int| 0 <= i < rows.len() && #[trigger] rows[i].row_offset + 1 == rect_height(rows);
    let j = choose|j: int|
        0 <= j < rows.len() && #[trigger] rows[j].col_offset + rows[j].growth == rect_width(rows);
    assert(!row_outside(width, height, p, rows[i]));
    assert(!row_outside(width, height, p, rows[j]));
}

/// The first fit that the search finds is the fit at the least cell index: the item
/// fits with its origin at that position's cell, and at no smaller cell.
pub proof fn lemma_first_fit_is_least_index(
    array: Seq<Option<u32>>,
    width: int,
    height: int,
    rows: Seq<RowSpace>,
    row: int,
    col: int,
)
    requires
        width > 0,
        0 <= row <= height - rect_height(rows),
        0 <= col <= width - rect_width(rows),
        first_fit(array, width, height, rows, row, col),
    ensures
        fits_at(array, width, height, row * width + col, rows, None),
        forall|p: int|
            0 <= p < row * width + col ==> !#[trigger] fits_at(array, width, height, p, rows, None),
{
    lemma_rows_in_rect(rows);
    assert forall|p: int| 0 <= p < row * width + col implies !#[trigger] fits_at(
        array,
        width,
        height,
        p,
        rows,
        None,
    ) by {
        if fits_at(array, width, height, p, rows, None) {
            if rows.len() == 0 {
                assert(size_taken(array, None, width, 0, rows).len() == 0);
                assert(!size_outside(width, height, 0, rows));
                assert(0int * width + 0 == 0);
                assert(fits_at_position(array, width, height, rows, 0, 0));
                assert(row * width + col >= 0) by (nonlinear_arith)
                    requires
                        row >= 0,
                        col >= 0,
                        width > 0,
                ;
                assert(row == 0 && col == 0) by {
                    if !(row == 0 && col == 0) {
                        assert(!fits_at_position(array, width, height, rows, 0, 0));
                    }
                }
            } else {
                lemma_fit_is_a_position(array, width, height, rows, p);
                let r = p / width;
                let c = p % width;
                assert(r < row || (r == row && c < col)) by (nonlinear_arith)
                    requires
                        p == r * width + c,
                        0 <= c < width,
                        0 <= col <= width,
                        p < row * width + col,
                        r >= 0,
                        row >= 0,
                ;
                assert(0 <= c <= width - rect_width(rows));
                assert(fits_at_position(array, width, height, rows, r, c));
                assert(!fits_at_position(array, width, height, rows, r, c));
            }
        }
    }
}

/// When the search finds no fit, the item fits with its origin at no cell at all.
pub proof fn lemma_fits_nowhere_at_no_index(
    array: Seq<Option<u32>>,
    width: int,
    height: int,
    rows: Seq<RowSpace>,
)
    requires
        width > 0,
        height >= 0,
        fits_nowhere(array, width, height, rows),
    ensures
        forall|p: int| p >= 0 ==> !#[trigger] fits_at(array, width, height, p, rows, None),
{
    assert forall|p: int| p >= 0 implies !#[trigger] fits_at(array, width, height, p, rows, None) by {
        if fits_at(array, width, height, p, rows, None) {
            if rows.len() == 0 {
                assert(fits_at_position(array, width, height, rows, 0, 0));
            } else {
                lemma_fit_is_a_position(array, width, height, rows, p);
            }
        }
    }
}

/// What the first-fit search answers is the least cell where the item fits: `Free`
/// names the cells of the fit at the least such cell, and `OutsideRange` means the
/// item fits at no cell.
pub proof fn lemma_first_free_space_is_least_index(
    result: InventoryResult,
    array: Seq<Option<u32>>,
    width: int,
    height: int,
    rows: Seq<RowSpace>,
)
    requires
        width > 0,
        height >= 0,
        first_free_outcome(result, array, width, height, rows),
    ensures
        result matches InventoryResult::Free(f) ==> exists|p: int|
            #![trigger size_cells(width, p, rows)]
            p >= 0 && f@ == size_cells(width, p, rows) && fits_at(array, width, height, p, rows, None)
                && forall|q: int| 0 <= q < p ==> !#[trigger] fits_at(array, width, height, q, rows, None),
        result is OutsideRange ==> forall|q: int|
            q >= 0 ==> !#[trigger] fits_at(array, width, height, q, rows, None),
{
    match result {
        InventoryResult::Free(f) => {
            let (row, col) = choose|row: int, col: int|
                0 <= row <= height - rect_height(rows) && 0 <= col <= width - rect_width(rows)
                    && #[trigger] first_fit(array, width, height, rows, row, col) && f@ == size_cells(
                    width,
                    row * width + col,
                    rows,
                );
            lemma_first_fit_is_least_index(array, width, height, rows, row, col);
            assert(row * width + col >= 0) by (nonlinear_arith)
                requires
                    row >= 0,
                    col >= 0,
                    width > 0,
            ;
            let p = row * width + col;
            assert(f@ == size_cells(width, p, rows));
        },
        InventoryResult::OutsideRange => {
            lemma_fits_nowhere_at_no_index(array, width, height, rows);
        },
        _ => {},
    }
}

/// The first cell an item covers is the first cell of its first run (when that run
/// covers any cell).
pub proof fn lemma_size_cells_first(width: int, at: int, rows: Seq<RowSpace>)
    requires
        rows.len() > 0,
        rows[0].growth > 0,
    ensures
        size_cells(width, at, rows).len() > 0,
        size_cells(width, at, rows)[0] == row_first_cell(width, at, rows[0]) as usize,
    decreases rows.len(),
{
    let prefix = rows.drop_last();
    if rows.len() == 1 {
        assert(size_cells(width, at, prefix) =~= Seq::<usize>::empty());
        assert(rows.last() == rows[0]);
        assert(size_cells(width, at, rows) =~= row_cells(width, at, rows[0]));
    } else {
        assert(prefix[0] == rows[0]);
        lemma_size_cells_first(width, at, prefix);
        assert(size_cells(width, at, rows)[0] == size_cells(width, at, prefix)[0]);
    }
}

/// Once an item is inserted, no other item can be placed over any of its cells:
/// a check for a different item that covers one of them finds it taken.
pub proof fn lemma_inserted_cells_block_others(
    array: Seq<Option<u32>>,
    width: int,
    height: int,
    at: int,
    rows: Seq<RowSpace>,
    id: u32,
    other_at: int,
    other_rows: Seq<RowSpace>,
    other: u32,
    k: int,
)
    requires
        grid_wf(array, width, height),
        width > 0,
        at >= 0,
        other_at >= 0,
        width * height <= usize::MAX,
        !size_outside(width, height, at, rows),
        !size_outside(width, height, other_at, other_rows),
        other != id,
        0 <= k < size_cells(width, other_at, other_rows).len(),
        size_cells(width, at, rows).contains(size_cells(width, other_at, other_rows)[k]),
    ensures
        size_taken(
            fill_cells(array, size_cells(width, at, rows), Some(id)),
            Some(other),
            width,
            other_at,
            other_rows,
        ).len() > 0,
{
    let filled = fill_cells(array, size_cells(width, at, rows), Some(id));
    let other_cells = size_cells(width, other_at, other_rows);
    lemma_size_cells_in_grid(width, height, other_at, other_rows);
    assert((other_cells[k] as int) as usize == other_cells[k]);
    assert(!free_for(filled[other_cells[k] as int], Some(other)));
    lemma_size_taken_empty_iff(filled, Some(other), width, height, other_at, other_rows);
}

/// Freeing an item undoes its insertion: when the item held no cell and the cells it
/// was written into were empty, emptying its cells gives back the grid as it was.
pub proof fn lemma_free_undoes_insert(array: Seq<Option<u32>>, cells: Seq<usize>, id: u32)
    requires
        array.len() <= usize::MAX,
        forall|i: int| 0 <= i < array.len() ==> #[trigger] array[i] != Some(id),
        forall|k: int|
            0 <= k < cells.len() && (cells[k] as int) < array.len() ==> #[trigger] array[cells[k] as int]
                is None,
    ensures
        free_id(fill_cells(array, cells, Some(id)), id) == array,
{
    let filled = fill_cells(array, cells, Some(id));
    assert forall|i: int| 0 <= i < array.len() implies #[trigger] free_id(filled, id)[i]
        == array[i] by {
        if cells.contains(i as usize) {
            let k = choose|k: int| 0 <= k < cells.len() && cells[k] == i as usize;
            assert(cells[k] as int == i);
            assert(array[cells[k] as int] is None);
        }
    }
    assert(free_id(filled, id) =~= array);
}

/// After an item is freed, no cell holds it, and every other cell is unchanged.
pub proof fn lemma_free_removes_item(array: Seq<Option<u32>>, id: u32)
    ensures
        forall|i: int| 0 <= i < array.len() ==> #[trigger] free_id(array, id)[i] != Some(id),
        forall|i: int|
            0 <= i < array.len() && array[i] != Some(id) ==> #[trigger] free_id(array, id)[i]
                == array[i],
{
}
} // verus!
