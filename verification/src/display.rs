//! The text shown for an item: its name, preceded by the size of its stack when it
//! holds more than one.
use vstd::prelude::*;

use crate::grid::{
    fill_cells, lemma_rows_in_rect, lemma_size_cells_in_grid, lemma_size_taken_empty_iff, rect_height,
    rect_width, size_cells, size_fits_usize, size_outside, Grid, InventoryResult, ItemSize, RowSpace,
};
use crate::inventory_item::Item;
use vstd::string::StringExecFns;

verus! {

/// The character of the decimal digit `d`.
pub open spec fn digit_char(d: nat) -> char {
    if d == 0 {
        '0'
    } else if d == 1 {
        '1'
    } else if d == 2 {
        '2'
    } else if d == 3 {
        '3'
    } else if d == 4 {
        '4'
    } else if d == 5 {
        '5'
    } else if d == 6 {
        '6'
    } else if d == 7 {
        '7'
    } else if d == 8 {
        '8'
    } else {
        '9'
    }
}

/// `n` written in decimal, most significant digit first, without leading zeros.
pub open spec fn decimal(n: nat) -> Seq<char>
    decreases n,
{
    if n < 10 {
        seq![digit_char(n)]
    } else {
        decimal(n / 10).push(digit_char(n % 10))
    }
}

/// The text shown for an item called `name` whose inventory side holds `stack` items
/// (`None` when it has none): the stack size and a space before the name when more
/// than one is held, otherwise the name alone.
pub open spec fn display_text(name: Seq<char>, stack: Option<u32>) -> Seq<char> {
    match stack {
        Some(s) => if s > 1 {
            decimal(s as nat) + seq![' '] + name
        } else {
            name
        },
        None => name,
    }
}

/// The value of a digit character: how far its code lies past the code of `'0'`.
pub open spec fn digit_value(c: char) -> int {
    c as int - '0' as int
}

/// The number that a text of digit characters stands for, read in decimal.
pub open spec fn decimal_value(s: Seq<char>) -> int
    decreases s.len(),
{
    if s.len() == 0 {
        0
    } else {
        decimal_value(s.drop_last()) * 10 + digit_value(s.last())
    }
}

/// The decimal text of `n` stands for `n`: it is made of the characters `'0'` to
/// `'9'`, read back in decimal it gives `n`, and it starts with `'0'` only for 0.
pub proof fn lemma_decimal_reads_back(n: nat)
    ensures
        decimal(n).len() > 0,
        forall|i: int| 0 <= i < decimal(n).len() ==> 0 <= #[trigger] digit_value(decimal(n)[i]) <= 9,
        decimal_value(decimal(n)) == n,
        n > 0 ==> decimal(n)[0] != '0',
    decreases n,
{
    assert('0' as int == 48 && '1' as int == 49 && '2' as int == 50 && '3' as int == 51 && '4' as int
        == 52 && '5' as int == 53 && '6' as int == 54 && '7' as int == 55 && '8' as int == 56
        && '9' as int == 57);
    if n < 10 {
        assert(decimal(n) =~= seq![digit_char(n)]);
        assert(seq![digit_char(n)].drop_last() =~= Seq::<char>::empty());
        assert(digit_value(digit_char(n)) == n);
        assert(decimal(n).last() == digit_char(n));
        assert(decimal_value(decimal(n)) == decimal_value(Seq::<char>::empty()) * 10 + digit_value(
            digit_char(n),
        ));
    } else {
        let q = n / 10;
        let r = n % 10;
        lemma_decimal_reads_back(q);
        let prefix = decimal(q);
        assert(decimal(n) == prefix.push(digit_char(r as nat)));
        assert(decimal(n).drop_last() =~= prefix);
        assert(digit_value(digit_char(r as nat)) == r);
        assert(q * 10 + r == n) by {
            vstd::arithmetic::div_mod::lemma_fundamental_div_mod(n as int, 10);
        }
        assert(decimal(n).last() == digit_char(r as nat));
        assert(decimal_value(decimal(n)) == decimal_value(prefix) * 10 + digit_value(
            digit_char(r as nat),
        ));
        assert forall|i: int| 0 <= i < decimal(n).len() implies 0 <= #[trigger] digit_value(
            decimal(n)[i],
        ) <= 9 by {
            if i < prefix.len() {
                assert(decimal(n)[i] == prefix[i]);
            }
        }
        assert(q > 0);
        assert(decimal(n)[0] == prefix[0]);
    }
}

/// The text of an item holding more than one starts with digits that read back as its
/// stack size, then a space, then its name; otherwise it is the name alone.
pub proof fn lemma_display_shows_stack(name: Seq<char>, stack: Option<u32>)
    ensures
        ({
            let text = display_text(name, stack);
            match stack {
                Some(s) if s > 1 => {
                    let digits = text.take(text.len() - name.len() - 1);
                    &&& text.len() > name.len() + 1
                    &&& decimal_value(digits) == s
                    &&& forall|i: int| 0 <= i < digits.len() ==> 0 <= #[trigger] digit_value(digits[i]) <= 9
                    &&& text[text.len() - name.len() - 1] == ' '
                    &&& text.skip(text.len() - name.len()) == name
                },
                _ => text == name,
            }
        }),
{
    if let Some(s) = stack {
        if s > 1 {
            lemma_decimal_reads_back(s as nat);
            let d = decimal(s as nat);
            let text = display_text(name, stack);
            assert(text.take(text.len() - name.len() - 1) =~= d);
            assert(text.skip(text.len() - name.len()) =~= name);
        }
    }
}

/// Appends `c` to `s` (`String::push`).
#[verifier::external_body]
fn push_char(s: &mut String, c: char)
    ensures
        final(s)@ == old(s)@.push(c),
{
    s.push(c);
}

fn digit_to_char(d: u32) -> (c: char)
    requires
        d < 10,
    ensures
        c == digit_char(d as nat),
{
    if d == 0 {
        '0'
    } else if d == 1 {
        '1'
    } else if d == 2 {
        '2'
    } else if d == 3 {
        '3'
    } else if d == 4 {
        '4'
    } else if d == 5 {
        '5'
    } else if d == 6 {
        '6'
    } else if d == 7 {
        '7'
    } else if d == 8 {
        '8'
    } else {
        '9'
    }
}

/// Appends `n` in decimal to `out`.
pub fn push_decimal(out: &mut String, n: u32)
    ensures
        final(out)@ == old(out)@ + decimal(n as nat),
    decreases n,
{
    if n >= 10 {
        push_decimal(out, n / 10);
        assert(old(out)@ + decimal(n as nat) =~= (old(out)@ + decimal((n / 10) as nat)).push(
            digit_char((n % 10) as nat),
        ));
    }
    push_char(out, digit_to_char(n % 10));
    proof {
        if n < 10 {
            assert(decimal(n as nat) =~= seq![digit_char(n as nat)]);
        }
    }
}

/// The text of one cell: the id it holds (0 when empty) between two spaces.
pub open spec fn cell_text(cell: Option<u32>) -> Seq<char> {
    seq![' '] + decimal(
        match cell {
            Some(v) => v as nat,
            None => 0,
        },
    ) + seq![' ']
}

/// The text of the cells `array` of a grid `width` cells wide: the cells in order,
/// each row ended by a line break.
pub open spec fn grid_text(array: Seq<Option<u32>>, width: int) -> Seq<char>
    decreases array.len(),
{
    if array.len() == 0 {
        Seq::empty()
    } else {
        let i = array.len() - 1;
        grid_text(array.drop_last(), width) + cell_text(array.last()) + if (i + 1) % width == 0 {
            seq!['\n']
        } else {
            Seq::empty()
        }
    }
}

/// The cells of the bounding rectangle of shape `rows` (laid out `rect_width` cells
/// wide), with the cells the shape covers holding 1 and the others empty.
pub open spec fn shape_cells(rows: Seq<RowSpace>) -> Seq<Option<u32>> {
    let w = rect_width(rows);
    let h = rect_height(rows);
    fill_cells(Seq::new((w * h) as nat, |i: int| None::<u32>), size_cells(w, 0, rows), Some(1))
}

impl ItemSize {
    /// The shape drawn in its bounding rectangle: covered cells as 1, the others as 0
    /// (see `shape_cells` and `grid_text`).
    pub fn to_string(&self) -> (text: String)
        requires
            size_fits_usize(self.space@),
            rect_width(self.space@) > 0 || self.space@.len() == 0,
            rect_width(self.space@) * rect_height(self.space@) <= usize::MAX,
        ensures
            text@ == grid_text(shape_cells(self.space@), rect_width(self.space@)),
    {
        let ghost rows = self.space@;
        let (width, height) = self.total_rectangular_space_taken();
        let mut grid = Grid::new(width, height);
        let ghost w = width as int;
        let ghost h = height as int;
        proof {
            lemma_rows_in_rect(rows);
            assert(!size_outside(w, h, 0, rows)) by {
                assert forall|i: int| 0 <= i < rows.len() implies !crate::grid::row_outside(
                    w,
                    h,
                    0,
                    #[trigger] rows[i],
                ) by {
                    assert(0int / w == 0 && 0int % w == 0) by {
                        if w > 0 {
                            vstd::arithmetic::div_mod::lemma_small_mod(0, w as nat);
                        }
                    }
                }
            }
            if rows.len() > 0 {
                lemma_size_cells_in_grid(w, h, 0, rows);
                let cells = size_cells(w, 0, rows);
                assert forall|k: int| 0 <= k < cells.len() implies crate::grid::free_for(
                    grid.array@[#[trigger] cells[k] as int],
                    Some(1),
                ) by {
                    assert((cells[k] as int) < w * h);
                }
                lemma_size_taken_empty_iff(grid.array@, Some(1), w, h, 0, rows);
            }
            assert(crate::grid::fits_at(grid.array@, w, h, 0, rows, Some(1)));
        }
        self_insert(&mut grid, self);
        grid.to_string()
    }
}

/// Inserts the shape with its origin at the first cell of a grid that is its own
/// bounding rectangle and still empty.
fn self_insert(grid: &mut Grid, size: &ItemSize)
    requires
        old(grid).wf(),
        old(grid).width == rect_width(size.space@),
        old(grid).height == rect_height(size.space@),
        old(grid).array@ == Seq::new((old(grid).width * old(grid).height) as nat, |i: int| None::<u32>),
        old(grid).width > 0 || size.space@.len() == 0,
        size_fits_usize(size.space@),
        crate::grid::fits_at(old(grid).array@, old(grid).width as int, old(grid).height as int, 0, size.space@, Some(1)),
    ensures
        final(grid).wf(),
        final(grid).width == old(grid).width,
        final(grid).array@ == shape_cells(size.space@),
{
    proof {
        let w = grid.width as int;
        let rows = size.space@;
        if w > 0 {
            vstd::arithmetic::div_mod::lemma_small_mod(0, w as nat);
            assert(0int / w == 0);
        }
        assert forall|i: int| 0 <= i < rows.len() implies crate::grid::row_arith_ok(
            w,
            grid.height as int,
            0,
            #[trigger] rows[i],
        ) by {
            assert(rows[i].row_offset < usize::MAX);
        }
    }
    let result = grid.insert_item_at(1, 0, size);
    match result {
        InventoryResult::Inserted(_) => {},
        _ => vstd::pervasive::unreached(),
    }
}

impl Grid {
    /// The grid as text, row by row (see `grid_text`).
    pub fn to_string(&self) -> (text: String)
        requires
            self.wf(),
        ensures
            text@ == grid_text(self.array@, self.width as int),
    {
        let mut text = String::new();
        let n = self.array.len();
        let mut i: usize = 0;
        assert(self.array@.take(0) =~= Seq::<Option<u32>>::empty());
        while i < n
            invariant
                n == self.array@.len(),
                self.wf(),
                i <= n,
                text@ == grid_text(self.array@.take(i as int), self.width as int),
            decreases n - i,
        {
            assert(self.width != 0) by {
                if self.width == 0 {
                    assert(self.width * self.height == 0) by (nonlinear_arith)
                        requires
                            self.width == 0,
                    ;
                }
            }
            let held = match self.array[i] {
                Some(v) => v,
                None => 0,
            };
            push_char(&mut text, ' ');
            push_decimal(&mut text, held);
            push_char(&mut text, ' ');
            let ghost before = self.array@.take(i as int);
            if (i + 1) % self.width == 0 {
                push_char(&mut text, '\n');
            }
            proof {
                let next = self.array@.take(i + 1);
                assert(next.drop_last() =~= before);
                assert(next.last() == self.array@[i as int]);
                assert(text@ =~= grid_text(next, self.width as int));
            }
            i = i + 1;
        }
        assert(self.array@.take(n as int) =~= self.array@);
        text
    }
}

impl Item {
    /// The text shown for this item, called `name` (see `display_text`).
    pub fn get_item_display(&self, name: &str) -> (text: String)
        ensures
            text@ == display_text(
                name@,
                match self.inventory {
                    Some(inv) => Some(inv.stack),
                    None => None,
                },
            ),
    {
        let mut text = String::new();
        if let Some(inv) = &self.inventory {
            if inv.stack > 1 {
                push_decimal(&mut text, inv.stack);
                push_char(&mut text, ' ');
            }
        }
        text.append(name);
        proof {
            if self.inventory is Some && self.inventory.unwrap().stack > 1 {
                assert(text@ =~= decimal(self.inventory.unwrap().stack as nat) + seq![' '] + name@);
            } else {
                assert(text@ =~= name@);
            }
        }
        text
    }
}

} // verus!
