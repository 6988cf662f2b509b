//! The inventory screen: which cells are highlighted, and how pressing, dragging
//! and frobbing items move the screen between its states.
use vstd::prelude::*;

use crate::inventory_entity::InventoryEntityResult;

verus! {

/// The cells of `cells` that are not in `keep`, in order.
pub open spec fn cells_not_in(cells: Seq<usize>, keep: Seq<usize>) -> Seq<usize> {
    cells.filter(|c: usize| !keep.contains(c))
}

/// The cells of the danger pairs that are not in `keep`, in order.
pub open spec fn pairs_not_in(pairs: Seq<(usize, u32)>, keep: Seq<(usize, u32)>) -> Seq<usize> {
    pairs.filter(|p: (usize, u32)| !keep.contains(p)).map_values(|p: (usize, u32)| p.0)
}

/// The cells of the danger pairs, in order.
pub open spec fn pair_cells(pairs: Seq<(usize, u32)>) -> Seq<usize> {
    pairs.map_values(|p: (usize, u32)| p.0)
}

/// Which cells to switch off and which to switch on.
#[derive(Debug)]
pub struct HighlightChange {
    pub unhighlight: Vec<usize>,
    pub highlight: Vec<usize>,
}

/// The cells of an inventory grid that are highlighted: as free (`highlighted`) or as
/// held by another item (`danger`, with the id that holds each).
#[derive(Debug)]
pub struct CellHighlights {
    pub highlighted: Vec<usize>,
    pub danger: Vec<(usize, u32)>,
}

fn seq_contains_usize(v: &Vec<usize>, x: usize) -> (found: bool)
    ensures
        found == v@.contains(x),
{
    let mut i: usize = 0;
    while i < v.len()
        invariant
            i <= v@.len(),
            forall|k: int| 0 <= k < i ==> v@[k] != x,
        decreases v@.len() - i,
    {
        if v[i] == x {
            assert(v@[i as int] == x);
            return true;
        }
        i = i + 1;
    }
    false
}

fn seq_contains_pair(v: &Vec<(usize, u32)>, x: (usize, u32)) -> (found: bool)
    ensures
        found == v@.contains(x),
{
    let mut i: usize = 0;
    while i < v.len()
        invariant
            i <= v@.len(),
            forall|k: int| 0 <= k < i ==> v@[k] != x,
        decreases v@.len() - i,
    {
        if v[i].0 == x.0 && v[i].1 == x.1 {
            assert(v@[i as int] == x);
            return true;
        }
        i = i + 1;
    }
    false
}

fn same_cells(a: &Vec<usize>, b: &Vec<usize>) -> (same: bool)
    ensures
        same == (a@ == b@),
{
    if a.len() != b.len() {
        return false;
    }
    let mut i: usize = 0;
    while i < a.len()
        invariant
            a@.len() == b@.len(),
            i <= a@.len(),
            forall|k: int| 0 <= k < i ==> a@[k] == b@[k],
        decreases a@.len() - i,
    {
        if a[i] != b[i] {
            return false;
        }
        i = i + 1;
    }
    assert(a@ =~= b@);
    true
}

fn same_pairs(a: &Vec<(usize, u32)>, b: &Vec<(usize, u32)>) -> (same: bool)
    ensures
        same == (a@ == b@),
{
    if a.len() != b.len() {
        return false;
    }
    let mut i: usize = 0;
    while i < a.len()
        invariant
            a@.len() == b@.len(),
            i <= a@.len(),
            forall|k: int| 0 <= k < i ==> a@[k] == b@[k],
        decreases a@.len() - i,
    {
        if a[i].0 != b[i].0 || a[i].1 != b[i].1 {
            return false;
        }
        i = i + 1;
    }
    assert(a@ =~= b@);
    true
}

/// Appends to `out` the cells of `pairs`, or only those not in `keep` when given.
fn push_pair_cells(out: &mut Vec<usize>, pairs: &Vec<(usize, u32)>, keep: Option<&Vec<(usize, u32)>>)
    ensures
        final(out)@ == old(out)@ + match keep {
            Some(k) => pairs_not_in(pairs@, k@),
            None => pair_cells(pairs@),
        },
{
    let ghost start = out@;
    let ghost pred = |p: (usize, u32)|
        match keep {
            Some(k) => !k@.contains(p),
            None => true,
        };
    let mut i: usize = 0;
    while i < pairs.len()
        invariant
            i <= pairs@.len(),
            pred == (|p: (usize, u32)|
                match keep {
                    Some(k) => !k@.contains(p),
                    None => true,
                }),
            out@ == start + pairs@.take(i as int).filter(pred).map_values(|p: (usize, u32)| p.0),
        decreases pairs@.len() - i,
    {
        let p = pairs[i];
        let keep_it = match keep {
            Some(k) => !seq_contains_pair(k, p),
            None => true,
        };
        proof {
            assert(pairs@.take(i + 1).drop_last() =~= pairs@.take(i as int));
            reveal(Seq::filter);
        }
        if keep_it {
            out.push(p.0);
        }
        i = i + 1;
        assert(out@ =~= start + pairs@.take(i as int).filter(pred).map_values(
            |p: (usize, u32)| p.0,
        ));
    }
    assert(pairs@.take(pairs@.len() as int) =~= pairs@);
    proof {
        match keep {
            Some(k) => {
                let direct = |p: (usize, u32)| !k@.contains(p);
                assert(pred =~= direct);
            },
            None => {
                assert(pairs@.filter(pred) =~= pairs@) by {
                    lemma_filter_all(pairs@, pred);
                }
            },
        }
    }
}

/// Filtering by a predicate that every element meets keeps the sequence.
proof fn lemma_filter_all<A>(s: Seq<A>, pred: spec_fn(A) -> bool)
    requires
        forall|a: A| #[trigger] pred(a),
    ensures
        s.filter(pred) == s,
    decreases s.len(),
{
    reveal(Seq::filter);
    if s.len() > 0 {
        lemma_filter_all(s.drop_last(), pred);
        assert(s.drop_last().push(s.last()) =~= s);
    }
}

/// Appends to `out` the cells of `cells` that are not in `keep`.
fn push_cells_not_in(out: &mut Vec<usize>, cells: &Vec<usize>, keep: &Vec<usize>)
    ensures
        final(out)@ == old(out)@ + cells_not_in(cells@, keep@),
{
    let ghost start = out@;
    let ghost pred = |c: usize| !keep@.contains(c);
    let mut i: usize = 0;
    while i < cells.len()
        invariant
            i <= cells@.len(),
            pred == (|c: usize| !keep@.contains(c)),
            out@ == start + cells@.take(i as int).filter(pred),
        decreases cells@.len() - i,
    {
        let c = cells[i];
        proof {
            assert(cells@.take(i + 1).drop_last() =~= cells@.take(i as int));
            reveal(Seq::filter);
        }
        if !seq_contains_usize(keep, c) {
            out.push(c);
        }
        i = i + 1;
        assert(out@ =~= start + cells@.take(i as int).filter(pred));
    }
    assert(cells@.take(cells@.len() as int) =~= cells@);
}

/// Appends all of `cells` to `out`.
fn push_cells(out: &mut Vec<usize>, cells: &Vec<usize>)
    ensures
        final(out)@ == old(out)@ + cells@,
{
    let ghost start = out@;
    let mut i: usize = 0;
    while i < cells.len()
        invariant
            i <= cells@.len(),
            out@ == start + cells@.take(i as int),
        decreases cells@.len() - i,
    {
        out.push(cells[i]);
        i = i + 1;
        assert(out@ =~= start + cells@.take(i as int));
    }
    assert(cells@.take(cells@.len() as int) =~= cells@);
}

/// Highlighting `cells` as free took the highlights from `before` to `after` and
/// asked for `change`: nothing when they were already the highlighted cells;
/// otherwise the previously highlighted cells not among them and all danger cells
/// are switched off, `cells` are switched on, and no danger cell remains.
pub open spec fn highlighted_free(
    before: CellHighlights,
    after: CellHighlights,
    cells: Seq<usize>,
    change: Option<HighlightChange>,
) -> bool {
    if before.highlighted@ == cells {
        &&& change is None
        &&& after.highlighted@ == before.highlighted@
        &&& after.danger@ == before.danger@
    } else {
        &&& change is Some
        &&& change.unwrap().unhighlight@ == cells_not_in(before.highlighted@, cells) + pair_cells(
            before.danger@,
        )
        &&& change.unwrap().highlight@ == cells
        &&& after.highlighted@ == cells
        &&& after.danger@ == Seq::<(usize, u32)>::empty()
    }
}

/// Highlighting `cells` as held by other items took the highlights from `before` to
/// `after` and asked for `change`: nothing when they were already the danger cells;
/// otherwise the previous danger cells not among them and all free-highlighted cells
/// are switched off, the cells of `cells` are switched on, and no free-highlighted
/// cell remains.
pub open spec fn highlighted_taken(
    before: CellHighlights,
    after: CellHighlights,
    cells: Seq<(usize, u32)>,
    change: Option<HighlightChange>,
) -> bool {
    if before.danger@ == cells {
        &&& change is None
        &&& after.highlighted@ == before.highlighted@
        &&& after.danger@ == before.danger@
    } else {
        &&& change is Some
        &&& change.unwrap().unhighlight@ == pairs_not_in(before.danger@, cells)
            + before.highlighted@
        &&& change.unwrap().highlight@ == pair_cells(cells)
        &&& after.danger@ == cells
        &&& after.highlighted@ == Seq::<usize>::empty()
    }
}

impl CellHighlights {
    /// Nothing highlighted.
    pub fn new() -> (h: Self)
        ensures
            h.highlighted@ == Seq::<usize>::empty(),
            h.danger@ == Seq::<(usize, u32)>::empty(),
    {
        CellHighlights { highlighted: Vec::new(), danger: Vec::new() }
    }

    /// Highlights `cells` as free. When they are already the highlighted cells nothing
    /// changes (`None`). Otherwise the previously highlighted cells not among them and
    /// all danger cells are switched off, `cells` are switched on, and no danger cell
    /// remains.
    pub fn highlight_cells(&mut self, cells: Vec<usize>) -> (change: Option<HighlightChange>)
        ensures
            highlighted_free(*old(self), *final(self), cells@, change),
    {
        if same_cells(&self.highlighted, &cells) {
            return None;
        }
        let mut unhighlight: Vec<usize> = Vec::new();
        push_cells_not_in(&mut unhighlight, &self.highlighted, &cells);
        push_pair_cells(&mut unhighlight, &self.danger, None);
        assert(unhighlight@ =~= cells_not_in(old(self).highlighted@, cells@) + pair_cells(
            old(self).danger@,
        ));
        let mut highlight: Vec<usize> = Vec::new();
        push_cells(&mut highlight, &cells);
        assert(highlight@ =~= cells@);
        self.highlighted = cells;
        self.danger = Vec::new();
        Some(HighlightChange { unhighlight, highlight })
    }

    /// Highlights `cells` as held by other items. When they are already the danger
    /// cells nothing changes (`None`). Otherwise the previous danger cells not among
    /// them and all free-highlighted cells are switched off, the cells of `cells` are
    /// switched on, and no free-highlighted cell remains.
    pub fn highlight_cells_red(&mut self, cells: Vec<(usize, u32)>) -> (change: Option<
        HighlightChange,
    >)
        ensures
            highlighted_taken(*old(self), *final(self), cells@, change),
    {
        if same_pairs(&self.danger, &cells) {
            return None;
        }
        let mut unhighlight: Vec<usize> = Vec::new();
        push_pair_cells(&mut unhighlight, &self.danger, Some(&cells));
        push_cells(&mut unhighlight, &self.highlighted);
        assert(unhighlight@ =~= pairs_not_in(old(self).danger@, cells@) + old(self).highlighted@);
        let mut highlight: Vec<usize> = Vec::new();
        push_pair_cells(&mut highlight, &cells, None);
        assert(highlight@ =~= pair_cells(cells@));
        self.danger = cells;
        self.highlighted = Vec::new();
        Some(HighlightChange { unhighlight, highlight })
    }

    /// Switches every highlighted cell off: returns the free-highlighted cells, then
    /// the danger cells, and forgets both.
    pub fn stop_highlighting_all(&mut self) -> (unhighlight: Vec<usize>)
        ensures
            unhighlight@ == old(self).highlighted@ + pair_cells(old(self).danger@),
            final(self).highlighted@ == Seq::<usize>::empty(),
            final(self).danger@ == Seq::<(usize, u32)>::empty(),
    {
        let mut unhighlight: Vec<usize> = Vec::new();
        push_cells(&mut unhighlight, &self.highlighted);
        push_pair_cells(&mut unhighlight, &self.danger, None);
        assert(unhighlight@ =~= old(self).highlighted@ + pair_cells(old(self).danger@));
        self.highlighted = Vec::new();
        self.danger = Vec::new();
        unhighlight
    }

    /// Shows what a check of the dragged item found: free cells are highlighted as
    /// free, cells held by other items as taken (see `highlighted_free` and
    /// `highlighted_taken`); any other answer changes nothing.
    pub fn highlight_grid(&mut self, check: InventoryEntityResult) -> (change: Option<
        HighlightChange,
    >)
        ensures
            match check {
                InventoryEntityResult::FreeSpace(cells, _) => highlighted_free(
                    *old(self),
                    *final(self),
                    cells@,
                    change,
                ),
                InventoryEntityResult::SpaceTaken(cells, _) => highlighted_taken(
                    *old(self),
                    *final(self),
                    cells@,
                    change,
                ),
                _ => {
                    &&& change is None
                    &&& final(self).highlighted@ == old(self).highlighted@
                    &&& final(self).danger@ == old(self).danger@
                },
            },
    {
        match check {
            InventoryEntityResult::FreeSpace(cells, _) => self.highlight_cells(cells),
            InventoryEntityResult::SpaceTaken(cells, _) => self.highlight_cells_red(cells),
            _ => None,
        }
    }
}

// ---------------------------------------------------------------------------
// The state machine of the inventory screen.
// ---------------------------------------------------------------------------

/// The state of the inventory screen.
#[derive(Debug, Clone, Copy, PartialEq, Eq, Structural)]
pub enum UiState {
    /// Waiting for the player.
    Default,
    /// An item (by its widget id) is being dragged.
    MoveItem(u64),
    /// An item (by its widget id) is being used on another one.
    Frob(u64),
}

/// Something that happened on the inventory screen.
#[derive(Debug, Clone, Copy, PartialEq, Eq, Structural)]
pub enum UiEvent {
    /// A mouse button went down (`true`) or up.
    MouseButton(bool),
    /// The mouse moved.
    MouseMotion,
    /// An item widget was pressed; `cooldown_running` is whether less time than the
    /// cooldown has passed since the last action, `cooldown_over` whether more has,
    /// and `can_react` whether the pressed item can react to the one being frobbed.
    Press { presser: u64, cooldown_running: bool, cooldown_over: bool, can_react: bool },
    /// An item widget was double-clicked; `can_frob` is whether its item can act on others.
    FrobRequest { frobber: u64, can_frob: bool },
    /// The inventory screen was hidden.
    Hide,
    /// The dragged item was put down.
    Released,
}

/// What the inventory screen should do.
#[derive(Debug, Clone, Copy, PartialEq, Eq, Structural)]
pub enum UiAction {
    Nothing,
    /// Lift the item widget and start dragging it.
    PickUp(u64),
    /// Try to put the dragged item down where the mouse is.
    TryRelease,
    /// Move the dragged item with the mouse and highlight the cells under it.
    Drag,
    /// Start using the item on others.
    StartFrob(u64),
    /// Stop using the item.
    EndFrob,
    /// Let the frobbed item act on the pressed one, then stop using it.
    React(u64),
    /// Put the dragged item back where it was and stop highlighting.
    PutBack,
}

/// One step of the inventory screen's state machine.
pub open spec fn ui_step(state: UiState, event: UiEvent) -> (UiState, UiAction) {
    match state {
        UiState::Default => match event {
            UiEvent::Press { presser, cooldown_running, .. } => if cooldown_running {
                (state, UiAction::Nothing)
            } else {
                (UiState::MoveItem(presser), UiAction::PickUp(presser))
            },
            UiEvent::FrobRequest { frobber, can_frob } => if can_frob {
                (UiState::Frob(frobber), UiAction::StartFrob(frobber))
            } else {
                (state, UiAction::Nothing)
            },
            _ => (state, UiAction::Nothing),
        },
        UiState::MoveItem(_) => match event {
            UiEvent::MouseButton(pressed) => if pressed {
                (state, UiAction::TryRelease)
            } else {
                (state, UiAction::Nothing)
            },
            UiEvent::MouseMotion => (state, UiAction::Drag),
            UiEvent::Press { cooldown_over, .. } => if cooldown_over {
                (state, UiAction::TryRelease)
            } else {
                (state, UiAction::Nothing)
            },
            UiEvent::Hide => (UiState::Default, UiAction::PutBack),
            UiEvent::Released => (UiState::Default, UiAction::Nothing),
            _ => (state, UiAction::Nothing),
        },
        UiState::Frob(frobber) => match event {
            UiEvent::Press { presser, cooldown_running, can_react, .. } => if cooldown_running {
                (state, UiAction::Nothing)
            } else if presser == frobber {
                (UiState::Default, UiAction::EndFrob)
            } else if can_react {
                (UiState::Default, UiAction::React(presser))
            } else {
                (state, UiAction::Nothing)
            },
            _ => (state, UiAction::Nothing),
        },
    }
}

impl UiState {
    /// Handles one event: returns the next state and what the screen should do.
    pub fn handle(self, event: UiEvent) -> (r: (UiState, UiAction))
        ensures
            r == ui_step(self, event),
    {
        match self {
            UiState::Default => match event {
                UiEvent::Press { presser, cooldown_running, .. } => if cooldown_running {
                    (self, UiAction::Nothing)
                } else {
                    (UiState::MoveItem(presser), UiAction::PickUp(presser))
                },
                UiEvent::FrobRequest { frobber, can_frob } => if can_frob {
                    (UiState::Frob(frobber), UiAction::StartFrob(frobber))
                } else {
                    (self, UiAction::Nothing)
                },
                _ => (self, UiAction::Nothing),
            },
            UiState::MoveItem(_) => match event {
                UiEvent::MouseButton(pressed) => if pressed {
                    (self, UiAction::TryRelease)
                } else {
                    (self, UiAction::Nothing)
                },
                UiEvent::MouseMotion => (self, UiAction::Drag),
                UiEvent::Press { cooldown_over, .. } => if cooldown_over {
                    (self, UiAction::TryRelease)
                } else {
                    (self, UiAction::Nothing)
                },
                UiEvent::Hide => (UiState::Default, UiAction::PutBack),
                UiEvent::Released => (UiState::Default, UiAction::Nothing),
                _ => (self, UiAction::Nothing),
            },
            UiState::Frob(frobber) => match event {
                UiEvent::Press { presser, cooldown_running, can_react, .. } => if cooldown_running {
                    (self, UiAction::Nothing)
                } else if presser == frobber {
                    (UiState::Default, UiAction::EndFrob)
                } else if can_react {
                    (UiState::Default, UiAction::React(presser))
                } else {
                    (self, UiAction::Nothing)
                },
                _ => (self, UiAction::Nothing),
            },
        }
    }
}

/// A dragged item stays the same item until it is put down or the screen is hidden,
/// and both of those end the drag.
pub proof fn lemma_drag_ends_only_when_put_down(held: u64, event: UiEvent)
    ensures
        ({
            let (next, _) = ui_step(UiState::MoveItem(held), event);
            &&& next == UiState::MoveItem(held) || next == UiState::Default
            &&& next == UiState::Default <==> (event == UiEvent::Released || event == UiEvent::Hide)
        }),
{
}

/// While an item is dragged, a press on an item after the cooldown asks to put the
/// dragged item down, exactly as a mouse-button press does; during the cooldown it
/// does nothing.
pub proof fn lemma_press_after_cooldown_releases(
    held: u64,
    presser: u64,
    cooldown_running: bool,
    cooldown_over: bool,
    can_react: bool,
)
    ensures
        ({
            let press = UiEvent::Press { presser, cooldown_running, cooldown_over, can_react };
            &&& cooldown_over ==> ui_step(UiState::MoveItem(held), press) == ui_step(
                UiState::MoveItem(held),
                UiEvent::MouseButton(true),
            )
            &&& ui_step(UiState::MoveItem(held), UiEvent::MouseButton(true)) == (
                UiState::MoveItem(held),
                UiAction::TryRelease,
            )
            &&& !cooldown_over ==> ui_step(UiState::MoveItem(held), press) == (
                UiState::MoveItem(held),
                UiAction::Nothing,
            )
        }),
{
}

/// While the cooldown runs, pressing an item changes nothing outside a drag.
pub proof fn lemma_cooldown_blocks_presses(
    state: UiState,
    presser: u64,
    cooldown_over: bool,
    can_react: bool,
)
    requires
        !(state is MoveItem),
    ensures
        ui_step(
            state,
            UiEvent::Press { presser, cooldown_running: true, cooldown_over, can_react },
        ) == (state, UiAction::Nothing),
{
}

} // verus!
