//! The editing engine: a live document plus its pristine snapshot, a
//! selection kept in range by wrap-around movement, a cycling sort mode
//! applied lazily, and a scroll offset recomputed from the selection.
//!
//! Every operation on an empty document leaves the state unchanged;
//! the one operation that can report the condition does so.

use vstd::prelude::*;

use vstd::arithmetic::div_mod::{
    lemma_add_mod_noop, lemma_mod_add_multiples_vanish, lemma_small_mod,
};

use crate::doc::{clone_document, Document, DocumentV};
use crate::md::{clone_entry, EntryV};
use crate::sort::{lemma_sort_by_len, reverse_entries, sort_by, sort_entries, SortKey};

verus! {

/// Direction of a selection or entry movement.
#[derive(Clone, Copy, Debug, PartialEq, Eq, Structural)]
pub enum MoveDirection {
    Down,
    Up,
}

/// The five sort modes, in cycling order.
#[derive(Clone, Copy, Debug, PartialEq, Eq, Structural)]
pub enum SortMode {
    /// The document's own order, restored from the pristine snapshot.
    Default,
    ByDeadlineDescending,
    ByDeadlineAscending,
    ByTextAscending,
    ByTextDescending,
}

/// A reportable precondition failure of an editing operation.
#[derive(Clone, Copy, Debug, PartialEq, Eq, Structural)]
pub enum UiError {
    /// The document has no entries to select or move.
    EmptyDocument,
    /// The terminal is too small to display the interface.
    WindowTooSmall,
}

/// State of the user interface: the working document, its pristine
/// snapshot, and the selection, scroll, and sort state.
pub struct Ui {
    pub scrolloff: usize,
    pub current_sort_mode: SortMode,
    pub document: Document,
    pub original_document: Document,
    pub width: usize,
    pub save_on_quit: bool,
    pub height: usize,
    pub active_entry_idx: usize,
    pub current_scroll_offset: usize,
    pub queue_sort_update: bool,
}

/// The selected index after one move: one step down or up, wrapping at both
/// ends of a document with `n` entries.
pub open spec fn next_index(dir: MoveDirection, i: int, n: int) -> int {
    match dir {
        MoveDirection::Down => (i + 1) % n,
        MoveDirection::Up => (i + n - 1) % n,
    }
}

/// The sort mode one cycle step later.
pub open spec fn cycle_mode(m: SortMode) -> SortMode {
    match m {
        SortMode::Default => SortMode::ByDeadlineDescending,
        SortMode::ByDeadlineDescending => SortMode::ByDeadlineAscending,
        SortMode::ByDeadlineAscending => SortMode::ByTextAscending,
        SortMode::ByTextAscending => SortMode::ByTextDescending,
        SortMode::ByTextDescending => SortMode::Default,
    }
}

/// What a non-default sort mode does to the entries: a stable ascending sort
/// by the mode's key, reversed for the descending modes (which also reverses
/// the original relative order of equal keys).
pub open spec fn sorted_entries(m: SortMode, s: Seq<EntryV>) -> Seq<EntryV> {
    match m {
        SortMode::Default => s,
        SortMode::ByDeadlineDescending => sort_by(SortKey::ByDeadline, s).reverse(),
        SortMode::ByDeadlineAscending => sort_by(SortKey::ByDeadline, s),
        SortMode::ByTextAscending => sort_by(SortKey::ByText, s),
        SortMode::ByTextDescending => sort_by(SortKey::ByText, s).reverse(),
    }
}

/// Non-negative subtraction.
pub open spec fn sat_sub(a: int, b: int) -> int {
    if a >= b {
        a - b
    } else {
        0
    }
}

/// The scroll offset after recomputation: moved up just enough when the
/// selection is within `scrolloff` of the top edge, moved down just enough
/// when it is within `scrolloff` of the bottom edge, and clamped so it never
/// exceeds what fits (`len - inner`, floored at zero).
pub open spec fn scroll_target(scroll: int, scrolloff: int, active: int, inner: int, len: int) -> int {
    if scroll + scrolloff >= active {
        sat_sub(scroll, scroll + scrolloff - active)
    } else if sat_sub(scroll + inner, scrolloff) <= active {
        let shifted = scroll + (active - sat_sub(scroll + inner, scrolloff));
        if shifted <= sat_sub(len, inner) {
            shifted
        } else {
            sat_sub(len, inner)
        }
    } else {
        scroll
    }
}

/// The scroll offset never leaves `[0, max(len - inner, 0)]` when it starts
/// inside it.
pub proof fn lemma_scroll_clamp(scroll: int, scrolloff: int, active: int, inner: int, len: int)
    requires
        0 <= scroll <= sat_sub(len, inner),
        0 <= scrolloff,
        0 <= active,
    ensures
        0 <= scroll_target(scroll, scrolloff, active, inner, len) <= sat_sub(len, inner),
{
}

impl Ui {
    /// The engine's invariant: the selection is in range (zero on an empty
    /// document), and the working document always has exactly as many
    /// entries as the pristine snapshot.
    pub open spec fn wf(self) -> bool {
        &&& self.document@.entries.len() == self.original_document@.entries.len()
        &&& (self.document@.entries.len() == 0 ==> self.active_entry_idx == 0)
        &&& (self.document@.entries.len() > 0 ==> (self.active_entry_idx as int)
            < self.document@.entries.len())
    }

    /// Builds the engine state around a freshly parsed document, cloning it
    /// once as the pristine snapshot. The terminal dimensions are supplied
    /// by the caller.
    pub fn init(document: Document, width: usize, height: usize) -> (ui: Ui)
        ensures
            ui.wf(),
            ui.document@ == document@,
            ui.original_document@ == document@,
            ui.active_entry_idx == 0,
            ui.current_scroll_offset == 0,
            ui.scrolloff == 8,
            ui.current_sort_mode == SortMode::Default,
            ui.save_on_quit,
            !ui.queue_sort_update,
            ui.width == width,
            ui.height == height,
    {
        let original_document = clone_document(&document);
        Ui {
            scrolloff: 8,
            current_sort_mode: SortMode::Default,
            original_document,
            document,
            width,
            save_on_quit: true,
            height,
            active_entry_idx: 0,
            current_scroll_offset: 0,
            queue_sort_update: false,
        }
    }

    /// Updates the stored terminal dimensions; reports when they are too
    /// small to display the interface.
    pub fn update_dimensions(&mut self, width: usize, height: usize) -> (r: Result<(), UiError>)
        ensures
            *final(self) == (Ui { width, height, ..(*old(self)) }),
            r == if height < 4 || width < 45 {
                Err::<(), UiError>(UiError::WindowTooSmall)
            } else {
                Ok::<(), UiError>(())
            },
    {
        self.width = width;
        self.height = height;
        if height < 4 || width < 45 {
            Err(UiError::WindowTooSmall)
        } else {
            Ok(())
        }
    }

    /// The number of rows available for entries, below the header.
    pub fn inner_height(&self) -> (r: usize)
        requires
            self.height >= 3,
        ensures
            r == self.height - 3,
    {
        self.height - 3
    }

    /// Recomputes the index of the first shown entry from the selection,
    /// keeping `scrolloff` rows visible around it and never scrolling past
    /// what fits. Exact result given by [`scroll_target`]; it stays in
    /// range whenever it starts in range.
    pub fn update_scroll_offset(&mut self)
        requires
            old(self).wf(),
            old(self).height >= 3,
            old(self).current_scroll_offset + old(self).scrolloff + old(self).height + old(self).document@.entries.len() < usize::MAX,
        ensures
            *final(self) == (Ui {
                current_scroll_offset: final(self).current_scroll_offset,
                ..(*old(self))
            }),
            final(self).current_scroll_offset as int == scroll_target(
                old(self).current_scroll_offset as int,
                old(self).scrolloff as int,
                old(self).active_entry_idx as int,
                old(self).height - 3,
                old(self).document@.entries.len() as int,
            ),
            old(self).current_scroll_offset as int <= sat_sub(
                old(self).document@.entries.len() as int,
                old(self).height - 3,
            ) ==> final(self).current_scroll_offset as int <= sat_sub(
                old(self).document@.entries.len() as int,
                old(self).height - 3,
            ),
    {
        let inner = self.inner_height();
        let len = self.document.entries.len();
        if self.current_scroll_offset + self.scrolloff >= self.active_entry_idx {
            let diff = self.current_scroll_offset + self.scrolloff - self.active_entry_idx;
            self.current_scroll_offset = if self.current_scroll_offset >= diff {
                self.current_scroll_offset - diff
            } else {
                0
            };
        } else {
            let edge = if self.current_scroll_offset + inner >= self.scrolloff {
                self.current_scroll_offset + inner - self.scrolloff
            } else {
                0
            };
            if edge <= self.active_entry_idx {
                let diff = self.active_entry_idx - edge;
                let cap = if len >= inner {
                    len - inner
                } else {
                    0
                };
                self.current_scroll_offset = if self.current_scroll_offset + diff <= cap {
                    self.current_scroll_offset + diff
                } else {
                    cap
                };
            }
        }
    }

    /// Moves the selection one step, wrapping at both ends; reports the
    /// precondition failure on an empty document, which is left unchanged.
    pub fn move_selection(&mut self, dir: MoveDirection) -> (r: Result<(), UiError>)
        requires
            old(self).wf(),
        ensures
            final(self).wf(),
            *final(self) == (Ui {
                active_entry_idx: final(self).active_entry_idx,
                ..(*old(self))
            }),
            old(self).document@.entries.len() == 0 ==> r == Err::<(), UiError>(
                UiError::EmptyDocument,
            ) && *final(self) == *old(self),
            old(self).document@.entries.len() > 0 ==> r == Ok::<(), UiError>(()) && final(self).active_entry_idx as int == next_index(
                dir,
                old(self).active_entry_idx as int,
                old(self).document@.entries.len() as int,
            ),
    {
        let n = self.document.entries.len();
        if n == 0 {
            return Err(UiError::EmptyDocument);
        }
        match dir {
            MoveDirection::Down => {
                self.active_entry_idx = (self.active_entry_idx + 1) % n;
            },
            MoveDirection::Up => {
                let i = self.active_entry_idx;
                self.active_entry_idx = if i == 0 {
                    n - 1
                } else {
                    i - 1
                };
                proof {
                    if i == 0 {
                        lemma_mod_add_multiples_vanish(n as int - 1, n as int);
                        lemma_small_mod((n - 1) as nat, n as nat);
                    } else {
                        lemma_mod_add_multiples_vanish(i as int - 1, n as int);
                        lemma_small_mod((i - 1) as nat, n as nat);
                    }
                }
            },
        }
        Ok(())
    }

    /// Sets the selection to the last entry; does nothing on an empty
    /// document.
    pub fn move_selection_to_bottom(&mut self)
        requires
            old(self).wf(),
        ensures
            final(self).wf(),
            *final(self) == (Ui {
                active_entry_idx: final(self).active_entry_idx,
                ..(*old(self))
            }),
            old(self).document@.entries.len() == 0 ==> *final(self) == *old(self),
            old(self).document@.entries.len() > 0 ==> final(self).active_entry_idx as int == old(self).document@.entries.len() - 1,
    {
        let n = self.document.entries.len();
        if n > 0 {
            self.active_entry_idx = n - 1;
        }
    }

    /// Sets the selection to the first entry.
    pub fn move_selection_to_top(&mut self)
        requires
            old(self).wf(),
        ensures
            final(self).wf(),
            *final(self) == (Ui { active_entry_idx: 0, ..(*old(self)) }),
    {
        self.active_entry_idx = 0;
    }

    /// Swaps the selected entry with its neighbor in the wrap-around
    /// direction, then moves the selection the same way so it follows the
    /// entry; does nothing on an empty document.
    pub fn move_selected_entry(&mut self, dir: MoveDirection)
        requires
            old(self).wf(),
        ensures
            final(self).wf(),
            *final(self) == (Ui {
                active_entry_idx: final(self).active_entry_idx,
                document: final(self).document,
                ..(*old(self))
            }),
            old(self).document@.entries.len() == 0 ==> *final(self) == *old(self),
            old(self).document@.entries.len() > 0 ==> {
                let i = old(self).active_entry_idx as int;
                let j = next_index(dir, i, old(self).document@.entries.len() as int);
                &&& final(self).document@.title == old(self).document@.title
                &&& final(self).document@.entries == old(self).document@.entries.update(
                    i,
                    old(self).document@.entries[j],
                ).update(j, old(self).document@.entries[i])
                &&& final(self).active_entry_idx as int == j
            },
    {
        let n = self.document.entries.len();
        if n == 0 {
            return ;
        }
        let i = self.active_entry_idx;
        let swap_idx = match dir {
            MoveDirection::Down => (i + 1) % n,
            MoveDirection::Up => {
                if i == 0 {
                    n - 1
                } else {
                    i - 1
                }
            },
        };
        proof {
            match dir {
                MoveDirection::Down => {},
                MoveDirection::Up => {
                    if i == 0 {
                        lemma_mod_add_multiples_vanish(n as int - 1, n as int);
                        lemma_small_mod((n - 1) as nat, n as nat);
                    } else {
                        lemma_mod_add_multiples_vanish(i as int - 1, n as int);
                        lemma_small_mod((i - 1) as nat, n as nat);
                    }
                },
            }
            assert(swap_idx as int == next_index(dir, i as int, n as int));
        }
        let a = clone_entry(&self.document.entries[i]);
        let b = clone_entry(&self.document.entries[swap_idx]);
        let slot_i = &mut self.document.entries[i];
        *slot_i = b;
        let slot_j = &mut self.document.entries[swap_idx];
        *slot_j = a;
        self.active_entry_idx = swap_idx;
        proof {
            assert(final(self).document@.entries =~= old(self).document@.entries.update(
                i as int,
                old(self).document@.entries[swap_idx as int],
            ).update(swap_idx as int, old(self).document@.entries[i as int]));
        }
    }

    /// Flips the done flag of the selected entry; does nothing on an empty
    /// document.
    pub fn toggle_active_entry(&mut self)
        requires
            old(self).wf(),
        ensures
            final(self).wf(),
            *final(self) == (Ui { document: final(self).document, ..(*old(self)) }),
            old(self).document@.entries.len() == 0 ==> *final(self) == *old(self),
            old(self).document@.entries.len() > 0 ==> {
                let i = old(self).active_entry_idx as int;
                let e = old(self).document@.entries[i];
                &&& final(self).document@.title == old(self).document@.title
                &&& final(self).document@.entries == old(self).document@.entries.update(
                    i,
                    (EntryV { done: !e.done, ..e }),
                )
            },
    {
        let n = self.document.entries.len();
        if n == 0 {
            return ;
        }
        let i = self.active_entry_idx;
        let slot = &mut self.document.entries[i];
        let flipped = !slot.done;
        slot.done = flipped;
        proof {
            assert(final(self).document@.entries =~= old(self).document@.entries.update(
                i as int,
                (EntryV { done: !old(self).document@.entries[i as int].done, ..old(self).document@.entries[i as int] }),
            ));
        }
    }

    /// Advances the sort mode one step along the fixed cycle and marks a
    /// re-sort as pending.
    pub fn cycle_sort_mode(&mut self)
        requires
            old(self).wf(),
        ensures
            final(self).wf(),
            *final(self) == (Ui {
                current_sort_mode: cycle_mode(old(self).current_sort_mode),
                queue_sort_update: true,
                ..(*old(self))
            }),
    {
        self.current_sort_mode = match self.current_sort_mode {
            SortMode::Default => SortMode::ByDeadlineDescending,
            SortMode::ByDeadlineDescending => SortMode::ByDeadlineAscending,
            SortMode::ByDeadlineAscending => SortMode::ByTextAscending,
            SortMode::ByTextAscending => SortMode::ByTextDescending,
            SortMode::ByTextDescending => SortMode::Default,
        };
        self.queue_sort_update = true;
    }

    /// Applies the pending sort, once: the default mode restores the working
    /// document from the pristine snapshot (discarding every change made to
    /// the working copy), and each other mode stably sorts the entries by
    /// its key, descending modes by reversing the ascending result. Invoking
    /// this when nothing is pending is a no-op.
    pub fn apply_sort_mode(&mut self)
        requires
            old(self).wf(),
        ensures
            final(self).wf(),
            !old(self).queue_sort_update ==> *final(self) == *old(self),
            old(self).queue_sort_update ==> {
                &&& *final(self) == (Ui {
                    document: final(self).document,
                    queue_sort_update: false,
                    ..(*old(self))
                })
                &&& old(self).current_sort_mode == SortMode::Default ==> final(self).document@
                    == old(self).original_document@
                &&& old(self).current_sort_mode != SortMode::Default ==> final(self).document@
                    == (DocumentV {
                    title: old(self).document@.title,
                    entries: sorted_entries(
                        old(self).current_sort_mode,
                        old(self).document@.entries,
                    ),
                })
            },
    {
        if self.queue_sort_update {
            match self.current_sort_mode {
                SortMode::Default => {
                    self.document = clone_document(&self.original_document);
                },
                SortMode::ByDeadlineDescending => {
                    let sorted = sort_entries(SortKey::ByDeadline, &self.document.entries);
                    self.document.entries = sorted;
                    reverse_entries(&mut self.document.entries);
                    proof {
                        lemma_sort_by_len(SortKey::ByDeadline, old(self).document@.entries);
                    }
                },
                SortMode::ByDeadlineAscending => {
                    let sorted = sort_entries(SortKey::ByDeadline, &self.document.entries);
                    self.document.entries = sorted;
                    proof {
                        lemma_sort_by_len(SortKey::ByDeadline, old(self).document@.entries);
                    }
                },
                SortMode::ByTextAscending => {
                    let sorted = sort_entries(SortKey::ByText, &self.document.entries);
                    self.document.entries = sorted;
                    proof {
                        lemma_sort_by_len(SortKey::ByText, old(self).document@.entries);
                    }
                },
                SortMode::ByTextDescending => {
                    let sorted = sort_entries(SortKey::ByText, &self.document.entries);
                    self.document.entries = sorted;
                    reverse_entries(&mut self.document.entries);
                    proof {
                        lemma_sort_by_len(SortKey::ByText, old(self).document@.entries);
                    }
                },
            }
            self.queue_sort_update = false;
        }
    }

    /// Marks the session as not to be saved on quit; the documents are left
    /// untouched.
    pub fn dont_save_on_quit(&mut self)
        requires
            old(self).wf(),
        ensures
            final(self).wf(),
            *final(self) == (Ui { save_on_quit: false, ..(*old(self)) }),
    {
        self.save_on_quit = false;
    }
}

/// The selected index after `k` single-step moves in one direction.
pub open spec fn selection_after(dir: MoveDirection, i: int, n: int, k: nat) -> int
    decreases k,
{
    if k == 0 {
        i
    } else {
        next_index(dir, selection_after(dir, i, n, (k - 1) as nat), n)
    }
}

/// Closed form of [`selection_after`]: `k` steps move the selection by `k`,
/// down or up, modulo the entry count.
proof fn lemma_selection_after_closed(dir: MoveDirection, i: int, n: int, k: nat)
    requires
        0 <= i < n,
    ensures
        selection_after(dir, i, n, k) == match dir {
            MoveDirection::Down => (i + k) % n,
            MoveDirection::Up => (i - k) % n,
        },
    decreases k,
{
    if k == 0 {
        lemma_small_mod(i as nat, n as nat);
    } else {
        lemma_selection_after_closed(dir, i, n, (k - 1) as nat);
        match dir {
            MoveDirection::Down => {
                lemma_add_mod_noop(i + k - 1, 1, n);
                if n == 1 {
                } else {
                    lemma_small_mod(1nat, n as nat);
                }
            },
            MoveDirection::Up => {
                lemma_add_mod_noop(i - k + 1, n - 1, n);
                if n == 1 {
                } else {
                    lemma_small_mod((n - 1) as nat, n as nat);
                }
                lemma_mod_add_multiples_vanish(i - k, n);
            },
        }
    }
}

/// Selection movement wraps: in a document with `n > 0` entries, `n`
/// single-step moves in either direction return the selection to where it
/// started.
pub proof fn lemma_selection_wraps(dir: MoveDirection, i: int, n: int)
    requires
        0 <= i < n,
    ensures
        selection_after(dir, i, n, n as nat) == i,
{
    lemma_selection_after_closed(dir, i, n, n as nat);
    lemma_mod_add_multiples_vanish(i - n, n);
    lemma_mod_add_multiples_vanish(i, n);
    lemma_small_mod(i as nat, n as nat);
}

/// The sort mode after `k` cycle steps.
pub open spec fn mode_after(m: SortMode, k: nat) -> SortMode
    decreases k,
{
    if k == 0 {
        m
    } else {
        cycle_mode(mode_after(m, (k - 1) as nat))
    }
}

/// Cycling the sort mode exactly five times returns it to where it started;
/// in particular, five cycles from the default mode come back to it.
pub proof fn lemma_sort_cycle_period(m: SortMode)
    ensures
        mode_after(m, 5) == m,
{
    assert(mode_after(m, 0) == m);
    assert(mode_after(m, 1) == cycle_mode(mode_after(m, 0)));
    assert(mode_after(m, 2) == cycle_mode(mode_after(m, 1)));
    assert(mode_after(m, 3) == cycle_mode(mode_after(m, 2)));
    assert(mode_after(m, 4) == cycle_mode(mode_after(m, 3)));
    assert(mode_after(m, 5) == cycle_mode(mode_after(m, 4)));
}

} // verus!
