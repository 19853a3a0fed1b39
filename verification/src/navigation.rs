//! Moving through the asset list of the interactive view: which asset is
//! selected, how far its details are scrolled, and what a key asks for.

use vstd::prelude::*;

verus! {

/// The index after `sel` in a list of `len`, wrapping to the first.
pub open spec fn next_index(sel: int, len: int) -> int {
    (sel + 1) % len
}

/// The index before `sel` in a list of `len`, wrapping to the last.
pub open spec fn previous_index(sel: int, len: int) -> int {
    if sel == 0 {
        len - 1
    } else {
        sel - 1
    }
}

/// `a - b`, or zero when `b` is larger.
pub open spec fn saturating_sub(a: int, b: int) -> int {
    if a > b {
        a - b
    } else {
        0
    }
}

/// How far one scroll step moves: a page is the visible height less one
/// line.
pub open spec fn scroll_step(page: bool, height: int) -> int {
    if page {
        saturating_sub(height, 1)
    } else {
        1
    }
}

/// Where the interactive view stands.
#[derive(Debug)]
pub struct Navigator {
    pub selected_index: usize,
    pub scroll_offset: usize,
    /// The lines the details pane shows.
    pub details_available_height: usize,
    /// Counts image loads, so that a late answer to an earlier load is
    /// recognized.
    pub load_generation: u64,
}

impl Navigator {
    /// The first asset selected, nothing scrolled.
    pub fn new() -> (r: Navigator)
        ensures
            r.selected_index == 0,
            r.scroll_offset == 0,
            r.details_available_height == 0,
            r.load_generation == 0,
    {
        Navigator { selected_index: 0, scroll_offset: 0, details_available_height: 0, load_generation: 0 }
    }

    /// Starts loading the selected asset's image: a new generation.
    pub fn next_generation(&mut self)
        ensures
            final(self).load_generation == (if old(self).load_generation == u64::MAX {
                0
            } else {
                old(self).load_generation + 1
            }),
            final(self).selected_index == old(self).selected_index,
            final(self).scroll_offset == old(self).scroll_offset,
            final(self).details_available_height == old(self).details_available_height,
    {
        self.load_generation = self.load_generation.wrapping_add(1);
    }

    /// Whether an image that finished loading for `generation` is still
    /// wanted: no other load started since.
    pub fn accepts_image(&self, generation: u64) -> (r: bool)
        ensures
            r == (generation == self.load_generation),
    {
        generation == self.load_generation
    }

    /// Selects the next asset of `len`, wrapping around, with its details
    /// scrolled to the top; no change when there are none.
    pub fn select_next(&mut self, len: usize)
        requires
            old(self).selected_index < usize::MAX,
        ensures
            len > 0 ==> final(self).selected_index == next_index(old(self).selected_index as int, len as int)
                && final(self).scroll_offset == 0,
            len == 0 ==> final(self).selected_index == old(self).selected_index
                && final(self).scroll_offset == old(self).scroll_offset,
            final(self).details_available_height == old(self).details_available_height,
            final(self).load_generation == old(self).load_generation,
    {
        if len > 0 {
            self.selected_index = (self.selected_index + 1) % len;
            self.scroll_offset = 0;
        }
    }

    /// Selects the previous asset of `len`, wrapping around, with its
    /// details scrolled to the top; no change when there are none.
    pub fn select_previous(&mut self, len: usize)
        ensures
            len > 0 ==> final(self).selected_index == previous_index(
                old(self).selected_index as int,
                len as int,
            ) && final(self).scroll_offset == 0,
            len == 0 ==> final(self).selected_index == old(self).selected_index
                && final(self).scroll_offset == old(self).scroll_offset,
            final(self).details_available_height == old(self).details_available_height,
            final(self).load_generation == old(self).load_generation,
    {
        if len > 0 {
            self.selected_index = if self.selected_index == 0 {
                len - 1
            } else {
                self.selected_index - 1
            };
            self.scroll_offset = 0;
        }
    }

    /// How far the details can scroll: the lines they take beyond the
    /// visible height; zero when nothing is selected.
    pub fn max_scroll_offset(&self, content_height: Option<usize>) -> (r: usize)
        ensures
            match content_height {
                Some(h) => r == saturating_sub(h as int, self.details_available_height as int),
                None => r == 0,
            },
    {
        match content_height {
            Some(h) => h.saturating_sub(self.details_available_height),
            None => 0,
        }
    }

    /// How far the details are shown scrolled: the scroll offset, no
    /// further than `max`.
    pub fn shown_scroll(&self, max: usize) -> (r: usize)
        ensures
            r == if self.scroll_offset < max {
                self.scroll_offset
            } else {
                max
            },
    {
        if self.scroll_offset < max {
            self.scroll_offset
        } else {
            max
        }
    }

    /// Scrolls the details down a line or a page, no further than `max`.
    pub fn scroll_down(&mut self, page: bool, max: usize)
        requires
            old(self).scroll_offset + scroll_step(page, old(self).details_available_height as int)
                <= usize::MAX,
        ensures
            final(self).scroll_offset == if old(self).scroll_offset + scroll_step(
                page,
                old(self).details_available_height as int,
            ) < max {
                old(self).scroll_offset + scroll_step(page, old(self).details_available_height as int)
            } else {
                max as int
            },
            final(self).selected_index == old(self).selected_index,
            final(self).details_available_height == old(self).details_available_height,
            final(self).load_generation == old(self).load_generation,
    {
        let inc = if page {
            self.details_available_height.saturating_sub(1)
        } else {
            1
        };
        let target = self.scroll_offset + inc;
        self.scroll_offset = if target < max {
            target
        } else {
            max
        };
    }

    /// Scrolls the details up a line or a page, no further than the top.
    pub fn scroll_up(&mut self, page: bool)
        ensures
            final(self).scroll_offset == saturating_sub(
                old(self).scroll_offset as int,
                scroll_step(page, old(self).details_available_height as int),
            ),
            final(self).selected_index == old(self).selected_index,
            final(self).details_available_height == old(self).details_available_height,
            final(self).load_generation == old(self).load_generation,
    {
        let inc = if page {
            self.details_available_height.saturating_sub(1)
        } else {
            1
        };
        self.scroll_offset = self.scroll_offset.saturating_sub(inc);
    }
}

/// A key the interactive view reads.
#[derive(Clone, Copy, Debug, PartialEq, Eq, Structural)]
pub enum Key {
    Char(char),
    Esc,
    Down,
    Up,
    PageDown,
    PageUp,
    Other,
}

/// What a key press asks for.
#[derive(Clone, Copy, Debug, PartialEq, Eq, Structural)]
pub enum KeyAction {
    Quit,
    SelectNext,
    SelectPrevious,
    ScrollDown { page: bool },
    ScrollUp { page: bool },
    TogglePreview,
    Ignore,
}

/// What a key press asks for: `q` or Esc quits; `j`, `J` or Down selects
/// the next asset (scrolls a line with Shift); `k`, `K` or Up the previous
/// one (scrolls up with Shift); Page Down and Page Up scroll a page; `P`
/// toggles the preview.
pub open spec fn key_meaning(key: Key, shift: bool) -> KeyAction {
    match key {
        Key::Char(c) => if c == 'q' {
            KeyAction::Quit
        } else if c == 'j' || c == 'J' {
            if shift {
                KeyAction::ScrollDown { page: false }
            } else {
                KeyAction::SelectNext
            }
        } else if c == 'k' || c == 'K' {
            if shift {
                KeyAction::ScrollUp { page: false }
            } else {
                KeyAction::SelectPrevious
            }
        } else if c == 'P' {
            KeyAction::TogglePreview
        } else {
            KeyAction::Ignore
        },
        Key::Esc => KeyAction::Quit,
        Key::Down => if shift {
            KeyAction::ScrollDown { page: false }
        } else {
            KeyAction::SelectNext
        },
        Key::Up => if shift {
            KeyAction::ScrollUp { page: false }
        } else {
            KeyAction::SelectPrevious
        },
        Key::PageDown => KeyAction::ScrollDown { page: true },
        Key::PageUp => KeyAction::ScrollUp { page: true },
        Key::Other => KeyAction::Ignore,
    }
}

/// The letter keys act as the arrow keys, in either case: `j` and `J` as
/// Down, `k` and `K` as Up. Without Shift, Down selects the next asset and
/// Up the previous one; with Shift they scroll by a line. `q` quits, as
/// Esc does.
pub proof fn law_letters_act_as_arrows(shift: bool)
    ensures
        key_meaning(Key::Char('j'), shift) == key_meaning(Key::Down, shift),
        key_meaning(Key::Char('J'), shift) == key_meaning(Key::Down, shift),
        key_meaning(Key::Char('k'), shift) == key_meaning(Key::Up, shift),
        key_meaning(Key::Char('K'), shift) == key_meaning(Key::Up, shift),
        key_meaning(Key::Down, false) == KeyAction::SelectNext,
        key_meaning(Key::Down, true) == (KeyAction::ScrollDown { page: false }),
        key_meaning(Key::Up, false) == KeyAction::SelectPrevious,
        key_meaning(Key::Up, true) == (KeyAction::ScrollUp { page: false }),
        key_meaning(Key::Char('q'), shift) == key_meaning(Key::Esc, shift),
        key_meaning(Key::Esc, shift) == KeyAction::Quit,
        key_meaning(Key::PageDown, shift) == (KeyAction::ScrollDown { page: true }),
        key_meaning(Key::PageUp, shift) == (KeyAction::ScrollUp { page: true }),
        key_meaning(Key::Char('P'), shift) == KeyAction::TogglePreview,
{
}

/// Every other character, and every other key, is ignored.
pub proof fn law_other_keys_ignored(c: char, shift: bool)
    requires
        c != 'q' && c != 'j' && c != 'J' && c != 'k' && c != 'K' && c != 'P',
    ensures
        key_meaning(Key::Char(c), shift) == KeyAction::Ignore,
        key_meaning(Key::Other, shift) == KeyAction::Ignore,
{
}

/// What a key press asks for (see `key_meaning`).
pub fn key_action(key: Key, shift: bool) -> (r: KeyAction)
    ensures
        r == key_meaning(key, shift),
{
    match key {
        Key::Char(c) => if c == 'q' {
            KeyAction::Quit
        } else if c == 'j' || c == 'J' {
            if shift {
                KeyAction::ScrollDown { page: false }
            } else {
                KeyAction::SelectNext
            }
        } else if c == 'k' || c == 'K' {
            if shift {
                KeyAction::ScrollUp { page: false }
            } else {
                KeyAction::SelectPrevious
            }
        } else if c == 'P' {
            KeyAction::TogglePreview
        } else {
            KeyAction::Ignore
        },
        Key::Esc => KeyAction::Quit,
        Key::Down => if shift {
            KeyAction::ScrollDown { page: false }
        } else {
            KeyAction::SelectNext
        },
        Key::Up => if shift {
            KeyAction::ScrollUp { page: false }
        } else {
            KeyAction::SelectPrevious
        },
        Key::PageDown => KeyAction::ScrollDown { page: true },
        Key::PageUp => KeyAction::ScrollUp { page: true },
        Key::Other => KeyAction::Ignore,
    }
}

/// Selecting the next asset and then the previous one comes back to the
/// asset selected first, and so does the reverse, in any non-empty list.
pub proof fn law_next_previous_inverse(sel: int, len: int)
    requires
        0 <= sel < len,
    ensures
        previous_index(next_index(sel, len), len) == sel,
        next_index(previous_index(sel, len), len) == sel,
        0 <= next_index(sel, len) < len,
        0 <= previous_index(sel, len) < len,
{
    if sel + 1 < len {
        assert((sel + 1) % len == sel + 1) by (nonlinear_arith)
            requires
                0 <= sel + 1 < len,
        ;
    } else {
        assert((sel + 1) % len == 0) by (nonlinear_arith)
            requires
                sel + 1 == len,
                len > 0,
        ;
    }
    if sel == 0 {
        assert(len % len == 0) by (nonlinear_arith)
            requires
                len > 0,
        ;
    } else {
        assert(sel % len == sel) by (nonlinear_arith)
            requires
                0 <= sel < len,
        ;
    }
}

} // verus!
