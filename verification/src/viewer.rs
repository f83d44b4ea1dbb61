//! Interface state of the review session: selection, scrolling, context
//! width.  Context widening is a property of the whole diff request, so
//! expanding and resetting only change the requested width here; the
//! caller re-generates and re-parses the diff with the stated width after
//! every change, which is what makes reset idempotent.

use vstd::prelude::*;

use crate::diff_model::{sat_add, spec_sat_add};

verus! {

/// Scroll, cursor, selection and context state of the viewer.
#[derive(Debug, Clone)]
pub struct ViewerState {
    pub selected_commit_index: usize,
    pub selected_file_index: usize,
    pub log_pane_visible: bool,
    pub help_visible: bool,
    pub scroll_offset: usize,
    pub horizontal_scroll: usize,
    pub cursor_line: usize,
    pub terminal_width: u16,
    pub terminal_height: u16,
    pub current_context_lines: u32,
    pub default_context_lines: u32,
    pub context_expand_increment: u32,
}

/// What expanding does to the requested context width.
pub open spec fn spec_expanded(c: u32, inc: u32) -> u32 {
    if c + inc > u32::MAX {
        u32::MAX
    } else {
        (c + inc) as u32
    }
}

/// The full state transition of one `expand_context` call.
pub open spec fn spec_expand_st(s: ViewerState) -> ViewerState {
    ViewerState {
        current_context_lines: spec_expanded(s.current_context_lines, s.context_expand_increment),
        scroll_offset: 0,
        ..s
    }
}

/// The full state transition of one `reset_context` call.
pub open spec fn spec_reset_st(s: ViewerState) -> ViewerState {
    ViewerState { current_context_lines: s.default_context_lines, scroll_offset: 0, ..s }
}

/// The state after `n` consecutive expansions.
pub open spec fn spec_expand_n_st(s: ViewerState, n: nat) -> ViewerState
    decreases n,
{
    if n == 0 {
        s
    } else {
        spec_expand_st(spec_expand_n_st(s, (n - 1) as nat))
    }
}

impl ViewerState {
    /// A fresh viewer over `commit_count` commits, at the configured
    /// default context width.
    pub fn new(
        terminal_width: u16,
        terminal_height: u16,
        default_context_lines: u32,
        context_expand_increment: u32,
    ) -> (r: ViewerState)
        ensures
            r.selected_commit_index == 0,
            r.selected_file_index == 0,
            r.log_pane_visible,
            !r.help_visible,
            r.scroll_offset == 0,
            r.horizontal_scroll == 0,
            r.cursor_line == 0,
            r.current_context_lines == default_context_lines,
            r.default_context_lines == default_context_lines,
            r.context_expand_increment == context_expand_increment,
    {
        ViewerState {
            selected_commit_index: 0,
            selected_file_index: 0,
            log_pane_visible: true,
            help_visible: false,
            scroll_offset: 0,
            horizontal_scroll: 0,
            cursor_line: 0,
            terminal_width,
            terminal_height,
            current_context_lines: default_context_lines,
            default_context_lines,
            context_expand_increment,
        }
    }

    /// Widen the requested context by the configured increment; the diff
    /// must then be re-generated at the new width, so the scroll resets.
    pub fn expand_context(&mut self)
        ensures
            *final(self) == spec_expand_st(*old(self)),
            final(self).current_context_lines == spec_expanded(
                old(self).current_context_lines,
                old(self).context_expand_increment,
            ),
            final(self).scroll_offset == 0,
    {
        let inc = self.context_expand_increment;
        self.current_context_lines = if u32::MAX - self.current_context_lines < inc {
            u32::MAX
        } else {
            self.current_context_lines + inc
        };
        self.scroll_offset = 0;
    }

    /// Return to the configured default context width; the diff must then
    /// be re-generated, so the scroll resets.
    pub fn reset_context(&mut self)
        ensures
            *final(self) == spec_reset_st(*old(self)),
            final(self).current_context_lines == old(self).default_context_lines,
            final(self).scroll_offset == 0,
    {
        self.current_context_lines = self.default_context_lines;
        self.scroll_offset = 0;
    }

    /// Scroll vertically by `amount`, clamped to the content: upward
    /// scrolling saturates at the top, downward scrolling stops where the
    /// last screenful begins, and the cursor never leaves the content.
    pub fn scroll(&mut self, amount: isize, content_lines: usize)
        ensures
            ({
                let visible = if old(self).terminal_height >= 3 {
                    (old(self).terminal_height - 3) as usize
                } else {
                    0usize
                };
                let max_scroll = if content_lines >= visible {
                    (content_lines - visible) as usize
                } else {
                    0usize
                };
                if amount < 0 {
                    let mag = -(amount as int);
                    final(self).scroll_offset == (if old(self).scroll_offset >= mag {
                        old(self).scroll_offset - mag
                    } else {
                        0int
                    }) && final(self).cursor_line == (if old(self).cursor_line >= mag {
                        old(self).cursor_line - mag
                    } else {
                        0int
                    })
                } else {
                    let up = spec_sat_add(old(self).scroll_offset, amount as usize);
                    let uc = spec_sat_add(old(self).cursor_line, amount as usize);
                    final(self).scroll_offset == (if up <= max_scroll {
                        up
                    } else {
                        max_scroll
                    }) && final(self).cursor_line == (if uc <= content_lines {
                        uc
                    } else {
                        content_lines
                    })
                }
            }),
            final(self).current_context_lines == old(self).current_context_lines,
    {
        let visible: usize = if self.terminal_height >= 3 {
            (self.terminal_height - 3) as usize
        } else {
            0
        };
        let max_scroll: usize = if content_lines >= visible {
            content_lines - visible
        } else {
            0
        };
        if amount < 0 {
            let mag: usize = if amount == isize::MIN {
                (isize::MAX as usize) + 1
            } else {
                (-amount) as usize
            };
            self.scroll_offset = if self.scroll_offset >= mag {
                self.scroll_offset - mag
            } else {
                0
            };
            self.cursor_line = if self.cursor_line >= mag {
                self.cursor_line - mag
            } else {
                0
            };
        } else {
            let up = sat_add(self.scroll_offset, amount as usize);
            self.scroll_offset = if up <= max_scroll {
                up
            } else {
                max_scroll
            };
            let uc = sat_add(self.cursor_line, amount as usize);
            self.cursor_line = if uc <= content_lines {
                uc
            } else {
                content_lines
            };
        }
    }

    /// Scroll horizontally; leftward saturates at the start, rightward is
    /// unbounded here and clipped at render time.
    pub fn scroll_horizontal(&mut self, amount: isize)
        ensures
            amount < 0 ==> final(self).horizontal_scroll == (if old(self).horizontal_scroll >= -(
            amount as int) {
                old(self).horizontal_scroll + (amount as int)
            } else {
                0int
            }),
            amount >= 0 ==> final(self).horizontal_scroll == spec_sat_add(
                old(self).horizontal_scroll,
                amount as usize,
            ),
    {
        if amount < 0 {
            let mag: usize = if amount == isize::MIN {
                (isize::MAX as usize) + 1
            } else {
                (-amount) as usize
            };
            self.horizontal_scroll = if self.horizontal_scroll >= mag {
                self.horizontal_scroll - mag
            } else {
                0
            };
        } else {
            self.horizontal_scroll = sat_add(self.horizontal_scroll, amount as usize);
        }
    }

    /// Snap the horizontal scroll back to the start.
    pub fn reset_horizontal_scroll(&mut self)
        ensures
            *final(self) == (ViewerState { horizontal_scroll: 0, ..*old(self) }),
            final(self).horizontal_scroll == 0,
    {
        self.horizontal_scroll = 0;
    }

    /// Record the terminal's new size.
    pub fn handle_resize(&mut self, width: u16, height: u16)
        ensures
            final(self).terminal_width == width,
            final(self).terminal_height == height,
    {
        self.terminal_width = width;
        self.terminal_height = height;
    }

    /// Select a commit by index; a fresh selection resets scrolling and the
    /// context width, and the caller reloads the diff.
    pub fn select_commit(&mut self, index: usize, commit_count: usize)
        ensures
            (index < commit_count && index != old(self).selected_commit_index) ==> final(self).selected_commit_index == index && final(self).scroll_offset == 0 && final(self).horizontal_scroll == 0 && final(self).current_context_lines == old(self).default_context_lines,
            !(index < commit_count && index != old(self).selected_commit_index) ==> *final(self)
                == *old(self),
    {
        if index < commit_count && index != self.selected_commit_index {
            self.selected_commit_index = index;
            self.scroll_offset = 0;
            self.reset_horizontal_scroll();
            self.reset_context();
        }
    }

    /// Move to the next commit, if any; the caller reloads the diff.
    pub fn next_commit(&mut self, commit_count: usize)
        ensures
            old(self).selected_commit_index + 1 < commit_count ==> final(self).selected_commit_index == old(self).selected_commit_index + 1 && final(self).scroll_offset == 0 && final(self).horizontal_scroll == 0 && final(self).current_context_lines == old(self).default_context_lines,
            old(self).selected_commit_index + 1 >= commit_count ==> *final(self) == *old(self),
    {
        if self.selected_commit_index < usize::MAX && self.selected_commit_index + 1 < commit_count
        {
            self.selected_commit_index = self.selected_commit_index + 1;
            self.scroll_offset = 0;
            self.reset_horizontal_scroll();
            self.reset_context();
        }
    }

    /// Move to the previous commit, if any; the caller reloads the diff.
    pub fn previous_commit(&mut self)
        ensures
            old(self).selected_commit_index > 0 ==> final(self).selected_commit_index == old(self).selected_commit_index - 1 && final(self).scroll_offset == 0 && final(self).horizontal_scroll == 0 && final(self).current_context_lines == old(self).default_context_lines,
            old(self).selected_commit_index == 0 ==> *final(self) == *old(self),
    {
        if self.selected_commit_index > 0 {
            self.selected_commit_index = self.selected_commit_index - 1;
            self.scroll_offset = 0;
            self.reset_horizontal_scroll();
            self.reset_context();
        }
    }

    /// Move to the next file of the current diff, if any.
    pub fn next_file(&mut self, file_count: usize)
        ensures
            old(self).selected_file_index + 1 < file_count ==> final(self).selected_file_index
                == old(self).selected_file_index + 1 && final(self).scroll_offset == 0 && final(self).horizontal_scroll == 0,
            old(self).selected_file_index + 1 >= file_count ==> *final(self) == *old(self),
    {
        if self.selected_file_index < usize::MAX && self.selected_file_index + 1 < file_count {
            self.selected_file_index = self.selected_file_index + 1;
            self.scroll_offset = 0;
            self.reset_horizontal_scroll();
        }
    }

    /// Move to the previous file of the current diff, if any.
    pub fn previous_file(&mut self)
        ensures
            old(self).selected_file_index > 0 ==> final(self).selected_file_index == old(self).selected_file_index - 1 && final(self).scroll_offset == 0 && final(self).horizontal_scroll == 0,
            old(self).selected_file_index == 0 ==> *final(self) == *old(self),
    {
        if self.selected_file_index > 0 {
            self.selected_file_index = self.selected_file_index - 1;
            self.scroll_offset = 0;
            self.reset_horizontal_scroll();
        }
    }

    /// Toggle the commit-log pane.
    pub fn toggle_log_pane(&mut self)
        ensures
            final(self).log_pane_visible == !old(self).log_pane_visible,
    {
        self.log_pane_visible = !self.log_pane_visible;
    }

    /// Toggle the help overlay.
    pub fn toggle_help(&mut self)
        ensures
            final(self).help_visible == !old(self).help_visible,
    {
        self.help_visible = !self.help_visible;
    }
}

/// Resetting is idempotent over expansion: after any number of
/// `expand_context` steps, one `reset_context` requests exactly the
/// default context width — the same request a fresh load at the default
/// makes, and the same state one reset alone reaches.  The diff shown
/// after a reset is re-generated and re-parsed from that width alone, so
/// its hunk boundaries coincide with a fresh load's.
pub proof fn lemma_reset_restores_default(s: ViewerState, n: nat)
    ensures
        spec_reset_st(spec_expand_n_st(s, n)).current_context_lines == s.default_context_lines,
        spec_reset_st(spec_expand_n_st(s, n)) == spec_reset_st(s),
    decreases n,
{
    if n > 0 {
        lemma_reset_restores_default(s, (n - 1) as nat);
    }
}

} // verus!
