//! Display configuration: the diff mode and the numeric knobs of the
//! viewer, with their defaults.

use vstd::prelude::*;

verus! {

/// How the diff is rendered: dual columns or a single inline stream.
#[derive(Debug, Clone, Copy, PartialEq, Eq, Structural)]
pub enum DiffMode {
    SideBySide,
    Inline,
}

impl Default for DiffMode {
    fn default() -> (r: DiffMode)
        ensures
            r == DiffMode::SideBySide,
    {
        DiffMode::SideBySide
    }
}

/// The default number of context lines around each hunk.
pub fn default_context_lines() -> (r: u32)
    ensures
        r == 8,
{
    8
}

/// How many context lines each expansion adds.
pub fn default_context_expand_increment() -> (r: u32)
    ensures
        r == 8,
{
    8
}

/// How many columns one horizontal scroll step moves.
pub fn default_horizontal_scroll_amount() -> (r: u32)
    ensures
        r == 4,
{
    4
}

/// The default syntax-highlighting theme name.
pub fn default_syntax_theme() -> (r: String)
    ensures
        r@ == "base16-ocean.dark"@,
{
    let mut s = String::new();
    s.append("base16-ocean.dark");
    s
}

/// Whether line numbers are shown by default.
pub fn default_show_line_numbers() -> (r: bool)
    ensures
        r == true,
{
    true
}

/// Options of one diff-generation request; context width is the only
/// knob the underlying engine takes per request.
#[derive(Debug, Clone)]
pub struct DiffOptions {
    pub context_lines: u32,
}

impl Default for DiffOptions {
    fn default() -> (r: DiffOptions)
        ensures
            r.context_lines == 8,
    {
        DiffOptions { context_lines: 8 }
    }
}

/// Display settings of the diff view.
#[derive(Debug, Clone)]
pub struct DisplayConfig {
    pub diff_mode: DiffMode,
    pub context_lines: u32,
    pub context_expand_increment: u32,
    pub horizontal_scroll_amount: u32,
    pub syntax_theme: String,
}

impl Default for DisplayConfig {
    fn default() -> (r: DisplayConfig)
        ensures
            r.diff_mode == DiffMode::SideBySide,
            r.context_lines == 8,
            r.context_expand_increment == 8,
            r.horizontal_scroll_amount == 4,
            r.syntax_theme@ == "base16-ocean.dark"@,
    {
        DisplayConfig {
            diff_mode: DiffMode::SideBySide,
            context_lines: default_context_lines(),
            context_expand_increment: default_context_expand_increment(),
            horizontal_scroll_amount: default_horizontal_scroll_amount(),
            syntax_theme: default_syntax_theme(),
        }
    }
}

} // verus!
