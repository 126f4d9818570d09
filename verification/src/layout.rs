//! Layout choices: single-line or indented formatting.
use vstd::prelude::*;
use crate::format_output::FormatOutput;
use crate::whitespace::{Whitespace, WhitespaceConfig, WhitespaceFormatKind};

verus! {

/// Single or indent formatting
#[derive(Clone, Copy, Debug)]
pub enum FmtSingleOrIndent {
    Single,
    Indent,
}

impl FmtSingleOrIndent {
    /// The prefix whitespace: a single space, or indentation
    pub fn prefix_ws(self) -> (r: WhitespaceConfig)
        ensures
            r == (WhitespaceConfig {
                format: Some(match self {
                    FmtSingleOrIndent::Single => WhitespaceFormatKind::Spaces { len: 1 },
                    FmtSingleOrIndent::Indent => WhitespaceFormatKind::Indent { use_prev: false, remove_if_pure: false },
                }),
            }),
    {
        match self {
            FmtSingleOrIndent::Single => Whitespace::single(),
            FmtSingleOrIndent::Indent => Whitespace::indent(false),
        }
    }
}

/// Remove or indent formatting
#[derive(Clone, Copy, Debug)]
pub enum FmtRemoveOrIndent {
    Remove,
    Indent,
}

impl FmtRemoveOrIndent {
    /// The prefix whitespace: removed, or indentation
    pub fn prefix_ws(self) -> (r: WhitespaceConfig)
        ensures
            r == (WhitespaceConfig {
                format: Some(match self {
                    FmtRemoveOrIndent::Remove => WhitespaceFormatKind::Remove,
                    FmtRemoveOrIndent::Indent => WhitespaceFormatKind::Indent { use_prev: false, remove_if_pure: false },
                }),
            }),
    {
        match self {
            FmtRemoveOrIndent::Remove => Whitespace::remove(),
            FmtRemoveOrIndent::Indent => Whitespace::indent(false),
        }
    }
}

/// The length of a format output without its prefix whitespace.
pub open spec fn len_without_prefix(output: FormatOutput) -> int {
    output.len - match output.prefix_ws_len {
        Some(p) => p as int,
        None => 0,
    }
}

/// Returns whether a list formatted on one line stays: its length, without
/// the prefix whitespace, is at most `max_len`. Otherwise the list is
/// formatted again, one item per indented line, with a trailing comma.
pub fn keeps_single_line(compact: FormatOutput, max_len: usize) -> (r: bool)
    requires
        compact.prefix_ws_len matches Some(p) ==> p <= compact.len,
    ensures
        r == (len_without_prefix(compact) <= max_len),
{
    compact.len_without_prefix_ws() <= max_len
}

} // verus!
