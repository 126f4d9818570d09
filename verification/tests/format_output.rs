use rustidy::format_output::FormatOutput;
use rustidy::layout::{keeps_single_line, FmtRemoveOrIndent, FmtSingleOrIndent};
use rustidy::whitespace::WhitespaceFormatKind;

fn out(prefix_ws_len: Option<usize>, len: usize, newlines: usize, is_empty: bool, is_blank: bool) -> FormatOutput {
    FormatOutput { prefix_ws_len, len, newlines, is_empty, is_blank }
}

fn same(a: FormatOutput, b: FormatOutput) -> bool {
    a.prefix_ws_len == b.prefix_ws_len && a.len == b.len && a.newlines == b.newlines && a.is_empty == b.is_empty
        && a.is_blank == b.is_blank
}

#[test]
fn join_keeps_left_prefix_ws() {
    let joined = FormatOutput::join(out(Some(2), 5, 1, false, false), out(Some(3), 4, 2, false, true));
    assert!(same(joined, out(Some(2), 9, 3, false, false)));
}

#[test]
fn join_takes_right_prefix_ws_after_empty_left() {
    let joined = FormatOutput::join(out(None, 0, 0, true, true), out(Some(3), 4, 0, false, true));
    assert!(same(joined, out(Some(3), 4, 0, false, true)));
}

#[test]
fn join_drops_right_prefix_ws_after_text() {
    let joined = FormatOutput::join(out(None, 1, 0, false, false), out(Some(3), 4, 0, false, true));
    assert!(same(joined, out(None, 5, 0, false, false)));
}

#[test]
fn default_is_identity_of_join() {
    let a = out(Some(1), 7, 2, false, false);
    assert!(same(FormatOutput::join(FormatOutput::default(), a), a));
    assert!(same(FormatOutput::join(a, FormatOutput::default()), a));
    let d = FormatOutput::default();
    assert!(same(d, out(None, 0, 0, true, true)));
}

#[test]
fn join_is_associative_on_values() {
    let a = out(None, 0, 0, true, true);
    let b = out(Some(2), 3, 1, false, true);
    let c = out(None, 4, 1, false, false);
    let left = FormatOutput::join(FormatOutput::join(a, b), c);
    let right = FormatOutput::join(a, FormatOutput::join(b, c));
    assert!(same(left, right));
    assert!(same(left, out(Some(2), 7, 2, false, false)));
}

#[test]
fn join_all_folds_from_the_left() {
    let parts = [out(None, 0, 0, true, true), out(Some(1), 1, 1, false, true), out(None, 2, 0, false, false)];
    let all = FormatOutput::join_all(&parts);
    assert!(same(all, out(Some(1), 3, 1, false, false)));
    assert!(same(FormatOutput::join_all(&[]), FormatOutput::default()));
}

#[test]
fn append_and_append_to_join() {
    let mut a = out(Some(1), 2, 0, false, true);
    a.append(out(None, 3, 1, false, false));
    assert!(same(a, out(Some(1), 5, 1, false, false)));
    let mut b = out(None, 0, 0, true, true);
    out(Some(4), 4, 2, false, true).append_to(&mut b);
    assert!(same(b, out(Some(4), 4, 2, false, true)));
}

#[test]
fn output_queries() {
    let a = out(Some(3), 10, 2, false, false);
    assert!(a.has_prefix_ws());
    assert!(a.has_newlines());
    assert_eq!(a.len_without_prefix_ws(), 7);
    let b = out(None, 10, 0, false, false);
    assert!(!b.has_prefix_ws());
    assert!(!b.has_newlines());
    assert_eq!(b.len_without_prefix_ws(), 10);
}

#[test]
fn single_line_kept_within_limit() {
    assert!(keeps_single_line(out(Some(1), 11, 0, false, false), 10));
    assert!(!keeps_single_line(out(Some(1), 12, 0, false, false), 10));
    assert!(keeps_single_line(out(None, 0, 0, true, true), 0));
}

#[test]
fn fmt_choices_give_prefix_ws() {
    assert_eq!(FmtSingleOrIndent::Single.prefix_ws().format, Some(WhitespaceFormatKind::Spaces { len: 1 }));
    assert_eq!(
        FmtSingleOrIndent::Indent.prefix_ws().format,
        Some(WhitespaceFormatKind::Indent { use_prev: false, remove_if_pure: false })
    );
    assert_eq!(FmtRemoveOrIndent::Remove.prefix_ws().format, Some(WhitespaceFormatKind::Remove));
    assert_eq!(
        FmtRemoveOrIndent::Indent.prefix_ws().format,
        Some(WhitespaceFormatKind::Indent { use_prev: false, remove_if_pure: false })
    );
}
