use rustidy::ast_str::{AstStr, AstStrRepr};
use rustidy::output::{join_prefix_ws, FormatMultilineOutput, FormatOutput};

fn ml(prefix_ws_len: Option<usize>, prefix_len: usize, suffix_len: usize) -> FormatMultilineOutput {
    FormatMultilineOutput { prefix_ws_len, prefix_len, suffix_len }
}

fn same_ml(a: Option<FormatMultilineOutput>, b: Option<FormatMultilineOutput>) -> bool {
    match (a, b) {
        (None, None) => true,
        (Some(a), Some(b)) => a.prefix_ws_len == b.prefix_ws_len && a.prefix_len == b.prefix_len && a.suffix_len == b.suffix_len,
        _ => false,
    }
}

#[test]
fn multiline_from_str_measures_first_and_last_lines() {
    assert!(same_ml(FormatMultilineOutput::from_str("ab\ncde\nf"), Some(ml(None, 2, 1))));
    assert!(same_ml(FormatMultilineOutput::from_str("\n"), Some(ml(None, 0, 0))));
    assert!(same_ml(FormatMultilineOutput::from_str("no newline"), None));
    assert!(same_ml(FormatMultilineOutput::from_str(""), None));
}

#[test]
fn multiline_join_cases() {
    // Both multi-line: the left's prefix and the right's suffix.
    assert!(same_ml(FormatMultilineOutput::join(Some(ml(Some(1), 4, 2)), Some(ml(Some(7), 3, 5)), 10, 12), Some(ml(Some(1), 4, 5))));
    // Only the left: the right's length extends the suffix.
    assert!(same_ml(FormatMultilineOutput::join(Some(ml(None, 4, 2)), None, 10, 3), Some(ml(None, 4, 5))));
    // Only the right: the left's length extends the prefix.
    assert!(same_ml(FormatMultilineOutput::join(None, Some(ml(Some(2), 3, 5)), 4, 12), Some(ml(None, 7, 5))));
    assert!(same_ml(FormatMultilineOutput::join(None, Some(ml(Some(2), 3, 5)), 0, 12), Some(ml(Some(2), 3, 5))));
    assert!(same_ml(FormatMultilineOutput::join(None, None, 4, 5), None));
}

#[test]
fn prefix_ws_join_rules() {
    assert_eq!(join_prefix_ws(Some(3), Some(5), 9), Some(3));
    assert_eq!(join_prefix_ws(None, Some(5), 0), Some(5));
    assert_eq!(join_prefix_ws(None, Some(5), 1), None);
}

#[test]
fn multiline_of_indentation_and_chars() {
    let ind = AstStrRepr::Indentation { indent: String::from("\t"), newlines: 2, depth: 3 };
    assert!(same_ml(FormatMultilineOutput::from_ast_str_repr(&ind), Some(ml(None, 0, 3))));
    let flat = AstStrRepr::Indentation { indent: String::from("\t"), newlines: 0, depth: 3 };
    assert!(same_ml(FormatMultilineOutput::from_ast_str_repr(&flat), None));
    assert!(same_ml(FormatMultilineOutput::from_ast_str_repr(&AstStrRepr::Char('\n')), Some(ml(None, 0, 0))));
    assert!(same_ml(FormatMultilineOutput::from_ast_str_repr(&AstStrRepr::Char('x')), None));
    assert!(same_ml(FormatMultilineOutput::from_ast_str_repr(&AstStrRepr::Spaces { len: 4 }), None));
}

#[test]
fn multiline_of_joined_strings() {
    let lhs = AstStr { repr: AstStrRepr::Static("ab\nc"), input: None };
    let rhs = AstStr { repr: AstStrRepr::String(String::from("de\nfgh")), input: None };
    let joined = AstStrRepr::Join { lhs: Box::new(lhs), rhs: Box::new(rhs) };
    assert!(same_ml(FormatMultilineOutput::from_ast_str_repr(&joined), Some(ml(None, 2, 3))));
}

#[test]
fn multiline_output_lengths() {
    let single = FormatOutput { prefix_ws_len: Some(2), len: 9, is_empty: false, is_blank: false, multiline: None };
    assert_eq!(single.len_without_prefix_ws(), 7);
    assert_eq!(single.len_non_multiline_ws(), 7);
    let multi = FormatOutput { prefix_ws_len: None, len: 20, is_empty: false, is_blank: false, multiline: Some(ml(None, 3, 4)) };
    assert_eq!(multi.len_non_multiline_ws(), 7);
    assert!(!multi.has_prefix_ws());
    let joined = FormatOutput::join(single, multi);
    assert_eq!(joined.len, 29);
    assert_eq!(joined.prefix_ws_len, Some(2));
    assert!(same_ml(joined.multiline, Some(ml(None, 12, 4))));
    let d = FormatOutput::default();
    assert_eq!(d.len, 0);
    assert!(d.is_empty && d.is_blank && d.multiline.is_none());
}
