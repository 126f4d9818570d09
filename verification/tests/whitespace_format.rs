use rustidy::ast_str::{AstStr, AstStrRepr};
use rustidy::context::{offset_depth, Config, Context, FormatTag, FormatTags};
use rustidy::formattable::{Formattable, PrefixWsKind};
use rustidy::parser::Parser;
use rustidy::print::print_to_bytes;
use rustidy::whitespace::{Whitespace, WhitespaceFormatKind};

fn config(indent: &str) -> Config {
    Config {
        indent: String::from(indent),
        min_empty_lines: 0,
        max_empty_lines: 1,
        max_use_tree_len: 75,
        max_inline_tuple_struct_len: 50,
        max_array_expr_len: 80,
        array_expr_cols: 0,
        skip: false,
    }
}

fn parse_ws(input: &str) -> Whitespace {
    let mut p = Parser::new(input);
    p.parse::<Whitespace>().ok().unwrap()
}

fn formatted(input: &str, kind: WhitespaceFormatKind, depth: usize) -> Vec<u8> {
    let mut ws = parse_ws(input);
    let mut ctx = Context::new(input, config("\t"));
    ctx.set_indent_depth(depth);
    rustidy::whitespace::format(&mut ws, &mut ctx, kind);
    print_to_bytes(&ws)
}

const INDENT: WhitespaceFormatKind = WhitespaceFormatKind::Indent { use_prev: false, remove_if_pure: false };

#[test]
fn remove_drops_pure_whitespace() {
    assert_eq!(formatted("  \n  x", WhitespaceFormatKind::Remove, 0), b"");
}

#[test]
fn spaces_replace_pure_whitespace() {
    assert_eq!(formatted(" \n\n x", WhitespaceFormatKind::Spaces { len: 1 }, 0), b" ");
    assert_eq!(formatted("x", WhitespaceFormatKind::Spaces { len: 3 }, 0), b"   ");
}

#[test]
fn indent_clamps_empty_lines() {
    assert_eq!(formatted("  \n\n\n  x", INDENT, 2), b"\n\n\t\t");
    assert_eq!(formatted(" x", INDENT, 1), b"\n\t");
}

#[test]
fn indent_remove_if_pure_drops_pure_whitespace() {
    let kind = WhitespaceFormatKind::Indent { use_prev: false, remove_if_pure: true };
    assert_eq!(formatted("  \n  x", kind, 1), b"");
    assert_eq!(formatted("  /* c */ x", kind, 1), b"\n\t/* c */\n\t");
}

#[test]
fn previous_indent_for_closing() {
    let kind = WhitespaceFormatKind::Indent { use_prev: true, remove_if_pure: false };
    assert_eq!(formatted(" }", kind, 2), b"\n\t");
    assert_eq!(offset_depth(2, -1), 1);
    assert_eq!(offset_depth(0, -1), 0);
    assert_eq!(offset_depth(usize::MAX, 1), usize::MAX);
}

#[test]
fn comments_are_kept_and_reindented() {
    assert_eq!(formatted("  // a\n   x", INDENT, 2), b"\n\t\t// a\n\t\t");
    assert_eq!(formatted(" /* a */  x", WhitespaceFormatKind::Spaces { len: 1 }, 0), b" /* a */ ");
    assert_eq!(formatted(" // a\n x", WhitespaceFormatKind::Remove, 0), b"// a\n");
}

#[test]
fn formatting_twice_changes_nothing() {
    for input in ["  \n\n\n  x", "  // a\n   x", " /* b */\n\n\n\n c", "x"] {
        for kind in [INDENT, WhitespaceFormatKind::Remove, WhitespaceFormatKind::Spaces { len: 2 }] {
            let mut ws = parse_ws(input);
            let mut ctx = Context::new(input, config("    "));
            ctx.set_indent_depth(1);
            rustidy::whitespace::format(&mut ws, &mut ctx, kind);
            let once = print_to_bytes(&ws);
            rustidy::whitespace::format(&mut ws, &mut ctx, kind);
            assert_eq!(print_to_bytes(&ws), once);
        }
    }
}

#[test]
fn after_newline_tag_is_consumed() {
    let input = " x";
    let mut ws = parse_ws(input);
    let mut ctx = Context::new(input, config("\t"));
    ctx.add_tag(FormatTag::AfterNewline);
    rustidy::whitespace::format(&mut ws, &mut ctx, INDENT);
    assert_eq!(print_to_bytes(&ws), b"");
    assert!(!ctx.has_tag(FormatTag::AfterNewline));
}

#[test]
fn whitespace_joins_concatenate_text() {
    let mut a = parse_ws("  /* a */ x");
    let b = parse_ws(" // b\n y");
    a.join_suffix(b);
    assert_eq!(print_to_bytes(&a), b"  /* a */  // b\n ");
    assert_eq!(a.0.rest.len(), 2);
    let mut c = parse_ws(" \n x");
    let d = parse_ws("/* d */ y");
    c.join_prefix(d);
    assert_eq!(print_to_bytes(&c), b"/* d */  \n ");
}

#[test]
fn whitespace_format_output() {
    let ws = parse_ws("  // a\n   x");
    let out = ws.format_output();
    assert_eq!(out.prefix_ws_len, Some(10));
    assert_eq!(out.len, 10);
    assert_eq!(out.newlines, 1);
    assert!(!out.is_empty);
    assert!(!out.is_blank);
    let blank = parse_ws(" \n ").format_output();
    assert!(blank.is_blank);
    assert_eq!(blank.prefix_ws_len, Some(3));
    let empty = parse_ws("x").format_output();
    assert!(empty.is_empty && empty.is_blank);
}

#[test]
fn prefix_ws_access() {
    let mut ws = parse_ws("  x");
    assert_eq!(ws.prefix_ws_is_pure(), Some(true));
    assert!(ws.prefix_ws_join_prefix(parse_ws("/* p */y")).is_ok());
    assert_eq!(print_to_bytes(&ws), b"/* p */  ");
    assert_eq!(ws.prefix_ws_is_pure(), Some(false));
    let mut s = AstStr { repr: AstStrRepr::Static("abc"), input: None };
    assert_eq!(s.prefix_ws_is_pure(), None);
    assert!(s.prefix_ws_join_prefix(parse_ws(" x")).is_err());
    let mut none: Option<Whitespace> = None;
    assert_eq!(none.prefix_ws_is_pure(), None);
    assert!(none.prefix_ws_join_prefix(parse_ws(" x")).is_err());
    let some: Option<Whitespace> = Some(parse_ws(" x"));
    assert_eq!(some.prefix_ws_is_pure(), Some(true));
    assert_eq!(none.format_output().len, 0);
}

#[test]
fn string_format_output() {
    let s = AstStr { repr: AstStrRepr::Static("a\nb"), input: None };
    let out = s.format_output();
    assert_eq!(out.prefix_ws_len, None);
    assert_eq!(out.len, 3);
    assert_eq!(out.newlines, 1);
    assert!(!out.is_blank);
    let blank = AstStr { repr: AstStrRepr::Spaces { len: 4 }, input: None };
    assert!(blank.is_blank());
    assert!(blank.format_output().is_blank);
    let unicode_blank = AstStr { repr: AstStrRepr::Static("\u{2003}\t"), input: None };
    assert!(unicode_blank.is_blank());
}

#[test]
fn context_tags_and_config() {
    let mut ctx = Context::new("src", config("  "));
    assert_eq!(ctx.input().as_str(), "src");
    assert_eq!(ctx.indent(), 0);
    assert!(!ctx.add_tag(FormatTag::InsideChain));
    assert!(ctx.has_tag(FormatTag::InsideChain));
    assert!(ctx.remove_tag(FormatTag::InsideChain));
    assert!(!ctx.set_tag(FormatTag::AfterNewline, true));
    assert!(ctx.take_tag(FormatTag::AfterNewline));
    assert!(!ctx.has_tag(FormatTag::AfterNewline));
    ctx.set_indent_str(String::from("\t"));
    assert_eq!(ctx.config().indent, "\t");
    let mut tags = FormatTags::new();
    assert!(!tags.contains(FormatTag::InsideChain));
    assert!(!tags.set(FormatTag::InsideChain, true));
    assert!(tags.contains(FormatTag::InsideChain));
}

#[test]
fn vec_prefix_ws_skips_empty_values() {
    let empty = || AstStr { repr: AstStrRepr::Static(""), input: None };
    let word = || AstStr { repr: AstStrRepr::Static("w"), input: None };
    let mut strs = vec![empty(), word(), empty()];
    assert_eq!(strs.prefix_ws_kind(), PrefixWsKind::Missing);
    assert_eq!(strs.prefix_ws_is_pure(), None);
    assert!(strs.prefix_ws_join_prefix(parse_ws(" x")).is_err());
    let only_empty = vec![empty(), empty()];
    assert_eq!(only_empty.prefix_ws_kind(), PrefixWsKind::Empty);
    let mut wss = vec![None, Some(parse_ws("  x")), Some(parse_ws("/* c */ y"))];
    assert_eq!(wss.prefix_ws_kind(), PrefixWsKind::Present);
    assert_eq!(wss.prefix_ws_is_pure(), Some(true));
    assert!(wss.prefix_ws_join_prefix(parse_ws("/* p */z")).is_ok());
    assert_eq!(print_to_bytes(wss[1].as_ref().unwrap()), b"/* p */  ");
    assert_eq!(print_to_bytes(wss[2].as_ref().unwrap()), b"/* c */ ");
}

#[test]
fn vec_format_output_joins_values() {
    let strs = vec![
        AstStr { repr: AstStrRepr::Static(""), input: None },
        AstStr { repr: AstStrRepr::Static("ab\n"), input: None },
        AstStr { repr: AstStrRepr::Static("c"), input: None },
    ];
    let out = strs.format_output();
    assert_eq!(out.len, 4);
    assert_eq!(out.newlines, 1);
    assert_eq!(out.prefix_ws_len, None);
    assert!(!out.is_empty);
    let wss = vec![parse_ws(" \n x"), parse_ws("  y")];
    let out = wss.format_output();
    assert_eq!(out.prefix_ws_len, Some(3));
    assert_eq!(out.len, 5);
    assert!(out.is_blank);
}

#[test]
fn boxed_and_empty_values_are_formattable() {
    let mut boxed = Box::new(parse_ws("  // c\n"));
    let out = boxed.format_output();
    assert_eq!(out.prefix_ws_len, Some(7));
    assert_eq!(out.newlines, 1);
    assert_eq!(boxed.prefix_ws_kind(), PrefixWsKind::Present);
    assert!(boxed.prefix_ws_join_prefix(parse_ws("\t")).is_ok());
    assert_eq!(print_to_bytes(&*boxed), b"\t  // c\n");

    let mut unit = ();
    let out = unit.format_output();
    assert_eq!((out.prefix_ws_len, out.len, out.newlines, out.is_empty, out.is_blank), (None, 0, 0, true, true));
    assert_eq!(unit.prefix_ws_kind(), PrefixWsKind::Empty);
    assert!(unit.prefix_ws_join_prefix(parse_ws(" ")).is_err());

    let mut marker = std::marker::PhantomData::<u8>;
    assert_eq!(marker.prefix_ws_kind(), PrefixWsKind::Empty);
    assert_eq!(marker.prefix_ws_is_pure(), None);
    assert!(marker.prefix_ws_join_prefix(parse_ws(" ")).is_err());
}

#[test]
fn whitespace_configs_name_their_formats() {
    assert_eq!(Whitespace::preserve().format, None);
    assert_eq!(Whitespace::remove().format, Some(WhitespaceFormatKind::Remove));
    assert_eq!(Whitespace::single().format, Some(WhitespaceFormatKind::Spaces { len: 1 }));
    assert_eq!(Whitespace::indent(false).format, Some(INDENT));
    assert_eq!(
        Whitespace::indent_remove_if_pure().format,
        Some(WhitespaceFormatKind::Indent { use_prev: false, remove_if_pure: true })
    );
    assert_eq!(
        Whitespace::indent_close().format,
        Some(WhitespaceFormatKind::Indent { use_prev: true, remove_if_pure: false })
    );
    assert_eq!(
        Whitespace::indent_close_remove_if_pure().format,
        Some(WhitespaceFormatKind::Indent { use_prev: true, remove_if_pure: true })
    );
}

#[test]
fn context_config_can_be_replaced() {
    let mut ctx = Context::new("", config("  "));
    let mut next = config("\t\t");
    next.max_use_tree_len = 10;
    ctx.set_config(next);
    assert_eq!(ctx.config().indent, "\t\t");
    assert_eq!(ctx.config().max_use_tree_len, 10);
    assert_eq!(ctx.indent(), 0);
}
