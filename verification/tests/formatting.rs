use rustidy::attr::{Attr, AttrInput, OuterAttrOrDocComment, TokenTree};
use rustidy::context::{Config, Context, FormatTag};
use rustidy::format::{args, args_prefix_ws, Format};
use rustidy::formattable::Formattable;
use rustidy::parser::Parser;
use rustidy::print::print_to_bytes;
use rustidy::path::{SimplePath, SimplePathSegment};
use rustidy::whitespace::Whitespace;
use rustidy::with_attrs::WithOuterAttributes;

fn config(skip: bool) -> Config {
    Config {
        indent: String::from("\t"),
        min_empty_lines: 0,
        max_empty_lines: 1,
        max_use_tree_len: 75,
        max_inline_tuple_struct_len: 50,
        max_array_expr_len: 80,
        array_expr_cols: 0,
        skip,
    }
}

fn ws(input: &str) -> Whitespace {
    let mut p = Parser::new(input);
    p.parse::<Whitespace>().ok().unwrap()
}

#[test]
fn whitespace_formats_with_its_config() {
    let mut ctx = Context::new("", config(false));
    let mut w = ws("   ");
    let out = w.format(&mut ctx, Whitespace::single(), ());
    assert_eq!(print_to_bytes(&w), b" ");
    assert_eq!((out.prefix_ws_len, out.len), (Some(1), 1));
    let mut kept = ws("\n  ");
    let out = kept.format(&mut ctx, Whitespace::preserve(), ());
    assert_eq!(print_to_bytes(&kept), b"\n  ");
    assert_eq!((out.len, out.newlines), (3, 1));
}

#[test]
fn whitespace_without_config_is_left_alone() {
    let mut ctx = Context::new("", config(false));
    let mut w = ws("  ");
    let out = w.format(&mut ctx, (), ());
    assert_eq!(print_to_bytes(&w), b"  ");
    assert_eq!((out.prefix_ws_len, out.len, out.is_empty), (None, 0, true));
}

#[test]
fn options_and_boxes_format_their_value() {
    let mut ctx = Context::new("", config(false));
    let mut none: Option<Whitespace> = None;
    assert_eq!(none.format(&mut ctx, Whitespace::single(), ()).len, 0);
    let mut boxed = Some(Box::new(ws("\n\n")));
    let out = boxed.format(&mut ctx, Whitespace::remove(), ());
    assert_eq!(print_to_bytes(&*boxed.unwrap()), b"");
    assert_eq!(out.prefix_ws_len, Some(0));
}

#[test]
fn vector_values_take_the_rest_prefix_after_the_first_whitespace() {
    let mut ctx = Context::new("", config(false));
    let mut values = vec![ws("   "), ws("  "), ws("\t")];
    let out = values.format(&mut ctx, Whitespace::single(), args_prefix_ws(Whitespace::remove()));
    assert_eq!(print_to_bytes(&values[0]), b" ");
    assert_eq!(print_to_bytes(&values[1]), b"");
    assert_eq!(print_to_bytes(&values[2]), b"");
    assert_eq!((out.prefix_ws_len, out.len), (Some(1), 1));
}

#[test]
fn vector_values_before_any_whitespace_keep_the_prefix() {
    let mut ctx = Context::new("", config(false));
    let mut values: Vec<Option<Whitespace>> = vec![None, Some(ws("   ")), Some(ws("  "))];
    let out = values.format(&mut ctx, Whitespace::single(), args(Whitespace::remove(), ()));
    assert_eq!(print_to_bytes(values[1].as_ref().unwrap()), b" ");
    assert_eq!(print_to_bytes(values[2].as_ref().unwrap()), b"");
    assert_eq!(out.len, 1);
}

#[test]
fn skipped_formatting_changes_nothing() {
    let mut ctx = Context::new("", config(true));
    let mut w = ws("\n\n\n   ");
    let out = ctx.format(&mut w, Whitespace::remove());
    assert_eq!(print_to_bytes(&w), b"\n\n\n   ");
    assert_eq!(out.len, 6);
    let direct = w.format_output();
    assert_eq!((out.prefix_ws_len, out.len, out.newlines), (direct.prefix_ws_len, direct.len, direct.newlines));
    let mut ctx = Context::new("", config(false));
    let out = ctx.format_with(&mut w, Whitespace::remove(), ());
    assert_eq!(print_to_bytes(&w), b"");
    assert_eq!(out.len, 0);
}

fn ctx_at(depth: usize) -> Context {
    let mut ctx = Context::new("", config(false));
    ctx.set_indent_depth(depth);
    ctx
}

#[test]
fn indentation_helpers_format_at_the_offset_depth() {
    let mut ctx = ctx_at(1);
    let mut w = ws(" x");
    ctx.with_indent(&mut w, Whitespace::indent(false), ());
    assert_eq!(print_to_bytes(&w), b"\n\t\t");
    assert_eq!(ctx.indent(), 1);
    let mut w = ws(" x");
    ctx.without_indent(&mut w, Whitespace::indent(false), ());
    assert_eq!(print_to_bytes(&w), b"\n");
    let mut w = ws(" x");
    ctx.with_indent_if(false, &mut w, Whitespace::indent(false), ());
    assert_eq!(print_to_bytes(&w), b"\n\t");
    let mut w = ws(" x");
    ctx.without_indent_if(true, &mut w, Whitespace::indent(false), ());
    assert_eq!(print_to_bytes(&w), b"\n");
    let mut w = ws(" x");
    ctx.with_indent_offset(2, &mut w, Whitespace::indent(false), ());
    assert_eq!(print_to_bytes(&w), b"\n\t\t\t");
    let mut w = ws(" x");
    ctx.with_indent_offset_if(2, true, &mut w, Whitespace::indent(false), ());
    assert_eq!(print_to_bytes(&w), b"\n\t\t\t");
    assert_eq!(ctx.indent(), 1);
    let mut c0 = ctx_at(0);
    let mut w = ws(" x");
    c0.without_indent(&mut w, Whitespace::indent(false), ());
    assert_eq!(print_to_bytes(&w), b"\n");
    assert_eq!(c0.indent(), 0);
}

#[test]
fn tag_helpers_restore_the_tag() {
    let mut ctx = ctx_at(1);
    let mut w = ws(" x");
    ctx.with_tag(FormatTag::AfterNewline, &mut w, Whitespace::indent(false), ());
    assert_eq!(print_to_bytes(&w), b"\t");
    assert!(!ctx.has_tag(FormatTag::AfterNewline));
    ctx.add_tag(FormatTag::AfterNewline);
    let mut w = ws(" x");
    ctx.without_tag(FormatTag::AfterNewline, &mut w, Whitespace::indent(false), ());
    assert_eq!(print_to_bytes(&w), b"\n\t");
    assert!(ctx.has_tag(FormatTag::AfterNewline));
    let mut w = ws(" x");
    ctx.without_tag_if(false, FormatTag::AfterNewline, &mut w, Whitespace::indent(false), ());
    assert_eq!(print_to_bytes(&w), b"\t");
    assert!(!ctx.has_tag(FormatTag::AfterNewline));
    let mut w = ws(" x");
    ctx.with_tag_if(false, FormatTag::AfterNewline, &mut w, Whitespace::indent(false), ());
    assert_eq!(print_to_bytes(&w), b"\n\t");
    let mut w = ws(" x");
    ctx.with_tag_if(true, FormatTag::InsideChain, &mut w, Whitespace::single(), ());
    assert_eq!(print_to_bytes(&w), b" ");
    assert!(!ctx.has_tag(FormatTag::InsideChain));
}

#[test]
fn config_can_be_changed_in_place() {
    let mut ctx = ctx_at(2);
    ctx.config_mut().max_use_tree_len = 3;
    ctx.config_mut().indent = String::from("  ");
    assert_eq!(ctx.config().max_use_tree_len, 3);
    let mut w = ws(" x");
    ctx.format(&mut w, Whitespace::indent(false));
    assert_eq!(print_to_bytes(&w), b"\n    ");
    assert_eq!(ctx.indent(), 2);
}

#[test]
fn outer_config_attributes_hold_for_their_value_only() {
    let path = SimplePath {
        prefix: false,
        segments: vec![
            SimplePathSegment::Ident(b"rustidy".to_vec()),
            SimplePathSegment::Ident(b"config".to_vec()),
        ],
    };
    let tokens = vec![
        TokenTree::Ident(b"indent".to_vec()),
        TokenTree::Eq,
        TokenTree::StringLiteral(String::from("  ")),
    ];
    let attr = OuterAttrOrDocComment::Attr(Attr { path, input: Some(AttrInput::Parens(tokens)) });
    let mut value = WithOuterAttributes { attrs: vec![attr], inner: ws(" x") };
    let mut ctx = ctx_at(1);
    value.format(&mut ctx, Whitespace::indent(false), ());
    assert_eq!(print_to_bytes(&value.inner), b"\n  ");
    assert_eq!(value.attrs.len(), 1);
    assert_eq!(ctx.config().indent, "\t");
    let mut w = ws(" x");
    ctx.format(&mut w, Whitespace::indent(false));
    assert_eq!(print_to_bytes(&w), b"\n\t");
}
