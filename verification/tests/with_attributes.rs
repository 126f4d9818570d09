use rustidy::ast_str::{AstStr, AstStrRepr};
use rustidy::attr::{InnerAttrOrDocComment, OuterAttrOrDocComment};
use rustidy::context::{Config, Context};
use rustidy::with_attrs::{
    format_inner_value_non_empty, format_outer_value_non_empty, FormatFn, WithInnerAttributes, WithOuterAttributes,
};

/// Adds one to the value
struct Bump;

impl FormatFn<u32> for Bump {
    fn formats(&self, before: u32, _ctx_before: Context, after: u32, _ctx_after: Context) -> bool {
        after == before + 1
    }

    fn call(&self, value: &mut u32, _ctx: &mut Context) {
        *value += 1;
    }
}

fn ctx() -> Context {
    Context::new(
        "",
        Config {
            indent: String::from("\t"),
            min_empty_lines: 0,
            max_empty_lines: 1,
            max_use_tree_len: 75,
            max_inline_tuple_struct_len: 50,
            max_array_expr_len: 80,
            array_expr_cols: 0,
            skip: false,
        },
    )
}

fn doc() -> AstStr {
    AstStr { repr: AstStrRepr::Static("/// doc\n"), input: None }
}

#[test]
fn outer_value_formatted_only_with_attributes() {
    let f = format_outer_value_non_empty(Bump);
    let mut c = ctx();
    let mut bare = WithOuterAttributes::without_attributes(7u32);
    f.call(&mut bare, &mut c);
    assert_eq!(bare.inner, 7);
    assert!(bare.attrs.is_empty());
    let mut attributed = WithOuterAttributes { attrs: vec![OuterAttrOrDocComment::DocComment(doc())], inner: 7u32 };
    f.call(&mut attributed, &mut c);
    assert_eq!(attributed.inner, 8);
    assert_eq!(attributed.attrs.len(), 1);
}

#[test]
fn inner_value_formatted_only_with_attributes() {
    let f = format_inner_value_non_empty(Bump);
    let mut c = ctx();
    let mut bare = WithInnerAttributes { attrs: vec![], inner: 1u32 };
    f.call(&mut bare, &mut c);
    assert_eq!(bare.inner, 1);
    let mut attributed = WithInnerAttributes { attrs: vec![InnerAttrOrDocComment::DocComment(doc())], inner: 1u32 };
    f.call(&mut attributed, &mut c);
    assert_eq!(attributed.inner, 2);
}

#[test]
fn map_keeps_attributes() {
    let w = WithOuterAttributes { attrs: vec![OuterAttrOrDocComment::DocComment(doc())], inner: 3u32 };
    let m = w.map(|x| x * 2);
    assert_eq!(m.inner, 6);
    assert_eq!(m.attrs.len(), 1);
}

#[test]
fn from_value_has_no_attributes() {
    let w: WithOuterAttributes<u32> = WithOuterAttributes::from(5u32);
    assert!(w.attrs.is_empty());
    assert_eq!(w.inner, 5);
    let v: WithOuterAttributes<u32> = 9u32.into();
    assert_eq!(v.inner, 9);
}
