use rustidy::ast_str::{AstStr, AstStrRepr};
use rustidy::attr::{
    apply_config_attrs, bytes_eq, update_config, Attr, AttrInput, AttrOrDocComment, ConfigAttrError,
    InnerAttrOrDocComment, OuterAttrOrDocComment, TokenTree,
};
use rustidy::context::{Config, Context};
use rustidy::mod_file::{
    find_path_attr, is_root_file, module_file, module_name, output_action, CheckError, ModuleFile, ModuleIdent,
    OutputAction, PathAttrError,
};
use rustidy::packages::select_packages;
use rustidy::path::{SimplePath, SimplePathSegment};

fn path(s: &str) -> SimplePath {
    SimplePath { prefix: false, segments: s.split("::").map(|p| SimplePathSegment::Ident(p.as_bytes().to_vec())).collect() }
}

fn ident(s: &str) -> TokenTree {
    TokenTree::Ident(s.as_bytes().to_vec())
}

fn lit(s: &str) -> TokenTree {
    TokenTree::StringLiteral(String::from(s))
}

fn config_attr(tokens: Vec<TokenTree>) -> Attr {
    Attr { path: path("rustidy::config"), input: Some(AttrInput::Parens(tokens)) }
}

fn ctx() -> Context {
    Context::new(
        "",
        Config {
            indent: String::from("\t"),
            min_empty_lines: 0,
            max_empty_lines: 1,
            max_use_tree_len: 75,
            max_inline_tuple_struct_len: 50,
            max_array_expr_len: 80,
            array_expr_cols: 0,
            skip: false,
        },
    )
}

#[test]
fn config_attribute_sets_indent() {
    let mut c = ctx();
    assert!(update_config(&config_attr(vec![ident("indent"), TokenTree::Eq, lit("  ")]), &mut c).is_ok());
    assert_eq!(c.config().indent, "  ");
    assert_eq!(c.config().max_use_tree_len, 75);
}

#[test]
fn later_settings_win() {
    let mut c = ctx();
    let tokens = vec![ident("indent"), TokenTree::Eq, lit("  "), ident("indent"), TokenTree::Eq, lit("\t\t")];
    assert!(update_config(&config_attr(tokens), &mut c).is_ok());
    assert_eq!(c.config().indent, "\t\t");
}

#[test]
fn other_attributes_change_nothing() {
    let mut c = ctx();
    let attr = Attr { path: path("derive"), input: Some(AttrInput::Parens(vec![ident("Debug")])) };
    assert!(update_config(&attr, &mut c).is_ok());
    assert_eq!(c.config().indent, "\t");
}

#[test]
fn config_attribute_errors() {
    let mut c = ctx();
    let no_parens = Attr { path: path("rustidy::config"), input: None };
    assert!(matches!(update_config(&no_parens, &mut c), Err(ConfigAttrError::ExpectedParens)));
    assert!(matches!(update_config(&config_attr(vec![TokenTree::Eq]), &mut c), Err(ConfigAttrError::ExpectedIdentifier)));
    match update_config(&config_attr(vec![ident("width"), TokenTree::Eq, lit("4")]), &mut c) {
        Err(ConfigAttrError::UnknownConfiguration(name)) => assert_eq!(name, b"width"),
        _ => panic!("unknown setting accepted"),
    }
    assert!(matches!(update_config(&config_attr(vec![ident("indent")]), &mut c), Err(ConfigAttrError::ExpectedEq)));
    assert!(matches!(update_config(&config_attr(vec![ident("indent"), TokenTree::Eq]), &mut c), Err(ConfigAttrError::ExpectedLiteral)));
    assert!(matches!(
        update_config(&config_attr(vec![ident("indent"), TokenTree::Eq, TokenTree::Other]), &mut c),
        Err(ConfigAttrError::ExpectedLiteral)
    ));
    // Settings before an error stay applied.
    let partial = vec![ident("indent"), TokenTree::Eq, lit(" "), ident("indent"), TokenTree::Other];
    assert!(matches!(update_config(&config_attr(partial), &mut c), Err(ConfigAttrError::ExpectedEq)));
    assert_eq!(c.config().indent, " ");
}

#[test]
fn crate_config_attributes_apply_in_order() {
    let mut c = ctx();
    let attrs = vec![
        InnerAttrOrDocComment::Attr(config_attr(vec![ident("indent"), TokenTree::Eq, lit("  ")])),
        InnerAttrOrDocComment::DocComment(AstStr { repr: AstStrRepr::Static("//! doc\n"), input: None }),
        InnerAttrOrDocComment::Attr(config_attr(vec![ident("bogus")])),
        InnerAttrOrDocComment::Attr(config_attr(vec![ident("indent"), TokenTree::Eq, lit("    ")])),
    ];
    assert_eq!(apply_config_attrs(&attrs, &mut c), 1);
    assert_eq!(c.config().indent, "    ");
}

#[test]
fn path_attribute_lookup() {
    let doc = OuterAttrOrDocComment::DocComment(AstStr { repr: AstStrRepr::Static("/// m\n"), input: None });
    let other = OuterAttrOrDocComment::Attr(Attr { path: path("cfg"), input: Some(AttrInput::Parens(vec![ident("test")])) });
    let good = OuterAttrOrDocComment::Attr(Attr { path: path("path"), input: Some(AttrInput::EqStr(String::from("x/y.rs"))) });
    assert_eq!(find_path_attr(&[doc, other, good]).ok().unwrap(), Some(String::from("x/y.rs")));
    assert_eq!(find_path_attr(&[]).ok().unwrap(), None);
    let expr = OuterAttrOrDocComment::Attr(Attr { path: path("path"), input: Some(AttrInput::EqExpr) });
    assert!(matches!(find_path_attr(&[expr]), Err(PathAttrError::ExpectedLiteral)));
    let bare = OuterAttrOrDocComment::Attr(Attr { path: path("path"), input: None });
    assert!(matches!(find_path_attr(&[bare]), Err(PathAttrError::Malformed)));
    let parens = OuterAttrOrDocComment::Attr(Attr { path: path("path"), input: Some(AttrInput::Parens(vec![])) });
    assert!(matches!(find_path_attr(&[parens]), Err(PathAttrError::Malformed)));
}

#[test]
fn module_names_and_files() {
    assert_eq!(module_name(&ModuleIdent::Raw(b"r#match".to_vec())), b"match");
    assert_eq!(module_name(&ModuleIdent::NonKw(b"utils".to_vec())), b"utils");
    assert!(is_root_file(b"lib.rs"));
    assert!(is_root_file(b"main.rs"));
    assert!(is_root_file(b"mod.rs"));
    assert!(!is_root_file(b"util.rs"));
    assert!(matches!(module_file(Some(String::from("p.rs")), b"m".to_vec(), true, true), ModuleFile::PathAttr(p) if p == "p.rs"));
    assert!(matches!(module_file(None, b"m".to_vec(), true, false), ModuleFile::ModRs(n) if n == b"m"));
    assert!(matches!(module_file(None, b"m".to_vec(), false, true), ModuleFile::Sibling(n) if n == b"m"));
    assert!(matches!(module_file(None, b"m".to_vec(), false, false), ModuleFile::Nested(n) if n == b"m"));
}

#[test]
fn formatted_output_actions() {
    assert!(matches!(output_action(true, true, b"a", b"a"), Ok(OutputAction::Keep)));
    assert!(matches!(output_action(true, false, b"a", b"b"), Err(CheckError::NotFormatted)));
    assert!(matches!(output_action(false, true, b"a", b"a"), Ok(OutputAction::Keep)));
    assert!(matches!(output_action(false, true, b"a", b"b"), Ok(OutputAction::Write)));
    assert!(matches!(output_action(false, false, b"a", b"a"), Ok(OutputAction::Stdout)));
}

#[test]
fn package_selection() {
    let names = vec![b"core".to_vec(), b"cli".to_vec(), b"extra".to_vec()];
    let all = select_packages(&names, &vec![]);
    assert_eq!(all.selected, vec![0, 1, 2]);
    assert!(all.not_found.is_empty());
    let some = select_packages(&names, &vec![b"cli".to_vec(), b"missing".to_vec()]);
    assert_eq!(some.selected, vec![1]);
    assert_eq!(some.not_found, vec![b"missing".to_vec()]);
    // Only requested packages are selected, even once every name is found.
    let first = select_packages(&names, &vec![b"core".to_vec(), b"core".to_vec()]);
    assert_eq!(first.selected, vec![0]);
    assert!(first.not_found.is_empty());
}

#[test]
fn byte_equality() {
    assert!(bytes_eq(b"abc", b"abc"));
    assert!(!bytes_eq(b"abc", b"abd"));
    assert!(!bytes_eq(b"ab", b"abc"));
}

#[test]
fn item_config_attributes_apply_too() {
    let mut c = ctx();
    let attrs = vec![
        OuterAttrOrDocComment::DocComment(AstStr { repr: AstStrRepr::Static("/// item\n"), input: None }),
        OuterAttrOrDocComment::Attr(config_attr(vec![ident("indent"), TokenTree::Eq, lit("  ")])),
    ];
    assert_eq!(apply_config_attrs(&attrs, &mut c), 0);
    assert_eq!(c.config().indent, "  ");
    assert!(attrs[0].try_as_attr_ref().is_none());
    assert!(attrs[1].try_as_attr_ref().is_some());
}

#[test]
fn array_settings_from_config_attributes() {
    let mut c = ctx();
    let tokens = vec![
        ident("max_array_expr_len"),
        TokenTree::Eq,
        TokenTree::IntegerLiteral(100),
        ident("array_expr_cols"),
        TokenTree::Eq,
        TokenTree::IntegerLiteral(3),
    ];
    assert!(update_config(&config_attr(tokens), &mut c).is_ok());
    assert_eq!(c.config().max_array_expr_len, 100);
    assert_eq!(c.config().array_expr_cols, 3);
    assert_eq!(c.config().indent, "\t");
    let wrong = vec![ident("array_expr_cols"), TokenTree::Eq, lit("3")];
    assert!(matches!(update_config(&config_attr(wrong), &mut c), Err(ConfigAttrError::ExpectedIntegerLiteral)));
    let wrong = vec![ident("indent"), TokenTree::Eq, TokenTree::IntegerLiteral(2)];
    assert!(matches!(update_config(&config_attr(wrong), &mut c), Err(ConfigAttrError::ExpectedLiteral)));
    assert_eq!(c.config().array_expr_cols, 3);
}
