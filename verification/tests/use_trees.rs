use rustidy::path::{SimplePath, SimplePathSegment};
use rustidy::use_tree::{
    compare_bytes, compare_path, compare_segment, compare_tree, prefix_eq, sort_trees, Order, UseDeclaration,
    UseTree, UseTreeGlob, UseTreeGlobPrefix, UseTreeGroup, UseTreeGroupPrefix, UseTreeSimple,
    UseTreeSimpleAsValue,
};

fn seg(s: &str) -> SimplePathSegment {
    match s {
        "crate" => SimplePathSegment::Crate,
        "super" => SimplePathSegment::Super,
        "self" => SimplePathSegment::SelfLower,
        "$crate" => SimplePathSegment::DollarCrate,
        _ => SimplePathSegment::Ident(s.as_bytes().to_vec()),
    }
}

fn path(s: &str) -> SimplePath {
    let (prefix, rest) = match s.strip_prefix("::") {
        Some(rest) => (true, rest),
        None => (false, s),
    };
    SimplePath { prefix, segments: rest.split("::").map(seg).collect() }
}

fn simple(s: &str) -> UseTree {
    UseTree::Simple(UseTreeSimple { path: path(s), as_: None })
}

fn group(prefix: Option<&str>, trees: Vec<UseTree>) -> UseTree {
    UseTree::Group(UseTreeGroup {
        prefix: prefix.map(|p| UseTreeGroupPrefix { path: if p.is_empty() { None } else { Some(path(p)) } }),
        trees: if trees.is_empty() { None } else { Some(trees) },
    })
}

fn glob() -> UseTree {
    UseTree::Glob(UseTreeGlob { prefix: None })
}

fn render_path(p: &SimplePath) -> String {
    let segs: Vec<String> = p.segments.iter().map(|s| String::from_utf8(s.as_str()).unwrap()).collect();
    format!("{}{}", if p.prefix { "::" } else { "" }, segs.join("::"))
}

fn render(t: &UseTree) -> String {
    match t {
        UseTree::Glob(g) => match &g.prefix {
            Some(UseTreeGlobPrefix { path: Some(p) }) => format!("{}::*", render_path(p)),
            Some(UseTreeGlobPrefix { path: None }) => String::from("::*"),
            None => String::from("*"),
        },
        UseTree::Simple(s) => match &s.as_ {
            Some(UseTreeSimpleAsValue::Ident(i)) => format!("{} as {}", render_path(&s.path), String::from_utf8(i.clone()).unwrap()),
            Some(UseTreeSimpleAsValue::Underscore) => format!("{} as _", render_path(&s.path)),
            None => render_path(&s.path),
        },
        UseTree::Group(g) => render_group(g),
    }
}

fn render_group(g: &UseTreeGroup) -> String {
    let prefix = match &g.prefix {
        Some(UseTreeGroupPrefix { path: Some(p) }) => format!("{}::", render_path(p)),
        Some(UseTreeGroupPrefix { path: None }) => String::from("::"),
        None => String::new(),
    };
    let inner: Vec<String> = match &g.trees {
        Some(trees) => trees.iter().map(render).collect(),
        None => vec![],
    };
    format!("{}{{{}}}", prefix, inner.join(", "))
}

#[test]
fn byte_and_segment_order() {
    assert_eq!(compare_bytes(b"abc", b"abd"), Order::Less);
    assert_eq!(compare_bytes(b"ab", b"abc"), Order::Less);
    assert_eq!(compare_bytes(b"b", b"abc"), Order::Greater);
    assert_eq!(compare_bytes(b"same", b"same"), Order::Equal);
    assert_eq!(compare_segment(&seg("crate"), &seg("super")), Order::Less);
    assert_eq!(compare_segment(&seg("self"), &seg("$crate")), Order::Less);
    assert_eq!(compare_segment(&seg("zeta"), &seg("crate")), Order::Greater);
}

#[test]
fn longer_paths_sort_first() {
    assert_eq!(compare_path(&path("a::b"), &path("a")), Order::Less);
    assert_eq!(compare_path(&path("a"), &path("a::b")), Order::Greater);
    assert_eq!(compare_path(&path("::a"), &path("b")), Order::Greater);
    assert_eq!(compare_path(&path("std::io"), &path("std::io")), Order::Equal);
}

#[test]
fn tree_ranks_order_groups_and_globs() {
    assert_eq!(compare_tree(&group(Some(""), vec![simple("a")]), &glob()), Order::Less);
    assert_eq!(compare_tree(&glob(), &simple("a")), Order::Less);
    assert_eq!(compare_tree(&simple("z"), &group(None, vec![simple("a")])), Order::Less);
    assert_eq!(compare_tree(&group(Some("b"), vec![simple("x")]), &simple("a")), Order::Greater);
}

#[test]
fn sorting_use_trees() {
    let mut trees = vec![
        group(None, vec![simple("q")]),
        simple("b"),
        simple("a"),
        glob(),
        simple("a::b"),
        group(Some(""), vec![simple("r")]),
        simple("crate::x"),
    ];
    sort_trees(&mut trees);
    let rendered: Vec<String> = trees.iter().map(render).collect();
    assert_eq!(rendered, vec!["::{r}", "*", "crate::x", "a::b", "a", "b", "{q}"]);
}

#[test]
fn group_sort_keeps_prefix() {
    let mut g = UseTreeGroup { prefix: Some(UseTreeGroupPrefix { path: Some(path("std")) }), trees: Some(vec![simple("io"), simple("fmt")]) };
    g.sort();
    assert_eq!(render_group(&g), "std::{fmt, io}");
    let mut empty = UseTreeGroup { prefix: None, trees: None };
    empty.sort();
    assert_eq!(render_group(&empty), "{}");
}

#[test]
fn flatten_dissolves_prefixless_groups() {
    let mut g = UseTreeGroup {
        prefix: Some(UseTreeGroupPrefix { path: Some(path("std")) }),
        trees: Some(vec![
            simple("a"),
            group(None, vec![simple("b"), group(None, vec![simple("c")])]),
            group(Some("io"), vec![simple("Read")]),
            group(None, vec![]),
        ]),
    };
    g.flatten();
    assert_eq!(render_group(&g), "std::{a, b, c, io::{Read}}");
    let mut only_empty = UseTreeGroup { prefix: None, trees: Some(vec![group(None, vec![])]) };
    only_empty.flatten();
    assert!(only_empty.trees.is_none());
}

#[test]
fn push_back_and_front() {
    let mut g = UseTreeGroup { prefix: None, trees: Some(vec![simple("a")]) };
    g.push_back(simple("b"));
    g.push_front(simple("z"));
    assert_eq!(render_group(&g), "{z, a, b}");
    g.push_back(group(None, vec![simple("c"), simple("d")]));
    assert_eq!(render_group(&g), "{z, a, b, c, d}");
    g.push_front(group(Some("x"), vec![simple("y")]));
    assert_eq!(render_group(&g), "{x::{y}, {z, a, b, c, d}}");
    let mut empty = UseTreeGroup { prefix: None, trees: None };
    empty.push_back(simple("a"));
    assert_eq!(render_group(&empty), "{a}");
}

#[test]
fn merging_use_trees() {
    let mut a = simple("a");
    a.merge(simple("b"));
    assert_eq!(render(&a), "{a, b}");
    let mut b = simple("a");
    b.merge(group(None, vec![simple("b"), simple("c")]));
    assert_eq!(render(&b), "{a, b, c}");
    let mut c = group(None, vec![simple("a")]);
    c.merge(simple("b"));
    assert_eq!(render(&c), "{a, b}");
    let mut d = UseDeclaration { tree: simple("std::io") };
    d.merge(UseDeclaration { tree: simple("std::fmt") });
    assert_eq!(render(&d.tree), "{std::io, std::fmt}");
}

#[test]
fn into_group_wraps_non_groups() {
    assert_eq!(render_group(&simple("a").into_group()), "{a}");
    assert_eq!(render_group(&group(Some("p"), vec![simple("a")]).into_group()), "p::{a}");
}

#[test]
fn prefix_equality_by_text() {
    let p = Some(UseTreeGroupPrefix { path: Some(path("std::io")) });
    let q = Some(UseTreeGroupPrefix { path: Some(path("std::io")) });
    let r = Some(UseTreeGroupPrefix { path: Some(path("std")) });
    assert!(prefix_eq(&p, &q));
    assert!(!prefix_eq(&p, &r));
    assert!(prefix_eq(&None, &None));
    assert!(!prefix_eq(&None, &Some(UseTreeGroupPrefix { path: None })));
}

#[test]
fn simple_path_queries() {
    let p = path("rustidy::config");
    assert!(p.is_str(b"rustidy::config"));
    assert!(!p.is_str(b"::rustidy::config"));
    assert!(!p.is_str(b"rustidy"));
    assert!(p.starts_with(b"rustidy"));
    assert!(!p.starts_with(b"config"));
    assert_eq!(path("path").as_str(), b"path");
    assert_eq!(path("a::b").as_str(), b"a::b");
    assert_eq!(path("::crate::x::y").as_str(), b"::crate::x::y");
    assert_eq!(seg("$crate").as_str(), b"$crate");
    assert!(seg("self").is_str(b"xselfx", 1, 5));
}

#[test]
fn sorting_keeps_equal_trees_in_order() {
    let mut trees = vec![
        group(None, vec![simple("second")]),
        glob(),
        group(None, vec![simple("first")]),
        UseTree::Glob(UseTreeGlob { prefix: Some(UseTreeGlobPrefix { path: Some(path("a")) }) }),
    ];
    sort_trees(&mut trees);
    let rendered: Vec<String> = trees.iter().map(render).collect();
    assert_eq!(rendered, vec!["*", "a::*", "{second}", "{first}"]);
}

#[test]
fn tidying_a_group_twice_changes_nothing() {
    let mut g = UseTreeGroup {
        prefix: None,
        trees: Some(vec![simple("z"), group(None, vec![simple("b"), glob(), simple("a::c")]), simple("a")]),
    };
    g.flatten();
    g.sort();
    let once = render_group(&g);
    assert_eq!(once, "{*, a::c, a, b, z}");
    g.flatten();
    g.sort();
    assert_eq!(render_group(&g), once);
}
