use rustidy::ast_str::{char_len_utf8, AstStr, AstStrRepr};
use rustidy::parser::Parser;
use rustidy::print::{print_to_bytes, Print, PrintFmt};
use rustidy::whitespace::Whitespace;

fn s(repr: AstStrRepr) -> AstStr {
    AstStr { repr, input: None }
}

#[test]
fn print_fmt_writes() {
    let mut f = PrintFmt::new();
    f.write_bytes(b"ab");
    f.write_repeated(b'-', 3);
    f.write_char('é');
    assert_eq!(f.output(), "ab---é".as_bytes());
    let d = PrintFmt::default();
    assert!(d.output().is_empty());
}

#[test]
fn ast_str_representations_print() {
    assert_eq!(print_to_bytes(&s(AstStrRepr::Spaces { len: 3 })), b"   ");
    assert_eq!(print_to_bytes(&s(AstStrRepr::Char('x'))), b"x");
    assert_eq!(print_to_bytes(&s(AstStrRepr::Static("st"))), b"st");
    assert_eq!(print_to_bytes(&s(AstStrRepr::String(String::from("own")))), b"own");
    assert_eq!(print_to_bytes(&s(AstStrRepr::Input(b"in".to_vec()))), b"in");
    let ind = s(AstStrRepr::Indentation { indent: String::from("  "), newlines: 2, depth: 2 });
    assert_eq!(print_to_bytes(&ind), b"\n\n    ");
    let joined = AstStr::join(s(AstStrRepr::Static("a")), s(AstStrRepr::Char('b')));
    assert_eq!(print_to_bytes(&joined), b"ab");
}

#[test]
fn ast_str_measures() {
    let ind = s(AstStrRepr::Indentation { indent: String::from("\t"), newlines: 2, depth: 3 });
    assert_eq!(ind.len(), 5);
    assert_eq!(ind.count_newlines(), 2);
    assert!(ind.has_newlines());
    assert!(!ind.is_empty());
    let empty = s(AstStrRepr::Static(""));
    assert!(empty.is_empty());
    assert!(!empty.has_newlines());
    let mut line = s(AstStrRepr::Static("// c"));
    line.push_newline();
    assert_eq!(print_to_bytes(&line), b"// c\n");
    assert_eq!(line.count_newlines(), 1);
    let mut r = AstStr::new_input(b"old".to_vec());
    r.replace(AstStrRepr::Static("new"));
    assert_eq!(print_to_bytes(&r), b"new");
    assert_eq!(r.input, Some(b"old".to_vec()));
    assert!(matches!(r.repr(), AstStrRepr::Static("new")));
    assert_eq!(char_len_utf8('a'), 1);
    assert_eq!(char_len_utf8('é'), 2);
    assert_eq!(char_len_utf8('€'), 3);
    assert_eq!(char_len_utf8('🦀'), 4);
}

#[test]
fn printing_parsed_whitespace_gives_input_back() {
    let input = " \t// one\n/* two /* nested */ */\n  ";
    let mut p = Parser::new(input);
    let ws = p.parse::<Whitespace>().ok().unwrap();
    assert_eq!(print_to_bytes(&ws), input.as_bytes());
    let mut f = PrintFmt::new();
    ws.print_non_ws(&mut f);
    assert!(f.output().is_empty());
}

#[test]
fn option_and_vec_print() {
    let none: Option<AstStr> = None;
    assert!(print_to_bytes(&none).is_empty());
    let some = Some(s(AstStrRepr::Static("x")));
    assert_eq!(print_to_bytes(&some), b"x");
    let v = vec![s(AstStrRepr::Static("a")), s(AstStrRepr::Static("b"))];
    assert_eq!(print_to_bytes(&v), b"ab");
}
