use rustidy::parser::{Parse, ParseError, Parser};
use rustidy::recursive::{
    parse, regroup, ParsableFrom, ParsableRecursive, RecursiveWrapper, RecursiveWrapperError, TryFromRecursiveRoot,
};

/// A token that was not there
#[derive(Debug)]
struct Missing;

impl ParseError for Missing {
    fn spec_is_fatal(&self) -> bool {
        false
    }

    fn spec_pos(&self) -> Option<usize> {
        None
    }

    fn is_fatal(&self) -> bool {
        false
    }

    fn pos(&self) -> Option<usize> {
        None
    }
}

fn strip(parser: &mut Parser<'_>, token: &[u8]) -> Result<(), Missing> {
    match parser.strip_prefix(token) {
        Some(_) => Ok(()),
        None => Err(Missing),
    }
}

struct Neg;
struct Bang;
struct Plus;
struct Num(u32);

impl Parse for Neg {
    type Error = Missing;

    fn parses(before: Parser<'_>, r: Result<Self, Missing>, after: Parser<'_>) -> bool {
        match r {
            Ok(_) => after.cur_pos() == before.cur_pos() + 1,
            Err(_) => after.cur_pos() == before.cur_pos(),
        }
    }

    fn parse_from(parser: &mut Parser<'_>) -> Result<Self, Missing> {
        strip(parser, b"-").map(|()| Neg)
    }
}

impl Parse for Bang {
    type Error = Missing;

    fn parses(before: Parser<'_>, r: Result<Self, Missing>, after: Parser<'_>) -> bool {
        match r {
            Ok(_) => after.cur_pos() == before.cur_pos() + 1,
            Err(_) => after.cur_pos() == before.cur_pos(),
        }
    }

    fn parse_from(parser: &mut Parser<'_>) -> Result<Self, Missing> {
        strip(parser, b"!").map(|()| Bang)
    }
}

impl Parse for Plus {
    type Error = Missing;

    fn parses(before: Parser<'_>, r: Result<Self, Missing>, after: Parser<'_>) -> bool {
        match r {
            Ok(_) => after.cur_pos() == before.cur_pos() + 1,
            Err(_) => after.cur_pos() == before.cur_pos(),
        }
    }

    fn parse_from(parser: &mut Parser<'_>) -> Result<Self, Missing> {
        strip(parser, b"+").map(|()| Plus)
    }
}

impl Parse for Num {
    type Error = Missing;

    fn parses(before: Parser<'_>, r: Result<Self, Missing>, after: Parser<'_>) -> bool {
        match r {
            Ok(_) => after.cur_pos() > before.cur_pos(),
            Err(_) => after.cur_pos() == before.cur_pos(),
        }
    }

    fn parse_from(parser: &mut Parser<'_>) -> Result<Self, Missing> {
        let digits: Vec<u8> = parser.remaining().iter().take_while(|b| b.is_ascii_digit()).copied().collect();
        if digits.is_empty() {
            return Err(Missing);
        }
        let start = parser.cur_pos();
        parser.advance_to(start + digits.len());
        Ok(Num(String::from_utf8(digits).unwrap().parse().unwrap()))
    }
}

#[derive(Debug, PartialEq)]
enum Expr {
    Num(u32),
    Neg(Box<Expr>),
    Fact(Box<Expr>),
    Add(Box<Expr>, Box<Expr>),
}

impl ParsableRecursive<Expr> for Expr {
    type Base = Num;
    type Infix = Plus;
    type Prefix = Neg;
    type Suffix = Bang;

    fn spec_join_prefix(_prefix: Neg, root: Expr) -> Expr {
        Expr::Neg(Box::new(root))
    }

    fn spec_from_base(base: Num) -> Expr {
        Expr::Num(base.0)
    }

    fn spec_join_suffix(root: Expr, _suffix: Bang) -> Expr {
        Expr::Fact(Box::new(root))
    }

    fn spec_join_infix(lhs: Expr, _infix: Plus, rhs: Expr) -> Expr {
        Expr::Add(Box::new(lhs), Box::new(rhs))
    }

    fn join_prefix(_prefix: Neg, root: Expr, _parser: &mut Parser<'_>) -> Expr {
        Expr::Neg(Box::new(root))
    }

    fn from_base(base: Num, _parser: &mut Parser<'_>) -> Expr {
        Expr::Num(base.0)
    }

    fn join_suffix(root: Expr, _suffix: Bang, _parser: &mut Parser<'_>) -> Expr {
        Expr::Fact(Box::new(root))
    }

    fn join_infix(lhs: Expr, _infix: Plus, rhs: Expr, _parser: &mut Parser<'_>) -> Expr {
        Expr::Add(Box::new(lhs), Box::new(rhs))
    }
}

/// Only a bare number
#[derive(Debug, PartialEq)]
struct OnlyNum(u32);

impl TryFromRecursiveRoot<Expr> for OnlyNum {
    fn spec_try_from_recursive_root(root: Expr) -> Option<Self> {
        match root {
            Expr::Num(n) => Some(OnlyNum(n)),
            _ => None,
        }
    }

    fn try_from_recursive_root(root: Expr, _parser: &mut Parser<'_>) -> Option<Self> {
        match root {
            Expr::Num(n) => Some(OnlyNum(n)),
            _ => None,
        }
    }
}

fn num(n: u32) -> Box<Expr> {
    Box::new(Expr::Num(n))
}

fn parse_expr(input: &str) -> (Result<Expr, RecursiveWrapperError<Expr>>, usize) {
    let mut parser = Parser::new(input);
    let r = parser.parse::<RecursiveWrapper<Expr, Expr>>().map(|w| Expr::from_parsable(w)).map_err(|e| *e.source);
    (r, parser.cur_pos())
}

#[test]
fn regroup_pairs_infixes_with_following_operands() {
    let (first, rest) = regroup(vec![(1, 'a'), (2, 'b')], 3);
    assert_eq!(first, 1);
    assert_eq!(rest, vec![('a', 2), ('b', 3)]);
    let (only, none) = regroup::<u32, char>(vec![], 7);
    assert_eq!(only, 7);
    assert!(none.is_empty());
}

#[test]
fn prefixes_base_and_suffixes() {
    let (r, pos) = parse_expr("--3!!");
    assert_eq!(r.ok().unwrap(), Expr::Fact(Box::new(Expr::Fact(Box::new(Expr::Neg(Box::new(Expr::Neg(num(3)))))))));
    assert_eq!(pos, 5);
}

#[test]
fn infixes_join_from_the_left() {
    let (r, pos) = parse_expr("1+2+3");
    assert_eq!(r.ok().unwrap(), Expr::Add(Box::new(Expr::Add(num(1), num(2))), num(3)));
    assert_eq!(pos, 5);
    let (s, _) = parse_expr("-1+2!");
    assert_eq!(s.ok().unwrap(), Expr::Add(Box::new(Expr::Neg(num(1))), Box::new(Expr::Fact(num(2)))));
}

#[test]
fn trailing_infix_is_left_unparsed() {
    let (r, pos) = parse_expr("1+2+x");
    assert_eq!(r.ok().unwrap(), Expr::Add(num(1), num(2)));
    assert_eq!(pos, 3);
}

#[test]
fn missing_operand_is_an_error() {
    let (r, _) = parse_expr("x");
    match r {
        Err(RecursiveWrapperError::PrefixOrBase { prefix, base }) => {
            assert!(!prefix.is_fatal());
            assert!(!base.is_fatal());
        },
        _ => panic!("parsed an operand from `x`"),
    }
    let (s, _) = parse_expr("-");
    assert!(matches!(s, Err(RecursiveWrapperError::PrefixOrBase { .. })));
}

#[test]
fn conversion_from_root() {
    let mut parser = Parser::new("42");
    let w = parser.parse::<RecursiveWrapper<OnlyNum, Expr>>().ok().unwrap();
    assert_eq!(w.0, OnlyNum(42));
    let mut other = Parser::new("-42");
    match other.parse::<RecursiveWrapper<OnlyNum, Expr>>() {
        Err(e) => {
            assert!(matches!(*e.source, RecursiveWrapperError::FromRoot));
            assert!(!e.is_fatal());
        },
        Ok(_) => panic!("a negation converted to a bare number"),
    }
}

#[test]
fn raw_chain_parse() {
    let mut parser = Parser::new("1+-2");
    let inner = parse::<Expr>(&mut parser).ok().unwrap();
    assert_eq!(inner.first.prefixes.len(), 0);
    assert_eq!(inner.rest.len(), 1);
    assert_eq!(inner.rest[0].1.prefixes.len(), 1);
    assert_eq!(inner.rest[0].1.base.0, 2);
}
