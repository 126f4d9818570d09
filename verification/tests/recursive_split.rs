use rustidy::parser::{Parse, ParseError, Parser};
use rustidy::recursive::{ParsableFrom, ParsableRecursive, RecursiveWrapper, RecursiveWrapperError};

/// A token that was not there
#[derive(Debug)]
struct Missing;

impl ParseError for Missing {
    fn spec_is_fatal(&self) -> bool {
        false
    }

    fn spec_pos(&self) -> Option<usize> {
        None
    }

    fn is_fatal(&self) -> bool {
        false
    }

    fn pos(&self) -> Option<usize> {
        None
    }
}

fn one_byte(before: &Parser<'_>, ok: bool, after: &Parser<'_>) -> bool {
    if ok {
        after.cur_pos() == before.cur_pos() + 1
    } else {
        after.cur_pos() == before.cur_pos()
    }
}

/// `*` as a prefix
struct Star;

/// `*` or a digit as a base
struct Atom(u8);

/// `~` as a suffix
struct TildeSuffix;

/// `~` as an infix
struct TildeInfix;

impl Parse for Star {
    type Error = Missing;

    fn parses(before: Parser<'_>, r: Result<Self, Missing>, after: Parser<'_>) -> bool {
        one_byte(&before, r.is_ok(), &after)
    }

    fn parse_from(parser: &mut Parser<'_>) -> Result<Self, Missing> {
        match parser.strip_prefix(b"*") {
            Some(_) => Ok(Star),
            None => Err(Missing),
        }
    }
}

impl Parse for Atom {
    type Error = Missing;

    fn parses(before: Parser<'_>, r: Result<Self, Missing>, after: Parser<'_>) -> bool {
        one_byte(&before, r.is_ok(), &after)
    }

    fn parse_from(parser: &mut Parser<'_>) -> Result<Self, Missing> {
        match parser.remaining().first().copied() {
            Some(b) if b == b'*' || b.is_ascii_digit() => {
                let start = parser.cur_pos();
                parser.advance_to(start + 1);
                Ok(Atom(b))
            },
            _ => Err(Missing),
        }
    }
}

impl Parse for TildeSuffix {
    type Error = Missing;

    fn parses(before: Parser<'_>, r: Result<Self, Missing>, after: Parser<'_>) -> bool {
        one_byte(&before, r.is_ok(), &after)
    }

    fn parse_from(parser: &mut Parser<'_>) -> Result<Self, Missing> {
        match parser.strip_prefix(b"~") {
            Some(_) => Ok(TildeSuffix),
            None => Err(Missing),
        }
    }
}

impl Parse for TildeInfix {
    type Error = Missing;

    fn parses(before: Parser<'_>, r: Result<Self, Missing>, after: Parser<'_>) -> bool {
        one_byte(&before, r.is_ok(), &after)
    }

    fn parse_from(parser: &mut Parser<'_>) -> Result<Self, Missing> {
        match parser.strip_prefix(b"~") {
            Some(_) => Ok(TildeInfix),
            None => Err(Missing),
        }
    }
}

#[derive(Debug, PartialEq)]
enum Term {
    Atom(u8),
    Deref(Box<Term>),
    Post(Box<Term>),
    Join(Box<Term>, Box<Term>),
}

impl ParsableRecursive<Term> for Term {
    type Base = Atom;
    type Infix = TildeInfix;
    type Prefix = Star;
    type Suffix = TildeSuffix;

    fn spec_join_prefix(_prefix: Star, root: Term) -> Term {
        Term::Deref(Box::new(root))
    }

    fn spec_from_base(base: Atom) -> Term {
        Term::Atom(base.0)
    }

    fn spec_join_suffix(root: Term, _suffix: TildeSuffix) -> Term {
        Term::Post(Box::new(root))
    }

    fn spec_join_infix(lhs: Term, _infix: TildeInfix, rhs: Term) -> Term {
        Term::Join(Box::new(lhs), Box::new(rhs))
    }

    fn join_prefix(_prefix: Star, root: Term, _parser: &mut Parser<'_>) -> Term {
        Term::Deref(Box::new(root))
    }

    fn from_base(base: Atom, _parser: &mut Parser<'_>) -> Term {
        Term::Atom(base.0)
    }

    fn join_suffix(root: Term, _suffix: TildeSuffix, _parser: &mut Parser<'_>) -> Term {
        Term::Post(Box::new(root))
    }

    fn join_infix(lhs: Term, _infix: TildeInfix, rhs: Term, _parser: &mut Parser<'_>) -> Term {
        Term::Join(Box::new(lhs), Box::new(rhs))
    }
}

fn parse_term(input: &str) -> (Result<Term, RecursiveWrapperError<Term>>, usize) {
    let mut parser = Parser::new(input);
    let r = parser.parse::<RecursiveWrapper<Term, Term>>().map(|w| Term::from_parsable(w)).map_err(|e| *e.source);
    (r, parser.cur_pos())
}

fn atom(b: u8) -> Box<Term> {
    Box::new(Term::Atom(b))
}

#[test]
fn star_is_a_prefix_only_when_a_base_follows_the_base() {
    let (r, pos) = parse_term("**1");
    assert_eq!(r.ok().unwrap(), Term::Deref(Box::new(Term::Deref(atom(b'1')))));
    assert_eq!(pos, 3);
    let (s, pos) = parse_term("**");
    assert_eq!(s.ok().unwrap(), Term::Deref(atom(b'*')));
    assert_eq!(pos, 2);
    let (t, _) = parse_term("*");
    assert_eq!(t.ok().unwrap(), Term::Atom(b'*'));
}

#[test]
fn tilde_is_an_infix_only_when_an_operand_follows() {
    let (r, pos) = parse_term("1~2");
    assert_eq!(r.ok().unwrap(), Term::Join(atom(b'1'), atom(b'2')));
    assert_eq!(pos, 3);
    let (s, pos) = parse_term("1~");
    assert_eq!(s.ok().unwrap(), Term::Post(atom(b'1')));
    assert_eq!(pos, 2);
    let (t, pos) = parse_term("1~~2");
    assert_eq!(t.ok().unwrap(), Term::Join(Box::new(Term::Post(atom(b'1'))), atom(b'2')));
    assert_eq!(pos, 4);
    let (u, _) = parse_term("1~*2");
    assert_eq!(u.ok().unwrap(), Term::Join(atom(b'1'), Box::new(Term::Deref(atom(b'2')))));
}
