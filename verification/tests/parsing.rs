use rustidy::parser::{max_pos, parse_from_str, try_parse_from_str, AstRange, Parse, ParseError, Parser, ParserError, ParserLoc, ParserTag};
use rustidy::print::print_to_bytes;
use rustidy::punct::Punct;
use rustidy::shebang::{Shebang, ShebangError};
use rustidy::token::{ParseBracesOpen, Punctuation, PunctuationError};
use rustidy::whitespace::{BlockComment, Comment, LineComment, PureWhitespace, Whitespace};
use rustidy::ws_parse::{CommentError, WhitespaceError};
use rustidy::lex::BlockCommentError;

#[test]
fn parser_positions_and_lines() {
    let mut p = Parser::new("ab\ncde\nf");
    assert_eq!(p.cur_pos(), 0);
    assert_eq!(p.loc(4), ParserLoc { line: 1, column: 1 });
    assert_eq!(p.loc(0), ParserLoc { line: 0, column: 0 });
    p.set_pos(5);
    assert_eq!(p.cur_loc(), ParserLoc { line: 1, column: 2 });
    assert_eq!(p.cur_line(), b"cde");
    assert_eq!(p.cur_line_range(), AstRange { start: 3, end: 6 });
    assert_eq!(p.remaining(), b"e\nf");
    assert!(!p.is_finished());
    p.reverse_line();
    assert_eq!(p.cur_pos(), 3);
    p.reverse_line();
    assert_eq!(p.cur_pos(), 3);
    p.set_pos(8);
    assert!(p.is_finished());
    assert_eq!(p.input(), "ab\ncde\nf");
}

#[test]
fn reverse_whitespace_goes_back_over_whitespace() {
    let mut p = Parser::new("ab  \n\t x");
    p.set_pos(7);
    p.reverse_whitespace();
    assert_eq!(p.cur_pos(), 2);
    let mut q = Parser::new("  \u{a0} ");
    q.set_pos(5);
    q.reverse_whitespace();
    assert_eq!(q.cur_pos(), 0);
    let mut r = Parser::new("é  ");
    r.set_pos(4);
    r.reverse_whitespace();
    assert_eq!(r.cur_pos(), 1);
}

#[test]
fn strip_prefix_advances_only_on_match() {
    let mut p = Parser::new("foo bar");
    let s = p.strip_prefix(b"foo").unwrap();
    assert_eq!(print_to_bytes(&s), b"foo");
    assert_eq!(p.cur_pos(), 3);
    assert!(p.strip_prefix(b"bar").is_none());
    assert_eq!(p.cur_pos(), 3);
}

#[test]
fn advance_and_take() {
    let mut p = Parser::new("hello world");
    let range = p.advance_to(5);
    assert_eq!(range, AstRange { start: 0, end: 5 });
    let s = p.take_str(11);
    assert_eq!(print_to_bytes(&s), b" world");
    assert!(p.is_finished());
}

#[test]
fn tags_are_active_at_their_position() {
    let mut p = Parser::new("abc");
    let len = p.push_tags(&[ParserTag::SkipWhitespace, ParserTag::SkipDelimiters]);
    assert_eq!(len, 0);
    assert!(p.has_tag(ParserTag::SkipWhitespace));
    assert_eq!(p.tags(), vec![ParserTag::SkipDelimiters, ParserTag::SkipWhitespace]);
    p.set_pos(1);
    assert!(!p.has_tag(ParserTag::SkipWhitespace));
    assert!(p.tags().is_empty());
    p.set_pos(0);
    p.restore_tags(len);
    assert!(!p.has_tag(ParserTag::SkipWhitespace));
    p.push_tags(&[ParserTag::SkipTokenPlus]);
    let saved = p.take_tags();
    assert!(!p.has_tag(ParserTag::SkipTokenPlus));
    p.set_tags(saved);
    assert!(p.has_tag(ParserTag::SkipTokenPlus));
}

#[test]
fn whitespace_parse_keeps_text() {
    let input = "  // line\n  /* block */ \tx";
    let mut p = Parser::new(input);
    let ws = p.parse::<Whitespace>().ok().unwrap();
    assert_eq!(p.cur_pos(), 25);
    assert_eq!(print_to_bytes(&ws), &input.as_bytes()[..25]);
    assert_eq!(ws.0.rest.len(), 2);
    assert!(ws.0.rest[0].0.is_line());
    assert!(!ws.0.rest[1].0.is_line());
    assert!(!ws.is_pure());
}

#[test]
fn whitespace_skipped_under_tag() {
    let mut p = Parser::new("   x");
    p.push_tags(&[ParserTag::SkipWhitespace]);
    let ws = p.parse::<Whitespace>().ok().unwrap();
    assert_eq!(p.cur_pos(), 0);
    assert!(ws.is_empty());
}

#[test]
fn whitespace_with_unterminated_comment_fails() {
    let mut p = Parser::new("  /* open");
    let err = match p.parse::<Whitespace>() {
        Err(e) => e,
        Ok(_) => panic!("whitespace with an open comment parsed"),
    };
    assert!(!err.is_fatal());
    assert_eq!(err.range.start, 0);
    let inner: &WhitespaceError = &err.source;
    assert!(inner.pos().is_some());
}

#[test]
fn comment_parse_errors() {
    let mut p = Parser::new("x");
    match p.parse::<Comment>() {
        Err(e) => {
            assert!(matches!(*e.source, CommentError::NoneMatched { .. }));
            assert!(!e.is_fatal());
        },
        Ok(_) => panic!("comment parsed from `x`"),
    }
    let mut q = Parser::new("/* open");
    match q.try_parse::<BlockComment>() {
        Err(e) => {
            assert!(e.is_fatal());
            assert_eq!(*e.source, BlockCommentError::MissingCommentEnd);
        },
        Ok(_) => panic!("unterminated block comment parsed"),
    }
    let mut r = Parser::new("/* a */");
    let c = r.parse::<BlockComment>().ok().unwrap();
    assert_eq!(print_to_bytes(&c.0), b"/* a */");
    let mut s = Parser::new("// a\nb");
    let l = s.parse::<LineComment>().ok().unwrap();
    assert_eq!(print_to_bytes(&l.0), b"// a\n");
    let mut t = Parser::new("  \n b");
    let pw = t.parse::<PureWhitespace>().ok().unwrap();
    assert_eq!(print_to_bytes(&pw.0), b"  \n ");
}

#[test]
fn try_parse_restores_on_error() {
    let mut p = Parser::new("  abc");
    match p.try_parse::<Punctuation>() {
        Ok(Err(e)) => assert!(matches!(*e.source, PunctuationError::NotFound)),
        _ => panic!("punctuation parsed from `abc`"),
    }
    assert_eq!(p.cur_pos(), 0);
}

#[test]
fn peek_does_not_advance() {
    let mut p = Parser::new(" ::x");
    match p.peek::<Punctuation>() {
        Ok(Ok((punct, state))) => {
            assert_eq!(punct.kind, Punct::PathSep);
            assert_eq!(p.cur_pos(), 0);
            p.set_peeked(state);
            assert_eq!(p.cur_pos(), 3);
        },
        _ => panic!("peek failed"),
    }
}

#[test]
fn punctuation_parses_after_whitespace() {
    let mut p = Parser::new("  >>= 1");
    let punct = p.parse::<Punctuation>().ok().unwrap();
    assert_eq!(punct.kind, Punct::ShrEq);
    assert_eq!(print_to_bytes(&punct.str), b">>=");
    assert_eq!(print_to_bytes(&punct.ws), b"  ");
    assert_eq!(p.cur_pos(), 5);
}

#[test]
fn punctuation_obeys_parser_tags() {
    let mut p = Parser::new("+x");
    p.push_tags(&[ParserTag::SkipTokenPlus]);
    assert!(p.parse::<Punctuation>().is_err());
}

#[test]
fn braces_open_lookahead() {
    let mut p = Parser::new("  { x }");
    assert!(p.parse::<ParseBracesOpen>().is_ok());
    assert_eq!(p.cur_pos(), 3);
    let mut q = Parser::new("  x");
    assert!(q.parse::<ParseBracesOpen>().is_err());
    let mut r = Parser::new("{");
    r.push_tags(&[ParserTag::SkipDelimiters]);
    assert!(r.parse::<ParseBracesOpen>().is_err());
    assert_eq!(r.cur_pos(), 0);
}

#[test]
fn shebang_parse_from_parser() {
    let mut p = Parser::new("#!/usr/bin/env run\nfn main() {}");
    let sb = p.parse::<Shebang>().ok().unwrap();
    assert_eq!(print_to_bytes(&sb.0), b"#!/usr/bin/env run\n");
    let mut q = Parser::new("#![no_std]");
    match q.parse::<Shebang>() {
        Err(e) => {
            assert_eq!(*e.source, ShebangError::Shebang);
            assert_eq!(e.pos(), Some(0));
        },
        Ok(_) => panic!("inner attribute parsed as shebang"),
    }
}

#[test]
fn parse_vec_collects_until_failure() {
    let mut p = Parser::new(" + - * x");
    let puncts = p.parse_vec::<Punctuation>().ok().unwrap();
    assert_eq!(puncts.len(), 3);
    assert_eq!(puncts[2].kind, Punct::Star);
    assert_eq!(p.cur_pos(), 6);
}

#[test]
fn error_positions_prefer_deeper() {
    let inner = ParserError { source: Box::new(ShebangError::Shebang), range: AstRange { start: 2, end: 5 } };
    assert_eq!(inner.pos(), Some(5));
    assert_eq!(max_pos(Some(3), Some(7)), Some(7));
    assert_eq!(max_pos(None, Some(7)), Some(7));
    assert_eq!(max_pos(Some(3), None), Some(3));
    assert_eq!(max_pos(None, None), None);
}

#[test]
fn container_parses() {
    let mut p = Parser::new(" ; x");
    let some = p.parse::<Option<Punctuation>>().ok().unwrap();
    assert_eq!(some.unwrap().kind, Punct::Semi);
    let none = p.parse::<Option<Punctuation>>().ok().unwrap();
    assert!(none.is_none());
    assert_eq!(p.cur_pos(), 2);
    let mut q = Parser::new(" , , x");
    let list = q.parse::<Vec<Punctuation>>().ok().unwrap();
    assert_eq!(list.len(), 2);
    let mut r = Parser::new("::");
    let boxed = r.parse::<Box<Punctuation>>().ok().unwrap();
    assert_eq!(boxed.kind, Punct::PathSep);
    let mut s = Parser::new("abc");
    assert!(s.parse::<()>().is_ok());
    assert_eq!(s.cur_pos(), 0);
    let mut t = Parser::new("/* open");
    assert!(t.parse::<Option<BlockComment>>().is_err());
}

/// A test error, fatal or not.
struct TestError {
    fatal: bool,
}

impl ParseError for TestError {
    fn spec_is_fatal(&self) -> bool {
        self.fatal
    }

    fn spec_pos(&self) -> Option<usize> {
        None
    }

    fn is_fatal(&self) -> bool {
        self.fatal
    }

    fn pos(&self) -> Option<usize> {
        None
    }
}

#[test]
fn update_with_advances_by_what_was_consumed() {
    let mut p = Parser::new("abc123 rest");
    let s = p.update_with(|rem: &[u8]| rem.iter().take_while(|b| b.is_ascii_alphabetic()).count());
    assert_eq!(print_to_bytes(&s), b"abc");
    assert_eq!(p.cur_pos(), 3);
    let s = p.update_with(|_rem: &[u8]| 0);
    assert_eq!(print_to_bytes(&s), b"");
    assert_eq!(p.cur_pos(), 3);
}

#[test]
fn try_update_with_moves_on_failure_too() {
    let mut p = Parser::new("12ab");
    let ok = p.try_update_with(|rem: &[u8]| (rem.iter().take_while(|b| b.is_ascii_digit()).count(), Ok::<(), ()>(())));
    assert_eq!(print_to_bytes(&ok.ok().unwrap()), b"12");
    assert_eq!(p.cur_pos(), 2);
    let err = p.try_update_with(|_rem: &[u8]| (1, Err::<(), u8>(7)));
    assert!(matches!(err, Err(7)));
    assert_eq!(p.cur_pos(), 3);
}

#[test]
fn parse_from_str_returns_the_consumed_prefix() {
    let mut s: &[u8] = b"key=value";
    let key = parse_from_str(&mut s, |rem: &[u8]| (rem.iter().position(|&b| b == b'=').unwrap_or(rem.len()), Ok::<(), TestError>(())));
    assert_eq!(key.ok().unwrap(), b"key");
    assert_eq!(s, b"=value");
    let failed = parse_from_str(&mut s, |_rem: &[u8]| (1, Err::<(), TestError>(TestError { fatal: false })));
    assert!(failed.is_err());
    assert_eq!(s, b"value");
}

#[test]
fn try_parse_from_str_splits_fatal_errors() {
    let mut s: &[u8] = b"abc";
    let r = try_parse_from_str(&mut s, |_rem: &[u8]| (2, Ok::<(), TestError>(())));
    assert!(matches!(r, Ok(Ok(b)) if b == b"ab"));
    let r = try_parse_from_str(&mut s, |_rem: &[u8]| (1, Err::<(), TestError>(TestError { fatal: false })));
    assert!(matches!(r, Ok(Err(_))));
    assert_eq!(s, b"c");
    let r = try_parse_from_str(&mut s, |_rem: &[u8]| (1, Err::<(), TestError>(TestError { fatal: true })));
    assert!(matches!(r, Err(e) if e.fatal));
    assert_eq!(s, b"");
}

#[test]
fn punctuation_failures_report_where_they_stopped() {
    let mut p = Parser::new("  abc");
    match Punctuation::parse_from(&mut p) {
        Err(PunctuationError::NotFound) => assert_eq!(p.cur_pos(), 3),
        _ => panic!("punctuation parsed from `abc`"),
    }
    let mut q = Parser::new(" /* open");
    match Punctuation::parse_from(&mut q) {
        Err(PunctuationError::Whitespace(e)) => assert!(!e.is_fatal()),
        _ => panic!("unterminated comment accepted"),
    }
    let mut r = Parser::new("+x");
    r.push_tags(&[ParserTag::SkipTokenPlus]);
    match Punctuation::parse_from(&mut r) {
        Err(PunctuationError::NotFound) => assert_eq!(r.cur_pos(), 2),
        _ => panic!("skipped `+` parsed"),
    }
}

/// A value parsed from a peeked byte
struct Peeked(u8);

impl From<u8> for Peeked {
    fn from(b: u8) -> Self {
        Peeked(b)
    }
}

impl Parse for Peeked {
    type Error = TestError;

    fn parses(before: Parser<'_>, r: Result<Self, TestError>, after: Parser<'_>) -> bool {
        match r {
            Ok(_) => after.cur_pos() == before.cur_pos() + 1,
            Err(_) => after.cur_pos() == before.cur_pos(),
        }
    }

    fn parse_from(parser: &mut Parser<'_>) -> Result<Self, Self::Error> {
        match parser.remaining().first() {
            Some(&b) => {
                parser.set_pos(parser.cur_pos() + 1);
                Ok(Peeked(b))
            },
            None => Err(TestError { fatal: false }),
        }
    }
}

#[test]
fn parse_with_peeked_uses_the_peeked_value() {
    let mut p = Parser::new("xyz");
    let value = p.parse_with_peeked::<Peeked, u8>(b'q').ok().unwrap();
    assert_eq!(value.0, b'q');
    assert_eq!(p.cur_pos(), 0);
    let value = p.parse::<Peeked>().ok().unwrap();
    assert_eq!(value.0, b'x');
    assert_eq!(p.cur_pos(), 1);
}

#[test]
fn peek_states_compare_by_position() {
    let mut p = Parser::new(" :: +");
    let near = match p.peek::<Punctuation>() {
        Ok(Ok((_, state))) => state,
        _ => panic!("peek failed"),
    };
    p.set_pos(3);
    let far = match p.peek::<Punctuation>() {
        Ok(Ok((_, state))) => state,
        _ => panic!("peek failed"),
    };
    assert!(far.ahead_of(&near));
    assert!(!near.ahead_of(&far));
    assert!(far.ahead_of_or_equal(&far));
    assert!(!near.ahead_of_or_equal(&far));
}

#[test]
fn locations_display_one_indexed() {
    assert_eq!(ParserLoc { line: 0, column: 4 }.to_string(), "1:5");
    assert_eq!(ParserLoc { line: 11, column: 99 }.to_string(), "12:100");
    let p = Parser::new("ab\ncd");
    assert_eq!(p.loc(4).to_string(), "2:2");
}

#[test]
fn nested_tag_scopes_keep_older_tags() {
    let mut p = Parser::new("abc");
    let outer = p.push_tags(&[ParserTag::SkipWhitespace]);
    let inner = p.push_tags(&[ParserTag::SkipDelimiters, ParserTag::SkipTokenPlus]);
    assert_eq!(inner, 1);
    assert_eq!(
        p.tags(),
        vec![ParserTag::SkipTokenPlus, ParserTag::SkipDelimiters, ParserTag::SkipWhitespace]
    );
    p.restore_tags(inner);
    assert_eq!(p.tags(), vec![ParserTag::SkipWhitespace]);
    p.restore_tags(outer);
    assert!(p.tags().is_empty());
}
