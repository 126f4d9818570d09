use rustidy::lex::{block_comment, comment_step, line_comment, BlockCommentError, CommentStepExec, LineCommentError};
use rustidy::punct::{punct_fail_reach, punctuation, utf8_width_of, Punct, PunctSkips};
use rustidy::shebang::{Shebang, ShebangError};
use rustidy::text::{
    at2, at3, at4, bytes_have_at, bytes_start_with, count_byte_in, find_byte_in, find_pair_in, rfind_byte_in,
    skip_ws_from, ws_width_at,
};

fn no_skips() -> PunctSkips {
    PunctSkips { plus: false, star: false, dollar: false, question: false, delimiters: false }
}

#[test]
fn byte_searches() {
    let s = b"ab\ncd\nef";
    assert_eq!(find_byte_in(s, 0, b'\n'), Some(2));
    assert_eq!(find_byte_in(s, 3, b'\n'), Some(5));
    assert_eq!(find_byte_in(s, 6, b'\n'), None);
    assert_eq!(rfind_byte_in(s, 8, b'\n'), Some(5));
    assert_eq!(rfind_byte_in(s, 5, b'\n'), Some(2));
    assert_eq!(rfind_byte_in(s, 2, b'\n'), None);
    assert_eq!(count_byte_in(s, 8, b'\n'), 2);
    assert_eq!(count_byte_in(s, 3, b'\n'), 1);
    assert_eq!(find_pair_in(b"a*/b*/", 0, 6, b'*', b'/'), Some(1));
    assert_eq!(find_pair_in(b"a*/b*/", 2, 6, b'*', b'/'), Some(4));
    assert_eq!(find_pair_in(b"a*/b*/", 2, 5, b'*', b'/'), None);
}

#[test]
fn byte_prefix_checks() {
    assert!(bytes_start_with(b"hello", b"he"));
    assert!(!bytes_start_with(b"he", b"hello"));
    assert!(bytes_have_at(b"hello", 2, b"ll"));
    assert!(!bytes_have_at(b"hello", 4, b"oo"));
    assert!(at2(b"//x", 0, b'/', b'/'));
    assert!(at3(b"/**", 0, b'/', b'*', b'*'));
    assert!(!at4(b"/**", 0, b'/', b'*', b'*', b'*'));
}

#[test]
fn unicode_whitespace_widths() {
    assert_eq!(ws_width_at(b" x", 0), 1);
    assert_eq!(ws_width_at(b"\tx", 0), 1);
    assert_eq!(ws_width_at("\u{a0}x".as_bytes(), 0), 2);
    assert_eq!(ws_width_at("\u{2003}x".as_bytes(), 0), 3);
    assert_eq!(ws_width_at("\u{3000}".as_bytes(), 0), 3);
    assert_eq!(ws_width_at(b"x", 0), 0);
    assert_eq!(skip_ws_from(" \t\n\u{85}a ".as_bytes(), 0), 5);
    assert_eq!(skip_ws_from(b"   ", 1), 3);
    assert_eq!(utf8_width_of(b'a'), 1);
    assert_eq!(utf8_width_of(0xc3), 2);
    assert_eq!(utf8_width_of(0xe2), 3);
    assert_eq!(utf8_width_of(0xf0), 4);
}

#[test]
fn block_comments_nest() {
    assert_eq!(block_comment(b"/* a */ b", 0), Ok(7));
    assert_eq!(block_comment(b"/* a /* b */ c */d", 0), Ok(17));
    assert_eq!(block_comment(b"/**/x", 0), Ok(4));
    assert_eq!(block_comment(b"/***/x", 0), Ok(5));
}

#[test]
fn block_comment_errors() {
    assert!(matches!(block_comment(b"x", 0), Err((BlockCommentError::NoComment, 0))));
    assert!(matches!(block_comment(b"/** doc */", 0), Err((BlockCommentError::NoComment, 0))));
    assert!(matches!(block_comment(b"/*! doc */", 0), Err((BlockCommentError::NoComment, 0))));
    assert!(matches!(block_comment(b"/* open", 0), Err((BlockCommentError::MissingCommentEnd, _))));
    assert!(BlockCommentError::MissingCommentEnd.is_fatal());
    assert!(!BlockCommentError::NoComment.is_fatal());
}

#[test]
fn line_comments_end_after_newline() {
    assert_eq!(line_comment(b"// hi\nx", 0), Ok(6));
    assert_eq!(line_comment(b"//// not doc\n", 0), Ok(13));
    assert_eq!(line_comment(b"/// doc\n", 0), Err(LineCommentError::NoComment));
    assert_eq!(line_comment(b"//! doc\n", 0), Err(LineCommentError::NoComment));
    assert_eq!(line_comment(b"// no newline", 0), Err(LineCommentError::Newline));
    assert_eq!(line_comment(b"x", 0), Err(LineCommentError::NoComment));
}

#[test]
fn comment_steps() {
    assert!(matches!(comment_step(b"/* a */", 0), CommentStepExec::Block(7)));
    assert!(matches!(comment_step(b"// a\n", 0), CommentStepExec::Line(5)));
    assert!(matches!(comment_step(b"a", 0), CommentStepExec::NoComment));
    assert!(matches!(comment_step(b"/* a", 0), CommentStepExec::Fatal(_)));
}

#[test]
fn punctuation_takes_longest_match() {
    assert_eq!(punctuation(b"<<= x", 0, no_skips()), Some((Punct::ShlEq, 3)));
    assert_eq!(punctuation(b"..= x", 0, no_skips()), Some((Punct::DotDotEq, 3)));
    assert_eq!(punctuation(b"... x", 0, no_skips()), Some((Punct::DotDotDot, 3)));
    assert_eq!(punctuation(b".. x", 0, no_skips()), Some((Punct::DotDot, 2)));
    assert_eq!(punctuation(b"::a", 0, no_skips()), Some((Punct::PathSep, 2)));
    assert_eq!(punctuation(b"=>", 0, no_skips()), Some((Punct::FatArrow, 2)));
    assert_eq!(punctuation(b"->", 0, no_skips()), Some((Punct::RArrow, 2)));
    assert_eq!(punctuation(b"a", 0, no_skips()), None);
    assert_eq!(punctuation(b"", 0, no_skips()), None);
}

#[test]
fn punctuation_respects_skips() {
    let skips = PunctSkips { plus: true, star: true, dollar: true, question: true, delimiters: true };
    assert_eq!(punctuation(b"+ x", 0, skips), None);
    assert_eq!(punctuation(b"+= x", 0, skips), Some((Punct::PlusEq, 2)));
    assert_eq!(punctuation(b"*", 0, skips), None);
    assert_eq!(punctuation(b"$", 0, skips), None);
    assert_eq!(punctuation(b"?", 0, skips), None);
    assert_eq!(punctuation(b"(", 0, skips), None);
    assert_eq!(punctuation(b"(", 0, no_skips()), Some((Punct::ParenOpen, 1)));
    assert_eq!(punct_fail_reach(b"ab", 0, no_skips()), 1);
    assert_eq!(punct_fail_reach(b"+a", 0, skips), 2);
}

#[test]
fn punct_spellings() {
    assert_eq!(Punct::ShrEq.as_str(), ">>=");
    assert_eq!(Punct::PathSep.as_str(), "::");
    assert_eq!(Punct::Underscore.as_str(), "_");
    assert_eq!(Punct::BracesClose.as_str(), "}");
}

#[test]
fn shebang_lines() {
    assert_eq!(Shebang::parse(b"#!/bin/sh\nfn main", 0), Ok(10));
    assert_eq!(Shebang::parse(b"#!/bin/sh", 0), Ok(9));
    assert_eq!(Shebang::parse(b"#![allow(x)]\n", 0), Err(ShebangError::Shebang));
    assert_eq!(Shebang::parse(b"fn main", 0), Err(ShebangError::Shebang));
}
