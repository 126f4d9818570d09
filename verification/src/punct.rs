//! Lexing of punctuation tokens.
//!
//! [`punctuation`] recognises the longest punctuation token at a position,
//! among those the parser currently allows.
use vstd::prelude::*;
use crate::text::has_at;

verus! {

/// Punctuation token kinds
#[derive(Clone, Copy, Debug, PartialEq, Eq, Structural)]
pub enum Punct {
    Eq,
    Lt,
    Le,
    EqEq,
    Ne,
    Ge,
    Gt,
    AndAnd,
    OrOr,
    Not,
    Tilde,
    Plus,
    Minus,
    Star,
    Slash,
    Percent,
    Caret,
    And,
    Or,
    Shl,
    Shr,
    PlusEq,
    MinusEq,
    StarEq,
    SlashEq,
    PercentEq,
    CaretEq,
    AndEq,
    OrEq,
    ShlEq,
    ShrEq,
    At,
    Dot,
    DotDot,
    DotDotDot,
    DotDotEq,
    Comma,
    Semi,
    Colon,
    PathSep,
    RArrow,
    LArrow,
    FatArrow,
    Pound,
    Dollar,
    Question,
    Underscore,
    ParenOpen,
    ParenClose,
    BracketOpen,
    BracketClose,
    BracesOpen,
    BracesClose,
}

/// Which punctuation the parser currently skips
#[derive(Clone, Copy, Debug)]
pub struct PunctSkips {
    /// Skip a lone `+`
    pub plus: bool,
    /// Skip a lone `*`
    pub star: bool,
    /// Skip `$`
    pub dollar: bool,
    /// Skip `?`
    pub question: bool,
    /// Skip delimiters (`(`, `)`, `[`, `]`, `{`, `}`)
    pub delimiters: bool,
}

/// The spelling of a punctuation token.
pub open spec fn punct_str(p: Punct) -> Seq<u8> {
    match p {
        Punct::Eq => seq![0x3du8],
        Punct::Lt => seq![0x3cu8],
        Punct::Le => seq![0x3cu8, 0x3du8],
        Punct::EqEq => seq![0x3du8, 0x3du8],
        Punct::Ne => seq![0x21u8, 0x3du8],
        Punct::Ge => seq![0x3eu8, 0x3du8],
        Punct::Gt => seq![0x3eu8],
        Punct::AndAnd => seq![0x26u8, 0x26u8],
        Punct::OrOr => seq![0x7cu8, 0x7cu8],
        Punct::Not => seq![0x21u8],
        Punct::Tilde => seq![0x7eu8],
        Punct::Plus => seq![0x2bu8],
        Punct::Minus => seq![0x2du8],
        Punct::Star => seq![0x2au8],
        Punct::Slash => seq![0x2fu8],
        Punct::Percent => seq![0x25u8],
        Punct::Caret => seq![0x5eu8],
        Punct::And => seq![0x26u8],
        Punct::Or => seq![0x7cu8],
        Punct::Shl => seq![0x3cu8, 0x3cu8],
        Punct::Shr => seq![0x3eu8, 0x3eu8],
        Punct::PlusEq => seq![0x2bu8, 0x3du8],
        Punct::MinusEq => seq![0x2du8, 0x3du8],
        Punct::StarEq => seq![0x2au8, 0x3du8],
        Punct::SlashEq => seq![0x2fu8, 0x3du8],
        Punct::PercentEq => seq![0x25u8, 0x3du8],
        Punct::CaretEq => seq![0x5eu8, 0x3du8],
        Punct::AndEq => seq![0x26u8, 0x3du8],
        Punct::OrEq => seq![0x7cu8, 0x3du8],
        Punct::ShlEq => seq![0x3cu8, 0x3cu8, 0x3du8],
        Punct::ShrEq => seq![0x3eu8, 0x3eu8, 0x3du8],
        Punct::At => seq![0x40u8],
        Punct::Dot => seq![0x2eu8],
        Punct::DotDot => seq![0x2eu8, 0x2eu8],
        Punct::DotDotDot => seq![0x2eu8, 0x2eu8, 0x2eu8],
        Punct::DotDotEq => seq![0x2eu8, 0x2eu8, 0x3du8],
        Punct::Comma => seq![0x2cu8],
        Punct::Semi => seq![0x3bu8],
        Punct::Colon => seq![0x3au8],
        Punct::PathSep => seq![0x3au8, 0x3au8],
        Punct::RArrow => seq![0x2du8, 0x3eu8],
        Punct::LArrow => seq![0x3cu8, 0x2du8],
        Punct::FatArrow => seq![0x3du8, 0x3eu8],
        Punct::Pound => seq![0x23u8],
        Punct::Dollar => seq![0x24u8],
        Punct::Question => seq![0x3fu8],
        Punct::Underscore => seq![0x5fu8],
        Punct::ParenOpen => seq![0x28u8],
        Punct::ParenClose => seq![0x29u8],
        Punct::BracketOpen => seq![0x5bu8],
        Punct::BracketClose => seq![0x5du8],
        Punct::BracesOpen => seq![0x7bu8],
        Punct::BracesClose => seq![0x7du8],
    }
}

/// Each punctuation token is spelled as Rust writes it: `!=` is the
/// not-equal token, `..=` the inclusive range, `::` the path separator, and
/// so on for every kind.
pub proof fn lemma_punct_spellings()
    ensures
        punct_str(Punct::Eq) == seq!['=' as u8],
        punct_str(Punct::Lt) == seq!['<' as u8],
        punct_str(Punct::Le) == seq!['<' as u8, '=' as u8],
        punct_str(Punct::EqEq) == seq!['=' as u8, '=' as u8],
        punct_str(Punct::Ne) == seq!['!' as u8, '=' as u8],
        punct_str(Punct::Ge) == seq!['>' as u8, '=' as u8],
        punct_str(Punct::Gt) == seq!['>' as u8],
        punct_str(Punct::AndAnd) == seq!['&' as u8, '&' as u8],
        punct_str(Punct::OrOr) == seq!['|' as u8, '|' as u8],
        punct_str(Punct::Not) == seq!['!' as u8],
        punct_str(Punct::Tilde) == seq!['~' as u8],
        punct_str(Punct::Plus) == seq!['+' as u8],
        punct_str(Punct::Minus) == seq!['-' as u8],
        punct_str(Punct::Star) == seq!['*' as u8],
        punct_str(Punct::Slash) == seq!['/' as u8],
        punct_str(Punct::Percent) == seq!['%' as u8],
        punct_str(Punct::Caret) == seq!['^' as u8],
        punct_str(Punct::And) == seq!['&' as u8],
        punct_str(Punct::Or) == seq!['|' as u8],
        punct_str(Punct::Shl) == seq!['<' as u8, '<' as u8],
        punct_str(Punct::Shr) == seq!['>' as u8, '>' as u8],
        punct_str(Punct::PlusEq) == seq!['+' as u8, '=' as u8],
        punct_str(Punct::MinusEq) == seq!['-' as u8, '=' as u8],
        punct_str(Punct::StarEq) == seq!['*' as u8, '=' as u8],
        punct_str(Punct::SlashEq) == seq!['/' as u8, '=' as u8],
        punct_str(Punct::PercentEq) == seq!['%' as u8, '=' as u8],
        punct_str(Punct::CaretEq) == seq!['^' as u8, '=' as u8],
        punct_str(Punct::AndEq) == seq!['&' as u8, '=' as u8],
        punct_str(Punct::OrEq) == seq!['|' as u8, '=' as u8],
        punct_str(Punct::ShlEq) == seq!['<' as u8, '<' as u8, '=' as u8],
        punct_str(Punct::ShrEq) == seq!['>' as u8, '>' as u8, '=' as u8],
        punct_str(Punct::At) == seq!['@' as u8],
        punct_str(Punct::Dot) == seq!['.' as u8],
        punct_str(Punct::DotDot) == seq!['.' as u8, '.' as u8],
        punct_str(Punct::DotDotDot) == seq!['.' as u8, '.' as u8, '.' as u8],
        punct_str(Punct::DotDotEq) == seq!['.' as u8, '.' as u8, '=' as u8],
        punct_str(Punct::Comma) == seq![',' as u8],
        punct_str(Punct::Semi) == seq![';' as u8],
        punct_str(Punct::Colon) == seq![':' as u8],
        punct_str(Punct::PathSep) == seq![':' as u8, ':' as u8],
        punct_str(Punct::RArrow) == seq!['-' as u8, '>' as u8],
        punct_str(Punct::LArrow) == seq!['<' as u8, '-' as u8],
        punct_str(Punct::FatArrow) == seq!['=' as u8, '>' as u8],
        punct_str(Punct::Pound) == seq!['#' as u8],
        punct_str(Punct::Dollar) == seq!['$' as u8],
        punct_str(Punct::Question) == seq!['?' as u8],
        punct_str(Punct::Underscore) == seq!['_' as u8],
        punct_str(Punct::ParenOpen) == seq!['(' as u8],
        punct_str(Punct::ParenClose) == seq![')' as u8],
        punct_str(Punct::BracketOpen) == seq!['[' as u8],
        punct_str(Punct::BracketClose) == seq![']' as u8],
        punct_str(Punct::BracesOpen) == seq!['{' as u8],
        punct_str(Punct::BracesClose) == seq!['}' as u8],
{
}

/// A number that tells spellings of up to three bytes apart.
spec fn spelling_key(b: Seq<u8>) -> int {
    b.len() * 16777216
        + (if b.len() > 0 { b[0] * 65536 } else { 0 })
        + (if b.len() > 1 { b[1] * 256 } else { 0 })
        + (if b.len() > 2 { b[2] as int } else { 0 })
}

/// The punctuation kind whose spelling has key `k`.
spec fn punct_of_key(k: int) -> Punct {
    if k == 20774912 { Punct::Eq }
    else if k == 20709376 { Punct::Lt }
    else if k == 37502208 { Punct::Le }
    else if k == 37567744 { Punct::EqEq }
    else if k == 35732736 { Punct::Ne }
    else if k == 37633280 { Punct::Ge }
    else if k == 20840448 { Punct::Gt }
    else if k == 36054528 { Punct::AndAnd }
    else if k == 41712640 { Punct::OrOr }
    else if k == 18939904 { Punct::Not }
    else if k == 25034752 { Punct::Tilde }
    else if k == 19595264 { Punct::Plus }
    else if k == 19726336 { Punct::Minus }
    else if k == 19529728 { Punct::Star }
    else if k == 19857408 { Punct::Slash }
    else if k == 19202048 { Punct::Percent }
    else if k == 22937600 { Punct::Caret }
    else if k == 19267584 { Punct::And }
    else if k == 24903680 { Punct::Or }
    else if k == 37501952 { Punct::Shl }
    else if k == 37633536 { Punct::Shr }
    else if k == 36388096 { Punct::PlusEq }
    else if k == 36519168 { Punct::MinusEq }
    else if k == 36322560 { Punct::StarEq }
    else if k == 36650240 { Punct::SlashEq }
    else if k == 35994880 { Punct::PercentEq }
    else if k == 39730432 { Punct::CaretEq }
    else if k == 36060416 { Punct::AndEq }
    else if k == 41696512 { Punct::OrEq }
    else if k == 54279229 { Punct::ShlEq }
    else if k == 54410813 { Punct::ShrEq }
    else if k == 20971520 { Punct::At }
    else if k == 19791872 { Punct::Dot }
    else if k == 36580864 { Punct::DotDot }
    else if k == 53358126 { Punct::DotDotDot }
    else if k == 53358141 { Punct::DotDotEq }
    else if k == 19660800 { Punct::Comma }
    else if k == 20643840 { Punct::Semi }
    else if k == 20578304 { Punct::Colon }
    else if k == 37370368 { Punct::PathSep }
    else if k == 36519424 { Punct::RArrow }
    else if k == 37498112 { Punct::LArrow }
    else if k == 37568000 { Punct::FatArrow }
    else if k == 19070976 { Punct::Pound }
    else if k == 19136512 { Punct::Dollar }
    else if k == 20905984 { Punct::Question }
    else if k == 23003136 { Punct::Underscore }
    else if k == 19398656 { Punct::ParenOpen }
    else if k == 19464192 { Punct::ParenClose }
    else if k == 22740992 { Punct::BracketOpen }
    else if k == 22872064 { Punct::BracketClose }
    else if k == 24838144 { Punct::BracesOpen }
    else { Punct::BracesClose }
}

/// No two punctuation kinds share a spelling, so at any position at most one
/// token of each length can be lexed.
pub proof fn lemma_punct_spelling_unique(p: Punct, q: Punct)
    requires
        punct_str(p) == punct_str(q),
    ensures
        p == q,
{
    lemma_punct_key(p);
    lemma_punct_key(q);
}

/// Each kind is found again from the key of its spelling.
proof fn lemma_punct_key(p: Punct)
    ensures
        punct_of_key(spelling_key(punct_str(p))) == p,
{
    match p {
        Punct::Eq => {},
        Punct::Lt => {},
        Punct::Le => {},
        Punct::EqEq => {},
        Punct::Ne => {},
        Punct::Ge => {},
        Punct::Gt => {},
        Punct::AndAnd => {},
        Punct::OrOr => {},
        Punct::Not => {},
        Punct::Tilde => {},
        Punct::Plus => {},
        Punct::Minus => {},
        Punct::Star => {},
        Punct::Slash => {},
        Punct::Percent => {},
        Punct::Caret => {},
        Punct::And => {},
        Punct::Or => {},
        Punct::Shl => {},
        Punct::Shr => {},
        Punct::PlusEq => {},
        Punct::MinusEq => {},
        Punct::StarEq => {},
        Punct::SlashEq => {},
        Punct::PercentEq => {},
        Punct::CaretEq => {},
        Punct::AndEq => {},
        Punct::OrEq => {},
        Punct::ShlEq => {},
        Punct::ShrEq => {},
        Punct::At => {},
        Punct::Dot => {},
        Punct::DotDot => {},
        Punct::DotDotDot => {},
        Punct::DotDotEq => {},
        Punct::Comma => {},
        Punct::Semi => {},
        Punct::Colon => {},
        Punct::PathSep => {},
        Punct::RArrow => {},
        Punct::LArrow => {},
        Punct::FatArrow => {},
        Punct::Pound => {},
        Punct::Dollar => {},
        Punct::Question => {},
        Punct::Underscore => {},
        Punct::ParenOpen => {},
        Punct::ParenClose => {},
        Punct::BracketOpen => {},
        Punct::BracketClose => {},
        Punct::BracesOpen => {},
        Punct::BracesClose => {},
    }
}

/// Whether the parser allows a punctuation token under the given skips.
pub open spec fn punct_allowed(p: Punct, skips: PunctSkips) -> bool {
    match p {
        Punct::Plus => !skips.plus,
        Punct::Star => !skips.star,
        Punct::Dollar => !skips.dollar,
        Punct::Question => !skips.question,
        Punct::ParenOpen | Punct::ParenClose | Punct::BracketOpen | Punct::BracketClose
        | Punct::BracesOpen | Punct::BracesClose => !skips.delimiters,
        _ => true,
    }
}

/// Whether punctuation `p` is spelled at position `i` of `s` and allowed.
pub open spec fn punct_matches(s: Seq<u8>, i: int, p: Punct, skips: PunctSkips) -> bool {
    punct_allowed(p, skips) && has_at(s, i, punct_str(p))
}

impl Punct {
    /// The spelling of this punctuation token
    pub fn as_str(self) -> (r: &'static str)
        ensures
            r@.len() == punct_str(self).len(),
            forall|k: int| 0 <= k < r@.len() ==> r@[k] as u8 == punct_str(self)[k],
    {
        match self {
            Punct::Eq => {
                proof {
                    reveal_strlit("=");
                }
                "="
            },
            Punct::Lt => {
                proof {
                    reveal_strlit("<");
                }
                "<"
            },
            Punct::Le => {
                proof {
                    reveal_strlit("<=");
                }
                "<="
            },
            Punct::EqEq => {
                proof {
                    reveal_strlit("==");
                }
                "=="
            },
            Punct::Ne => {
                proof {
                    reveal_strlit("!=");
                }
                "!="
            },
            Punct::Ge => {
                proof {
                    reveal_strlit(">=");
                }
                ">="
            },
            Punct::Gt => {
                proof {
                    reveal_strlit(">");
                }
                ">"
            },
            Punct::AndAnd => {
                proof {
                    reveal_strlit("&&");
                }
                "&&"
            },
            Punct::OrOr => {
                proof {
                    reveal_strlit("||");
                }
                "||"
            },
            Punct::Not => {
                proof {
                    reveal_strlit("!");
                }
                "!"
            },
            Punct::Tilde => {
                proof {
                    reveal_strlit("~");
                }
                "~"
            },
            Punct::Plus => {
                proof {
                    reveal_strlit("+");
                }
                "+"
            },
            Punct::Minus => {
                proof {
                    reveal_strlit("-");
                }
                "-"
            },
            Punct::Star => {
                proof {
                    reveal_strlit("*");
                }
                "*"
            },
            Punct::Slash => {
                proof {
                    reveal_strlit("/");
                }
                "/"
            },
            Punct::Percent => {
                proof {
                    reveal_strlit("%");
                }
                "%"
            },
            Punct::Caret => {
                proof {
                    reveal_strlit("^");
                }
                "^"
            },
            Punct::And => {
                proof {
                    reveal_strlit("&");
                }
                "&"
            },
            Punct::Or => {
                proof {
                    reveal_strlit("|");
                }
                "|"
            },
            Punct::Shl => {
                proof {
                    reveal_strlit("<<");
                }
                "<<"
            },
            Punct::Shr => {
                proof {
                    reveal_strlit(">>");
                }
                ">>"
            },
            Punct::PlusEq => {
                proof {
                    reveal_strlit("+=");
                }
                "+="
            },
            Punct::MinusEq => {
                proof {
                    reveal_strlit("-=");
                }
                "-="
            },
            Punct::StarEq => {
                proof {
                    reveal_strlit("*=");
                }
                "*="
            },
            Punct::SlashEq => {
                proof {
                    reveal_strlit("/=");
                }
                "/="
            },
            Punct::PercentEq => {
                proof {
                    reveal_strlit("%=");
                }
                "%="
            },
            Punct::CaretEq => {
                proof {
                    reveal_strlit("^=");
                }
                "^="
            },
            Punct::AndEq => {
                proof {
                    reveal_strlit("&=");
                }
                "&="
            },
            Punct::OrEq => {
                proof {
                    reveal_strlit("|=");
                }
                "|="
            },
            Punct::ShlEq => {
                proof {
                    reveal_strlit("<<=");
                }
                "<<="
            },
            Punct::ShrEq => {
                proof {
                    reveal_strlit(">>=");
                }
                ">>="
            },
            Punct::At => {
                proof {
                    reveal_strlit("@");
                }
                "@"
            },
            Punct::Dot => {
                proof {
                    reveal_strlit(".");
                }
                "."
            },
            Punct::DotDot => {
                proof {
                    reveal_strlit("..");
                }
                ".."
            },
            Punct::DotDotDot => {
                proof {
                    reveal_strlit("...");
                }
                "..."
            },
            Punct::DotDotEq => {
                proof {
                    reveal_strlit("..=");
                }
                "..="
            },
            Punct::Comma => {
                proof {
                    reveal_strlit(",");
                }
                ","
            },
            Punct::Semi => {
                proof {
                    reveal_strlit(";");
                }
                ";"
            },
            Punct::Colon => {
                proof {
                    reveal_strlit(":");
                }
                ":"
            },
            Punct::PathSep => {
                proof {
                    reveal_strlit("::");
                }
                "::"
            },
            Punct::RArrow => {
                proof {
                    reveal_strlit("->");
                }
                "->"
            },
            Punct::LArrow => {
                proof {
                    reveal_strlit("<-");
                }
                "<-"
            },
            Punct::FatArrow => {
                proof {
                    reveal_strlit("=>");
                }
                "=>"
            },
            Punct::Pound => {
                proof {
                    reveal_strlit("#");
                }
                "#"
            },
            Punct::Dollar => {
                proof {
                    reveal_strlit("$");
                }
                "$"
            },
            Punct::Question => {
                proof {
                    reveal_strlit("?");
                }
                "?"
            },
            Punct::Underscore => {
                proof {
                    reveal_strlit("_");
                }
                "_"
            },
            Punct::ParenOpen => {
                proof {
                    reveal_strlit("(");
                }
                "("
            },
            Punct::ParenClose => {
                proof {
                    reveal_strlit(")");
                }
                ")"
            },
            Punct::BracketOpen => {
                proof {
                    reveal_strlit("[");
                }
                "["
            },
            Punct::BracketClose => {
                proof {
                    reveal_strlit("]");
                }
                "]"
            },
            Punct::BracesOpen => {
                proof {
                    reveal_strlit("{");
                }
                "{"
            },
            Punct::BracesClose => {
                proof {
                    reveal_strlit("}");
                }
                "}"
            },
        }
    }
}

/// Lexes the longest allowed punctuation token at position `i` of `s`,
/// returning it with its length.
#[verifier::rlimit(100)]
pub fn punctuation(s: &[u8], i: usize, skips: PunctSkips) -> (r: Option<(Punct, usize)>)
    requires
        i <= s@.len(),
    ensures
        match r {
            Some((p, n)) => {
                &&& punct_matches(s@, i as int, p, skips)
                &&& n == punct_str(p).len()
                &&& forall|q: Punct| punct_matches(s@, i as int, q, skips) ==> punct_str(q).len() <= n
                &&& forall|q: Punct| punct_matches(s@, i as int, q, skips) && punct_str(q).len() == n ==> q == p
            },
            None => forall|q: Punct| !punct_matches(s@, i as int, q, skips),
        },
{
    let len = s.len();
    let b0 = if i < len { s[i] } else { return None };
    let b1: u8 = if len - i > 1 { s[i + 1] } else { 0 };
    let b2: u8 = if len - i > 2 { s[i + 2] } else { 0 };
    let has1 = len - i > 1;
    let has2 = len - i > 2;
    let r = if b0 == 0x3d {
        if has1 && b1 == 0x3d { Some((Punct::EqEq, 2)) }
        else if has1 && b1 == 0x3e { Some((Punct::FatArrow, 2)) }
        else { Some((Punct::Eq, 1)) }
    } else if b0 == 0x3c {
        if has1 && b1 == 0x3d { Some((Punct::Le, 2)) }
        else if has1 && b1 == 0x2d { Some((Punct::LArrow, 2)) }
        else if has1 && b1 == 0x3c {
            if has2 && b2 == 0x3d { Some((Punct::ShlEq, 3)) } else { Some((Punct::Shl, 2)) }
        } else { Some((Punct::Lt, 1)) }
    } else if b0 == 0x3e {
        if has1 && b1 == 0x3d { Some((Punct::Ge, 2)) }
        else if has1 && b1 == 0x3e {
            if has2 && b2 == 0x3d { Some((Punct::ShrEq, 3)) } else { Some((Punct::Shr, 2)) }
        } else { Some((Punct::Gt, 1)) }
    } else if b0 == 0x21 {
        if has1 && b1 == 0x3d { Some((Punct::Ne, 2)) } else { Some((Punct::Not, 1)) }
    } else if b0 == 0x26 {
        if has1 && b1 == 0x26 { Some((Punct::AndAnd, 2)) }
        else if has1 && b1 == 0x3d { Some((Punct::AndEq, 2)) }
        else { Some((Punct::And, 1)) }
    } else if b0 == 0x7c {
        if has1 && b1 == 0x7c { Some((Punct::OrOr, 2)) }
        else if has1 && b1 == 0x3d { Some((Punct::OrEq, 2)) }
        else { Some((Punct::Or, 1)) }
    } else if b0 == 0x2b {
        if has1 && b1 == 0x3d { Some((Punct::PlusEq, 2)) }
        else if !skips.plus { Some((Punct::Plus, 1)) }
        else { None }
    } else if b0 == 0x2d {
        if has1 && b1 == 0x3d { Some((Punct::MinusEq, 2)) }
        else if has1 && b1 == 0x3e { Some((Punct::RArrow, 2)) }
        else { Some((Punct::Minus, 1)) }
    } else if b0 == 0x2a {
        if has1 && b1 == 0x3d { Some((Punct::StarEq, 2)) }
        else if !skips.star { Some((Punct::Star, 1)) }
        else { None }
    } else if b0 == 0x2f {
        if has1 && b1 == 0x3d { Some((Punct::SlashEq, 2)) } else { Some((Punct::Slash, 1)) }
    } else if b0 == 0x5e {
        if has1 && b1 == 0x3d { Some((Punct::CaretEq, 2)) } else { Some((Punct::Caret, 1)) }
    } else if b0 == 0x25 {
        if has1 && b1 == 0x3d { Some((Punct::PercentEq, 2)) } else { Some((Punct::Percent, 1)) }
    } else if b0 == 0x2e {
        if has1 && b1 == 0x2e {
            if has2 && b2 == 0x2e { Some((Punct::DotDotDot, 3)) }
            else if has2 && b2 == 0x3d { Some((Punct::DotDotEq, 3)) }
            else { Some((Punct::DotDot, 2)) }
        } else { Some((Punct::Dot, 1)) }
    } else if b0 == 0x3a {
        if has1 && b1 == 0x3a { Some((Punct::PathSep, 2)) } else { Some((Punct::Colon, 1)) }
    } else if b0 == 0x7e { Some((Punct::Tilde, 1)) }
    else if b0 == 0x40 { Some((Punct::At, 1)) }
    else if b0 == 0x2c { Some((Punct::Comma, 1)) }
    else if b0 == 0x3b { Some((Punct::Semi, 1)) }
    else if b0 == 0x23 { Some((Punct::Pound, 1)) }
    else if b0 == 0x24 && !skips.dollar { Some((Punct::Dollar, 1)) }
    else if b0 == 0x3f && !skips.question { Some((Punct::Question, 1)) }
    else if b0 == 0x5f { Some((Punct::Underscore, 1)) }
    else if b0 == 0x28 && !skips.delimiters { Some((Punct::ParenOpen, 1)) }
    else if b0 == 0x29 && !skips.delimiters { Some((Punct::ParenClose, 1)) }
    else if b0 == 0x5b && !skips.delimiters { Some((Punct::BracketOpen, 1)) }
    else if b0 == 0x5d && !skips.delimiters { Some((Punct::BracketClose, 1)) }
    else if b0 == 0x7b && !skips.delimiters { Some((Punct::BracesOpen, 1)) }
    else if b0 == 0x7d && !skips.delimiters { Some((Punct::BracesClose, 1)) }
    else { None };
    proof {
        assert forall|q: Punct|
            #![trigger punct_matches(s@, i as int, q, skips)]
            punct_matches(s@, i as int, q, skips) == (punct_allowed(q, skips) && spells(
                b0,
                b1,
                b2,
                s@.len() - i,
                punct_str(q),
            )) by {
            lemma_has_at_spells(s@, i as int, b0, b1, b2, punct_str(q));
        }
        if r is Some {
            let p = r->Some_0.0;
            let n = r->Some_0.1;
            assert forall|q: Punct| punct_matches(s@, i as int, q, skips) && punct_str(q).len() == n implies q == p by {
                assert(punct_str(q) =~= s@.subrange(i as int, i + n));
                assert(punct_str(p) =~= s@.subrange(i as int, i + n));
                lemma_punct_spelling_unique(p, q);
            }
        }
    }
    r
}

/// The byte width of the UTF-8 character whose encoding starts with `b`.
pub open spec fn utf8_width(b: u8) -> nat {
    if b < 0x80 {
        1
    } else if b < 0xe0 {
        2
    } else if b < 0xf0 {
        3
    } else {
        4
    }
}

/// The smaller of a position and the input length.
pub open spec fn min_len(p: int, len: int) -> int {
    if p > len { len } else { p }
}

/// How far the lexer has read when it finds no punctuation at `i`: past the
/// first character, and past the second one after a skipped `+` or `*`;
/// nowhere at the end of input. Never past the end of the input.
pub open spec fn spec_punct_fail_reach(s: Seq<u8>, i: int, skips: PunctSkips) -> int {
    if i >= s.len() {
        i
    } else {
        let one = min_len(i + utf8_width(s[i]), s.len() as int);
        let two = if one < s.len() { min_len(one + utf8_width(s[one]), s.len() as int) } else { one };
        if (s[i] == 0x2b && skips.plus) || (s[i] == 0x2a && skips.star) { two } else { one }
    }
}

/// How far the lexer has read when it finds no punctuation at `i`.
pub fn punct_fail_reach(s: &[u8], i: usize, skips: PunctSkips) -> (r: usize)
    requires
        i <= s@.len(),
    ensures
        r == spec_punct_fail_reach(s@, i as int, skips),
        i <= r <= s@.len(),
{
    let n = s.len();
    if i >= n {
        return i;
    }
    let w = utf8_width_of(s[i]);
    let one = if n - i <= w { n } else { i + w };
    let two = if one < n {
        let w2 = utf8_width_of(s[one]);
        if n - one <= w2 { n } else { one + w2 }
    } else {
        one
    };
    if (s[i] == 0x2b && skips.plus) || (s[i] == 0x2a && skips.star) { two } else { one }
}

/// The byte width of the UTF-8 character whose encoding starts with `b`.
pub fn utf8_width_of(b: u8) -> (r: usize)
    ensures
        r == utf8_width(b),
{
    if b < 0x80 {
        1
    } else if b < 0xe0 {
        2
    } else if b < 0xf0 {
        3
    } else {
        4
    }
}

/// Whether the bytes `b0 b1 b2`, of which `n` are present, spell `p`
/// (one to three bytes long).
pub open spec fn spells(b0: u8, b1: u8, b2: u8, n: int, p: Seq<u8>) -> bool {
    if p.len() == 1 {
        n >= 1 && b0 == p[0]
    } else if p.len() == 2 {
        n >= 2 && b0 == p[0] && b1 == p[1]
    } else if p.len() == 3 {
        n >= 3 && b0 == p[0] && b1 == p[1] && b2 == p[2]
    } else {
        false
    }
}

proof fn lemma_has_at_spells(s: Seq<u8>, i: int, b0: u8, b1: u8, b2: u8, p: Seq<u8>)
    requires
        0 <= i < s.len(),
        1 <= p.len() <= 3,
        b0 == s[i],
        i + 1 < s.len() ==> b1 == s[i + 1],
        i + 2 < s.len() ==> b2 == s[i + 2],
    ensures
        has_at(s, i, p) == spells(b0, b1, b2, s.len() - i, p),
{
    if has_at(s, i, p) {
        assert(s.subrange(i, i + p.len())[0] == p[0]);
        if p.len() >= 2 {
            assert(s.subrange(i, i + p.len())[1] == p[1]);
        }
        if p.len() >= 3 {
            assert(s.subrange(i, i + p.len())[2] == p[2]);
        }
    }
    if spells(b0, b1, b2, s.len() - i, p) {
        assert(s.subrange(i, i + p.len()) =~= p);
    }
}

} // verus!
