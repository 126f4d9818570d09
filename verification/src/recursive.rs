//! Recursively parsable types: operands made of prefixes, a base and
//! suffixes, joined by infixes.
use vstd::prelude::*;
use std::marker::PhantomData;
use crate::parser::{pushed_at, spec_max_pos, max_pos, Parse, ParseError, Parser, ParserError, ParserTag, PeekState, peeks, parses_wrapped, active_tags};
use crate::token::ParseBracesOpen;

verus! {

/// What a parse step keeps of the parser: it stays well formed, over the
/// same input and tags, and does not move backwards.
pub open spec fn parser_kept(before: Parser<'_>, after: Parser<'_>) -> bool {
    &&& after.wf()
    &&& after.spec_input() == before.spec_input()
    &&& after.tag_stack() == before.tag_stack()
    &&& before.pos() <= after.pos()
}

/// Recursive type
pub trait ParsableRecursive<R>: Sized {
    /// The prefix for this type
    type Prefix: Parse;

    /// Base type
    type Base: Parse;

    /// The suffix for this type
    type Suffix: Parse;

    /// The infix of this type
    type Infix: Parse;

    /// The value [`Self::join_prefix`] builds.
    spec fn spec_join_prefix(prefix: Self::Prefix, root: R) -> Self;

    /// The value [`Self::from_base`] builds.
    spec fn spec_from_base(base: Self::Base) -> Self;

    /// The value [`Self::join_suffix`] builds.
    spec fn spec_join_suffix(root: R, suffix: Self::Suffix) -> Self;

    /// The value [`Self::join_infix`] builds.
    spec fn spec_join_infix(lhs: R, infix: Self::Infix, rhs: R) -> Self;

    /// Creates this type from it's parts
    fn join_prefix(prefix: Self::Prefix, root: R, parser: &mut Parser<'_>) -> (r: Self)
        requires
            old(parser).wf(),
        ensures
            parser_kept(*old(parser), *final(parser)),
            r == Self::spec_join_prefix(prefix, root),
    ;

    /// Converts the base to this type
    fn from_base(base: Self::Base, parser: &mut Parser<'_>) -> (r: Self)
        requires
            old(parser).wf(),
        ensures
            parser_kept(*old(parser), *final(parser)),
            r == Self::spec_from_base(base),
    ;

    /// Creates this type from it's parts
    fn join_suffix(root: R, suffix: Self::Suffix, parser: &mut Parser<'_>) -> (r: Self)
        requires
            old(parser).wf(),
        ensures
            parser_kept(*old(parser), *final(parser)),
            r == Self::spec_join_suffix(root, suffix),
    ;

    /// Creates this type from it's parts
    fn join_infix(lhs: R, infix: Self::Infix, rhs: R, parser: &mut Parser<'_>) -> (r: Self)
        requires
            old(parser).wf(),
        ensures
            parser_kept(*old(parser), *final(parser)),
            r == Self::spec_join_infix(lhs, infix, rhs),
    ;
}

/// Types that may be made from a recursive root, or refuse it
pub trait TryFromRecursiveRoot<R>: Sized {
    /// The value [`Self::try_from_recursive_root`] returns.
    spec fn spec_try_from_recursive_root(root: R) -> Option<Self>;

    fn try_from_recursive_root(root: R, parser: &mut Parser<'_>) -> (r: Option<Self>)
        requires
            old(parser).wf(),
        ensures
            parser_kept(*old(parser), *final(parser)),
            r == Self::spec_try_from_recursive_root(root),
    ;
}

impl<R> TryFromRecursiveRoot<R> for R {
    open spec fn spec_try_from_recursive_root(root: R) -> Option<R> {
        Some(root)
    }

    fn try_from_recursive_root(root: R, parser: &mut Parser<'_>) -> (r: Option<R>) {
        Some(root)
    }
}

/// Types that may be made from a recursive root
pub trait FromRecursiveRoot<R>: Sized {
    /// The value [`Self::from_recursive_root`] returns.
    spec fn spec_from_recursive_root(root: R) -> Self;

    fn from_recursive_root(root: R, parser: &mut Parser<'_>) -> (r: Self)
        requires
            old(parser).wf(),
        ensures
            parser_kept(*old(parser), *final(parser)),
            r == Self::spec_from_recursive_root(root),
    ;
}

/// Types that may be turned into a recursive root
pub trait IntoRecursiveRoot<R>: Sized {
    /// The value [`Self::into_recursive_root`] returns.
    spec fn spec_into_recursive_root(self) -> R;

    fn into_recursive_root(self, parser: &mut Parser<'_>) -> (r: R)
        requires
            old(parser).wf(),
        ensures
            parser_kept(*old(parser), *final(parser)),
            r == self.spec_into_recursive_root(),
    ;
}

impl<R> IntoRecursiveRoot<R> for R {
    open spec fn spec_into_recursive_root(self) -> R {
        self
    }

    fn into_recursive_root(self, parser: &mut Parser<'_>) -> (r: R) {
        self
    }
}

/// Types that may be parsed from another
pub trait ParsableFrom<T>: Sized {
    /// The value [`Self::from_parsable`] returns.
    spec fn spec_from_parsable(value: T) -> Self;

    fn from_parsable(value: T) -> (r: Self)
        ensures
            r == Self::spec_from_parsable(value),
    ;
}

/// Recursive type parser: parses `R` and converts the root into `T`
pub struct RecursiveWrapper<T, R>(pub T, pub PhantomData<R>);

impl<T, R> ParsableFrom<RecursiveWrapper<T, R>> for T {
    open spec fn spec_from_parsable(wrapper: RecursiveWrapper<T, R>) -> T {
        wrapper.0
    }

    fn from_parsable(wrapper: RecursiveWrapper<T, R>) -> (r: T) {
        wrapper.0
    }
}

/// Error from parsing a recursive type
pub enum RecursiveWrapperError<R: ParsableRecursive<R>> {
    Prefix(ParserError<<R::Prefix as Parse>::Error>),
    Suffix(ParserError<<R::Suffix as Parse>::Error>),
    Infix(ParserError<<R::Infix as Parse>::Error>),
    Base(ParserError<<R::Base as Parse>::Error>),
    BracesOpen(ParserError<<ParseBracesOpen as Parse>::Error>),
    /// Expected a prefix or base
    PrefixOrBase {
        prefix: ParserError<<R::Prefix as Parse>::Error>,
        base: ParserError<<R::Base as Parse>::Error>,
    },
    /// Expected a suffix or infix
    SuffixOrInfix {
        suffix: ParserError<<R::Suffix as Parse>::Error>,
        infix: ParserError<<R::Infix as Parse>::Error>,
    },
    /// None matched
    NoneMatched {
        prefix: ParserError<<R::Prefix as Parse>::Error>,
        suffix: ParserError<<R::Suffix as Parse>::Error>,
        infix: ParserError<<R::Infix as Parse>::Error>,
        base: ParserError<<R::Base as Parse>::Error>,
    },
    /// Unable to convert from root
    FromRoot,
    /// A prefix, a suffix or a whole operand with its infix matched without
    /// consuming input, so going on would repeat the same step forever
    Stalled,
}

impl<R: ParsableRecursive<R>> ParseError for RecursiveWrapperError<R> {
    open spec fn spec_is_fatal(&self) -> bool {
        match self {
            RecursiveWrapperError::Prefix(e) => e.spec_is_fatal(),
            RecursiveWrapperError::Suffix(e) => e.spec_is_fatal(),
            RecursiveWrapperError::Infix(e) => e.spec_is_fatal(),
            RecursiveWrapperError::Base(e) => e.spec_is_fatal(),
            RecursiveWrapperError::BracesOpen(e) => e.spec_is_fatal(),
            RecursiveWrapperError::PrefixOrBase { prefix, base } => prefix.spec_is_fatal() || base.spec_is_fatal(),
            RecursiveWrapperError::SuffixOrInfix { suffix, infix } => suffix.spec_is_fatal() || infix.spec_is_fatal(),
            RecursiveWrapperError::NoneMatched { prefix, suffix, infix, base } =>
                prefix.spec_is_fatal() || suffix.spec_is_fatal() || infix.spec_is_fatal() || base.spec_is_fatal(),
            RecursiveWrapperError::FromRoot => false,
            RecursiveWrapperError::Stalled => false,
        }
    }

    fn is_fatal(&self) -> (r: bool) {
        match self {
            RecursiveWrapperError::Prefix(e) => e.is_fatal(),
            RecursiveWrapperError::Suffix(e) => e.is_fatal(),
            RecursiveWrapperError::Infix(e) => e.is_fatal(),
            RecursiveWrapperError::Base(e) => e.is_fatal(),
            RecursiveWrapperError::BracesOpen(e) => e.is_fatal(),
            RecursiveWrapperError::PrefixOrBase { prefix, base } => prefix.is_fatal() || base.is_fatal(),
            RecursiveWrapperError::SuffixOrInfix { suffix, infix } => suffix.is_fatal() || infix.is_fatal(),
            RecursiveWrapperError::NoneMatched { prefix, suffix, infix, base } =>
                prefix.is_fatal() || suffix.is_fatal() || infix.is_fatal() || base.is_fatal(),
            RecursiveWrapperError::FromRoot => false,
            RecursiveWrapperError::Stalled => false,
        }
    }

    open spec fn spec_pos(&self) -> Option<usize> {
        match self {
            RecursiveWrapperError::Prefix(e) => e.spec_pos(),
            RecursiveWrapperError::Suffix(e) => e.spec_pos(),
            RecursiveWrapperError::Infix(e) => e.spec_pos(),
            RecursiveWrapperError::Base(e) => e.spec_pos(),
            RecursiveWrapperError::BracesOpen(e) => e.spec_pos(),
            RecursiveWrapperError::PrefixOrBase { prefix, base } => spec_max_pos(prefix.spec_pos(), base.spec_pos()),
            RecursiveWrapperError::SuffixOrInfix { suffix, infix } => spec_max_pos(suffix.spec_pos(), infix.spec_pos()),
            RecursiveWrapperError::NoneMatched { prefix, suffix, infix, base } =>
                spec_max_pos(spec_max_pos(spec_max_pos(prefix.spec_pos(), suffix.spec_pos()), infix.spec_pos()), base.spec_pos()),
            RecursiveWrapperError::FromRoot => None,
            RecursiveWrapperError::Stalled => None,
        }
    }

    fn pos(&self) -> (r: Option<usize>) {
        match self {
            RecursiveWrapperError::Prefix(e) => e.pos(),
            RecursiveWrapperError::Suffix(e) => e.pos(),
            RecursiveWrapperError::Infix(e) => e.pos(),
            RecursiveWrapperError::Base(e) => e.pos(),
            RecursiveWrapperError::BracesOpen(e) => e.pos(),
            RecursiveWrapperError::PrefixOrBase { prefix, base } => max_pos(prefix.pos(), base.pos()),
            RecursiveWrapperError::SuffixOrInfix { suffix, infix } => max_pos(suffix.pos(), infix.pos()),
            RecursiveWrapperError::NoneMatched { prefix, suffix, infix, base } =>
                max_pos(max_pos(max_pos(prefix.pos(), suffix.pos()), infix.pos()), base.pos()),
            RecursiveWrapperError::FromRoot => None,
            RecursiveWrapperError::Stalled => None,
        }
    }
}

/// One operand: its prefixes, its base and its suffixes
pub struct RecursiveWrapperInnerPart<R: ParsableRecursive<R>> {
    pub prefixes: Vec<R::Prefix>,
    pub base: R::Base,
    pub suffixes: Vec<R::Suffix>,
    /// Where the operand starts, then where each of its prefixes, its base
    /// and each of its suffixes ends.
    pub bounds: Ghost<Seq<int>>,
}

/// Whether positions never decrease.
pub open spec fn ascending(b: Seq<int>) -> bool {
    forall|k: int, l: int| 0 <= k <= l < b.len() ==> b[k] <= b[l]
}

/// Whether the piece between bounds `k` and `k + 1` is not empty.
pub open spec fn piece_nonempty(b: Seq<int>, k: int) -> bool {
    b[k] < b[k + 1]
}

/// Whether the pieces of an operand lie one after another from `start` to
/// `end`, its prefixes and suffixes each taking some input.
pub open spec fn operand_spans<R: ParsableRecursive<R>>(part: RecursiveWrapperInnerPart<R>, start: int, end: int) -> bool {
    let b = part.bounds@;
    let np = part.prefixes@.len();
    &&& b.len() == np + part.suffixes@.len() + 2
    &&& b[0] == start
    &&& b[b.len() - 1] == end
    &&& ascending(b)
    &&& forall|k: int| 0 <= k < b.len() - 1 && k != np ==> #[trigger] piece_nonempty(b, k)
}

/// Where an operand starts.
pub open spec fn part_start<R: ParsableRecursive<R>>(part: RecursiveWrapperInnerPart<R>) -> int {
    part.bounds@[0]
}

/// Where an operand ends.
pub open spec fn part_end<R: ParsableRecursive<R>>(part: RecursiveWrapperInnerPart<R>) -> int {
    part.bounds@[part.bounds@.len() - 1]
}

/// Whether operands lie one after another from `start` to `end`, each
/// infix between the end of one and the start of the next.
#[verifier::opaque]
pub open spec fn chain_spans<R: ParsableRecursive<R>>(parts: Seq<RecursiveWrapperInnerPart<R>>, start: int, end: int) -> bool {
    &&& parts.len() > 0
    &&& forall|i: int| 0 <= i < parts.len() ==> operand_spans(#[trigger] parts[i], part_start(parts[i]), part_end(parts[i]))
    &&& part_start(parts[0]) == start
    &&& part_end(parts[parts.len() - 1]) == end
    &&& forall|i: int| 0 <= i < parts.len() - 1 ==> part_end(#[trigger] parts[i]) <= part_start(parts[i + 1])
}

/// The operands of a parsed chain, in order.
pub open spec fn chain_parts<R: ParsableRecursive<R>>(inner: RecursiveWrapperInner<R>) -> Seq<RecursiveWrapperInnerPart<R>> {
    seq![inner.first] + inner.rest@.map_values(|pair: (R::Infix, RecursiveWrapperInnerPart<R>)| pair.1)
}

/// A parsed chain: the first operand, then each infix with the operand after it
pub struct RecursiveWrapperInner<R: ParsableRecursive<R>> {
    pub first: RecursiveWrapperInnerPart<R>,
    pub rest: Vec<(R::Infix, RecursiveWrapperInnerPart<R>)>,
}

/// Whether `s` was reached from `before`: the same input, at or after its
/// position.
pub open spec fn reached<'a>(before: Parser<'a>, s: Parser<'a>) -> bool {
    &&& s.spec_input() == before.spec_input()
    &&& before.pos() <= s.pos()
}

/// Whether peeking a `T` gave `r` from a parser at the position and over
/// the input of `before` (with more tags in effect), the parse ending at
/// the position of `after`.
pub open spec fn peeked_at<'a, T: Parse>(
    before: Parser<'a>,
    r: Result<Result<(T, PeekState), ParserError<T::Error>>, ParserError<T::Error>>,
    after: Parser<'a>,
) -> bool {
    exists|s: Parser<'a>, a: Parser<'a>| {
        &&& s.spec_input() == before.spec_input()
        &&& s.pos() == before.pos()
        &&& a.pos() == after.pos()
        &&& #[trigger] peeks::<T>(s, r, a)
    }
}

/// Whether a `T` failed with `e` at a point reached from `before`.
pub open spec fn fails_after<'a, T: Parse>(before: Parser<'a>, e: ParserError<T::Error>) -> bool {
    exists|s: Parser<'a>, a: Parser<'a>| reached(before, s) && #[trigger] parses_wrapped::<T>(s, Err(e), a)
}

/// Whether a `T` parsed without moving the parser at a point reached from
/// `before`.
pub open spec fn stalls_after<'a, T: Parse>(before: Parser<'a>) -> bool {
    exists|s: Parser<'a>, v: T, a: Parser<'a>| reached(before, s) && #[trigger] T::parses(s, Ok(v), a) && a.pos() == s.pos()
}

/// Whether the error `e` comes from what it names, at a point reached from
/// `before`: the failure of a part, the failures of both a prefix and a
/// base where an operand was expected, or a prefix, suffix or infix that
/// parsed without moving the parser.
pub open spec fn error_witnessed<'a, R: ParsableRecursive<R>>(before: Parser<'a>, e: RecursiveWrapperError<R>) -> bool {
    match e {
        RecursiveWrapperError::Prefix(x) => fails_after::<R::Prefix>(before, x),
        RecursiveWrapperError::Base(x) => fails_after::<R::Base>(before, x),
        RecursiveWrapperError::Suffix(x) => fails_after::<R::Suffix>(before, x),
        RecursiveWrapperError::Infix(x) => fails_after::<R::Infix>(before, x),
        RecursiveWrapperError::BracesOpen(x) => fails_after::<ParseBracesOpen>(before, x),
        RecursiveWrapperError::PrefixOrBase { prefix, base } => fails_after::<R::Prefix>(before, prefix)
            && fails_after::<R::Base>(before, base),
        RecursiveWrapperError::Stalled => stalls_after::<R::Prefix>(before) || stalls_after::<R::Suffix>(before)
            || stalls_after::<R::Infix>(before),
        _ => false,
    }
}

/// A witness reached from a later point is reached from an earlier one.
proof fn lemma_witness_earlier<'a, R: ParsableRecursive<R>>(before: Parser<'a>, mid: Parser<'a>, e: RecursiveWrapperError<R>)
    requires
        reached(before, mid),
        error_witnessed(mid, e),
    ensures
        error_witnessed(before, e),
{
    match e {
        RecursiveWrapperError::Prefix(x) => {
            let (s, a) = choose|s: Parser<'a>, a: Parser<'a>| reached(mid, s) && #[trigger] parses_wrapped::<R::Prefix>(s, Err(x), a);
            assert(reached(before, s));
        },
        RecursiveWrapperError::Base(x) => {
            let (s, a) = choose|s: Parser<'a>, a: Parser<'a>| reached(mid, s) && #[trigger] parses_wrapped::<R::Base>(s, Err(x), a);
            assert(reached(before, s));
        },
        RecursiveWrapperError::Suffix(x) => {
            let (s, a) = choose|s: Parser<'a>, a: Parser<'a>| reached(mid, s) && #[trigger] parses_wrapped::<R::Suffix>(s, Err(x), a);
            assert(reached(before, s));
        },
        RecursiveWrapperError::Infix(x) => {
            let (s, a) = choose|s: Parser<'a>, a: Parser<'a>| reached(mid, s) && #[trigger] parses_wrapped::<R::Infix>(s, Err(x), a);
            assert(reached(before, s));
        },
        RecursiveWrapperError::BracesOpen(x) => {
            let (s, a) = choose|s: Parser<'a>, a: Parser<'a>| reached(mid, s) && #[trigger] parses_wrapped::<ParseBracesOpen>(s, Err(x), a);
            assert(reached(before, s));
        },
        RecursiveWrapperError::PrefixOrBase { prefix, base } => {
            let (s, a) = choose|s: Parser<'a>, a: Parser<'a>| reached(mid, s) && #[trigger] parses_wrapped::<R::Prefix>(s, Err(prefix), a);
            assert(reached(before, s));
            let (s2, a2) = choose|s: Parser<'a>, a: Parser<'a>| reached(mid, s) && #[trigger] parses_wrapped::<R::Base>(s, Err(base), a);
            assert(reached(before, s2));
        },
        RecursiveWrapperError::Stalled => {
            if stalls_after::<R::Prefix>(mid) {
                let (s, v, a) = choose|s: Parser<'a>, v: R::Prefix, a: Parser<'a>| reached(mid, s) && #[trigger] R::Prefix::parses(s, Ok(v), a) && a.pos() == s.pos();
                assert(reached(before, s));
            } else if stalls_after::<R::Suffix>(mid) {
                let (s, v, a) = choose|s: Parser<'a>, v: R::Suffix, a: Parser<'a>| reached(mid, s) && #[trigger] R::Suffix::parses(s, Ok(v), a) && a.pos() == s.pos();
                assert(reached(before, s));
            } else {
                let (s, v, a) = choose|s: Parser<'a>, v: R::Infix, a: Parser<'a>| reached(mid, s) && #[trigger] R::Infix::parses(s, Ok(v), a) && a.pos() == s.pos();
                assert(reached(before, s));
            }
        },
        _ => {},
    }
}

/// Whether a `T` parsed into `v` from position `start` to position `end`,
/// over the input and tag stack of `ctx`, with `tags` pushed at `start`.
pub open spec fn piece_parsed<'a, T: Parse>(ctx: Parser<'a>, tags: Seq<ParserTag>, start: int, v: T, end: int) -> bool {
    exists|s: Parser<'a>, a: Parser<'a>| {
        &&& s.spec_input() == ctx.spec_input()
        &&& s.pos() == start
        &&& s.tag_stack() == ctx.tag_stack() + tags.map_values(|t: ParserTag| (s.pos(), t))
        &&& #[trigger] T::parses(s, Ok(v), a)
        &&& a.pos() == end
    }
}

/// What a parse step of the recursive parser reads against: the input, the
/// tag stack, and the tags it pushes at each position it parses from.
pub struct ParseScope {
    pub input: Seq<u8>,
    pub stack: Seq<(usize, ParserTag)>,
    pub tags: Seq<ParserTag>,
}

/// The scope of a parser that pushes `tags` at each position.
pub open spec fn scope_of(ctx: Parser<'_>, tags: Seq<ParserTag>) -> ParseScope {
    ParseScope { input: ctx.spec_input(), stack: ctx.tag_stack(), tags }
}

/// Whether `s` is at `start` in scope `sc`, with its tags pushed there.
pub open spec fn at_start(sc: ParseScope, start: int, s: Parser<'_>) -> bool {
    &&& s.spec_input() == sc.input
    &&& s.pos() == start
    &&& s.tag_stack() == pushed_at(sc.stack, s.pos(), sc.tags)
}

/// Whether a `T` can be read from `start` to `end` in scope `sc`.
pub open spec fn reads_to<T: Parse>(sc: ParseScope, start: int, end: int) -> bool {
    exists|s: Parser<'static>, v: T, a: Parser<'static>| at_start(sc, start, s) && #[trigger] T::parses(s, Ok(v), a) && a.pos() == end
}

/// Whether a `T` can be read from `start` in scope `sc`.
pub open spec fn reads<T: Parse>(sc: ParseScope, start: int) -> bool {
    exists|end: int| #[trigger] reads_to::<T>(sc, start, end)
}

/// Whether reading a `T` from `start` in scope `sc` can fail without the
/// failure being fatal.
pub open spec fn misses<T: Parse>(sc: ParseScope, start: int) -> bool {
    exists|s: Parser<'static>, x: T::Error, a: Parser<'static>| at_start(sc, start, s) && #[trigger] T::parses(s, Err(x), a) && !x.spec_is_fatal()
}

/// The rule for taking a prefix at `p`: no base is read there, or the base
/// read there is followed by another base.
pub open spec fn prefix_taken<R: ParsableRecursive<R>>(sc: ParseScope, p: int) -> bool {
    ||| misses::<R::Base>(sc, p)
    ||| exists|e: int| #[trigger] reads_to::<R::Base>(sc, p, e) && reads::<R::Base>(sc, e)
}

/// The rule for taking the base from `p` to `e`: no prefix is read at `p`,
/// or no base follows at `e`.
pub open spec fn base_taken<R: ParsableRecursive<R>>(sc: ParseScope, p: int, e: int) -> bool {
    misses::<R::Prefix>(sc, p) || misses::<R::Base>(sc, e)
}

/// Whether `sc` holds the tag that keeps a trailing block out of a range.
pub open spec fn skips_trailing_block(sc: ParseScope) -> bool {
    sc.tags.contains(ParserTag::SkipOptionalTrailingBlockExpression)
}

/// The rule for taking a suffix at `p`: no infix is read there, or the
/// infix read there is followed by an opening brace under
/// [`ParserTag::SkipOptionalTrailingBlockExpression`], or by neither a
/// prefix nor a base.
pub open spec fn suffix_taken<R: ParsableRecursive<R>>(sc: ParseScope, p: int) -> bool {
    ||| misses::<R::Infix>(sc, p)
    ||| exists|e: int| #[trigger] reads_to::<R::Infix>(sc, p, e) && {
        ||| skips_trailing_block(sc) && reads::<ParseBracesOpen>(sc, e)
        ||| misses::<R::Prefix>(sc, e) && misses::<R::Base>(sc, e)
    }
}

/// The rule for taking the infix from `p` to `e`: no suffix is read at `p`,
/// or no opening brace stops it and a prefix or a base follows at `e`.
pub open spec fn infix_taken<R: ParsableRecursive<R>>(sc: ParseScope, p: int, e: int) -> bool {
    ||| misses::<R::Suffix>(sc, p)
    ||| (skips_trailing_block(sc) ==> misses::<ParseBracesOpen>(sc, e))
        && (reads::<R::Prefix>(sc, e) || reads::<R::Base>(sc, e))
}

/// Whether prefixes are read one after another along `q`, each taken by
/// its rule.
pub open spec fn prefix_run<R: ParsableRecursive<R>>(sc: ParseScope, q: Seq<int>) -> bool {
    &&& q.len() >= 1
    &&& forall|i: int| 0 <= i < q.len() - 1 ==> #[trigger] reads_to::<R::Prefix>(sc, q[i], q[i + 1])
        && prefix_taken::<R>(sc, q[i])
}

/// Whether no operand can start at `p`: the prefixes taken from there are
/// followed by neither a prefix nor a base.
pub open spec fn operand_fails<R: ParsableRecursive<R>>(sc: ParseScope, p: int) -> bool {
    exists|q: Seq<int>| #[trigger] prefix_run::<R>(sc, q) && q[0] == p
        && misses::<R::Prefix>(sc, q.last()) && misses::<R::Base>(sc, q.last())
}

/// The rule for ending a chain at `p`: neither a suffix nor an infix is read
/// there, or the infix taken there is not followed by an operand, and is
/// dropped.
pub open spec fn chain_stops<R: ParsableRecursive<R>>(sc: ParseScope, p: int) -> bool {
    ||| misses::<R::Suffix>(sc, p) && misses::<R::Infix>(sc, p)
    ||| exists|e: int| #[trigger] reads_to::<R::Infix>(sc, p, e) && infix_taken::<R>(sc, p, e)
        && operand_fails::<R>(sc, e)
}

/// Whether an operand's split follows the rules: each prefix, the base and
/// each suffix was taken where its rule says.
pub open spec fn operand_chosen<R: ParsableRecursive<R>>(sc: ParseScope, part: RecursiveWrapperInnerPart<R>) -> bool {
    let b = part.bounds@;
    let np = part.prefixes@.len() as int;
    &&& forall|k: int| 0 <= k < np ==> #[trigger] prefix_taken::<R>(sc, b[k])
    &&& base_taken::<R>(sc, b[np], b[np + 1])
    &&& forall|j: int| 0 <= j < part.suffixes@.len() ==> #[trigger] suffix_taken::<R>(sc, b[np + 1 + j])
}

/// Whether a chain's split follows the rules: every operand's split does,
/// every infix was taken where its rule says, and the chain stops after its
/// last operand as the rule says.
pub open spec fn chain_chosen<R: ParsableRecursive<R>>(sc: ParseScope, inner: RecursiveWrapperInner<R>) -> bool {
    let parts = chain_parts(inner);
    &&& forall|k: int| 0 <= k < parts.len() ==> operand_chosen::<R>(sc, #[trigger] parts[k])
    &&& forall|k: int| 0 <= k < inner.rest@.len() ==> #[trigger] infix_taken::<R>(sc, part_end(parts[k]), part_start(parts[k + 1]))
    &&& chain_stops::<R>(sc, part_end(parts.last()))
}

/// Whether each prefix, the base and each suffix of an operand are what
/// their parsers give between the operand's bounds.
pub open spec fn operand_parsed<'a, R: ParsableRecursive<R>>(ctx: Parser<'a>, tags: Seq<ParserTag>, part: RecursiveWrapperInnerPart<R>) -> bool {
    let b = part.bounds@;
    let np = part.prefixes@.len() as int;
    &&& forall|k: int| 0 <= k < np ==> piece_parsed::<R::Prefix>(ctx, tags, b[k], #[trigger] part.prefixes@[k], b[k + 1])
    &&& piece_parsed::<R::Base>(ctx, tags, b[np], part.base, b[np + 1])
    &&& forall|j: int| 0 <= j < part.suffixes@.len() ==> piece_parsed::<R::Suffix>(ctx, tags, b[np + 1 + j], #[trigger] part.suffixes@[j], b[np + 2 + j])
}

/// Whether every operand and infix of a chain is what its parser gives:
/// each operand over its bounds, each infix from the end of the operand
/// before it to the start of the operand after it.
pub open spec fn chain_parsed<'a, R: ParsableRecursive<R>>(ctx: Parser<'a>, tags: Seq<ParserTag>, inner: RecursiveWrapperInner<R>) -> bool {
    let parts = chain_parts(inner);
    &&& forall|k: int| 0 <= k < parts.len() ==> operand_parsed(ctx, tags, #[trigger] parts[k])
    &&& forall|k: int| 0 <= k < inner.rest@.len() ==> piece_parsed::<R::Infix>(
        ctx,
        tags,
        part_end(parts[k]),
        #[trigger] inner.rest@[k].0,
        part_start(parts[k + 1]),
    )
}

/// Peeks `T` with `tags` in effect at the current position.
fn peek_with<'a, T: Parse>(parser: &mut Parser<'a>, tags: &Vec<ParserTag>) -> (r: Result<Result<(T, PeekState), ParserError<T::Error>>, ParserError<T::Error>>)
    requires
        old(parser).wf(),
    ensures
        parser_kept(*old(parser), *final(parser)),
        r is Ok ==> final(parser).pos() == old(parser).pos(),
        r matches Ok(Ok((_, state))) ==> old(parser).pos() <= state.pos() <= final(parser).spec_input().len(),
        r matches Ok(Err(e)) ==> !e.spec_is_fatal(),
        r matches Err(e) ==> e.spec_is_fatal(),
        peeked_at(*old(parser), r, *final(parser)),
        r matches Ok(Ok((v, state))) ==> piece_parsed(*old(parser), tags@, old(parser).pos() as int, v, state.pos() as int),
        r matches Ok(Ok((_, state))) ==> reads_to::<T>(scope_of(*old(parser), tags@), old(parser).pos() as int, state.pos() as int),
        r matches Ok(Err(_)) ==> misses::<T>(scope_of(*old(parser), tags@), old(parser).pos() as int),
{
    let ghost before = *parser;
    let len = parser.push_tags(tags.as_slice());
    let ghost s = *parser;
    let r = parser.peek::<T>();
    let ghost a = *parser;
    parser.restore_tags(len);
    proof {
        let pushed = tags@.map_values(|t: ParserTag| (before.pos(), t));
        assert((before.tag_stack() + pushed).take(len as int) =~= before.tag_stack());
        assert(peeks::<T>(s, r, a));
        if r is Ok && r->Ok_0 is Ok {
            let v = r->Ok_0->Ok_0.0;
            let state = r->Ok_0->Ok_0.1;
            let mid = choose|mid: Parser<'a>| #[trigger] T::parses(s, Ok(v), mid) && state.pos() == mid.pos();
            assert(s.tag_stack() == before.tag_stack() + tags@.map_values(|t: ParserTag| (s.pos(), t)));
            assert(piece_parsed(before, tags@, before.pos() as int, v, state.pos() as int));
            assert(at_start(scope_of(before, tags@), before.pos() as int, s));
            assert(reads_to::<T>(scope_of(before, tags@), before.pos() as int, state.pos() as int));
        }
        if r is Ok && r->Ok_0 is Err {
            let e = r->Ok_0->Err_0;
            let mid = choose|mid: Parser<'a>| #[trigger] T::parses(s, Err(*e.source), mid)
                && e.range == (crate::parser::AstRange { start: s.pos(), end: mid.pos() });
            assert(at_start(scope_of(before, tags@), before.pos() as int, s));
            assert(misses::<T>(scope_of(before, tags@), before.pos() as int));
        }
    }
    r
}


/// Whether a `T` parsed into `v` from position `at` to position `end`, at a
/// point reached from `before`.
pub open spec fn found_after<'a, T: Parse>(before: Parser<'a>, at: int, v: T, end: int) -> bool {
    exists|s: Parser<'a>, a: Parser<'a>| {
        &&& reached(before, s)
        &&& s.pos() == at
        &&& #[trigger] T::parses(s, Ok(v), a)
        &&& a.pos() == end
    }
}

/// A fatal failure of a peek is a failure reached from `before`.
proof fn lemma_peek_fail<'a, T: Parse>(before: Parser<'a>, cur: Parser<'a>, e: ParserError<T::Error>, after: Parser<'a>)
    requires
        reached(before, cur),
        peeked_at::<T>(cur, Err(e), after),
    ensures
        fails_after::<T>(before, e),
{
    let (s, a) = choose|s: Parser<'a>, a: Parser<'a>| {
        &&& s.spec_input() == cur.spec_input()
        &&& s.pos() == cur.pos()
        &&& a.pos() == after.pos()
        &&& #[trigger] peeks::<T>(s, Err(e), a)
    };
    assert(reached(before, s) && parses_wrapped::<T>(s, Err(e), a));
}

/// A non-fatal failure of a peek is a failure reached from `before`.
proof fn lemma_peek_miss<'a, T: Parse>(before: Parser<'a>, cur: Parser<'a>, e: ParserError<T::Error>, after: Parser<'a>)
    requires
        reached(before, cur),
        peeked_at::<T>(cur, Ok(Err(e)), after),
    ensures
        fails_after::<T>(before, e),
{
    let (s, a) = choose|s: Parser<'a>, a: Parser<'a>| {
        &&& s.spec_input() == cur.spec_input()
        &&& s.pos() == cur.pos()
        &&& a.pos() == after.pos()
        &&& #[trigger] peeks::<T>(s, Ok(Err(e)), a)
    };
    let mid = choose|mid: Parser<'a>| #[trigger] T::parses(s, Err(*e.source), mid)
        && e.range == (crate::parser::AstRange { start: s.pos(), end: mid.pos() });
    assert(reached(before, s) && parses_wrapped::<T>(s, Err(e), mid));
}

/// A value found by a peek was parsed at a point reached from `before`.
proof fn lemma_peek_found<'a, T: Parse>(before: Parser<'a>, cur: Parser<'a>, v: T, state: PeekState, after: Parser<'a>)
    requires
        reached(before, cur),
        peeked_at::<T>(cur, Ok(Ok((v, state))), after),
    ensures
        found_after::<T>(before, cur.pos() as int, v, state.pos() as int),
{
    let (s, a) = choose|s: Parser<'a>, a: Parser<'a>| {
        &&& s.spec_input() == cur.spec_input()
        &&& s.pos() == cur.pos()
        &&& a.pos() == after.pos()
        &&& #[trigger] peeks::<T>(s, Ok(Ok((v, state))), a)
    };
    let mid = choose|mid: Parser<'a>| #[trigger] T::parses(s, Ok(v), mid) && state.pos() == mid.pos();
    assert(reached(before, s));
}

/// A value found without moving is a stall.
proof fn lemma_found_stalls<'a, T: Parse>(before: Parser<'a>, at: int, v: T)
    requires
        found_after::<T>(before, at, v, at),
    ensures
        stalls_after::<T>(before),
{
    let (s, a) = choose|s: Parser<'a>, a: Parser<'a>| {
        &&& reached(before, s)
        &&& s.pos() == at
        &&& #[trigger] T::parses(s, Ok(v), a)
        &&& a.pos() == at
    };
}

/// Whether `tags` holds `tag`.
fn tags_contain(tags: &Vec<ParserTag>, tag: ParserTag) -> (r: bool)
    ensures
        r == tags@.contains(tag),
{
    let mut i: usize = 0;
    while i < tags.len()
        invariant
            i <= tags@.len(),
            forall|k: int| 0 <= k < i ==> tags@[k] != tag,
        decreases tags@.len() - i,
    {
        if tags[i] == tag {
            assert(tags@[i as int] == tag);
            return true;
        }
        i = i + 1;
    }
    false
}

/// Extending ascending bounds with a later position keeps them ascending,
/// and keeps each piece as it was.
proof fn lemma_extend_bounds(b: Seq<int>, p: int)
    requires
        b.len() > 0,
        ascending(b),
        b[b.len() - 1] <= p,
    ensures
        ascending(b.push(p)),
        forall|k: int| 0 <= k < b.len() - 1 ==> #[trigger] piece_nonempty(b.push(p), k) == piece_nonempty(b, k),
        piece_nonempty(b.push(p), b.len() - 1) == (b[b.len() - 1] < p),
{
    let c = b.push(p);
    assert forall|k: int, l: int| 0 <= k <= l < c.len() implies c[k] <= c[l] by {
        if l < b.len() {
            assert(c[k] == b[k] && c[l] == b[l]);
        } else if k < b.len() {
            assert(c[k] == b[k]);
            assert(b[k] <= b[b.len() - 1]);
        }
    }
    assert forall|k: int| 0 <= k < b.len() - 1 implies piece_nonempty(c, k) == piece_nonempty(b, k) by {
        assert(c[k] == b[k] && c[k + 1] == b[k + 1]);
    }
}

/// The bounds of an operand's prefixes and base, followed by those of its
/// suffixes, are the bounds of the operand.
proof fn lemma_join_bounds(ob: Seq<int>, sb: Seq<int>, np: int, ns: int)
    requires
        ob.len() == np + 2,
        sb.len() == ns + 1,
        0 <= np,
        0 <= ns,
        ascending(ob),
        ascending(sb),
        ob[ob.len() - 1] == sb[0],
        forall|k: int| 0 <= k < np ==> #[trigger] piece_nonempty(ob, k),
        forall|k: int| 0 <= k < ns ==> #[trigger] piece_nonempty(sb, k),
    ensures
        ({
            let b = ob + sb.skip(1);
            &&& b.len() == np + ns + 2
            &&& b[0] == ob[0]
            &&& b[b.len() - 1] == sb[sb.len() - 1]
            &&& ascending(b)
            &&& forall|k: int| 0 <= k < b.len() - 1 && k != np ==> #[trigger] piece_nonempty(b, k)
        }),
{
    let b = ob + sb.skip(1);
    assert forall|k: int| 0 <= k < b.len() implies b[k] == (if k < ob.len() { ob[k] } else { sb[k - ob.len() + 1] }) by {}
    if ns == 0 {
        assert(b[b.len() - 1] == ob[ob.len() - 1]);
    }
    assert forall|k: int, l: int| 0 <= k <= l < b.len() implies b[k] <= b[l] by {
        if l < ob.len() {
        } else if k >= ob.len() {
            assert(b[k] == sb[k - ob.len() + 1] && b[l] == sb[l - ob.len() + 1]);
        } else {
            assert(b[k] == ob[k]);
            assert(ob[k] <= ob[ob.len() - 1]);
            assert(b[l] == sb[l - ob.len() + 1]);
            assert(sb[0] <= sb[l - ob.len() + 1]);
        }
    }
    assert forall|k: int| 0 <= k < b.len() - 1 && k != np implies #[trigger] piece_nonempty(b, k) by {
        if k < np {
            assert(piece_nonempty(ob, k));
            assert(b[k] == ob[k] && b[k + 1] == ob[k + 1]);
        } else {
            let j = k - np - 1;
            assert(0 <= j < ns);
            assert(piece_nonempty(sb, j));
            assert(b[k] == sb[j] && b[k + 1] == sb[j + 1]);
        }
    }
}

/// A prefix run extended by one more prefix, read and taken by its rule, is
/// a prefix run.
proof fn lemma_prefix_run_push<R: ParsableRecursive<R>>(sc: ParseScope, q: Seq<int>, e: int)
    requires
        prefix_run::<R>(sc, q),
        reads_to::<R::Prefix>(sc, q.last(), e),
        prefix_taken::<R>(sc, q.last()),
    ensures
        prefix_run::<R>(sc, q.push(e)),
{
    let q2 = q.push(e);
    assert forall|i: int| 0 <= i < q2.len() - 1 implies #[trigger] reads_to::<R::Prefix>(sc, q2[i], q2[i + 1])
        && prefix_taken::<R>(sc, q2[i]) by {
        if i < q.len() - 1 {
            assert(q2[i] == q[i] && q2[i + 1] == q[i + 1]);
            assert(reads_to::<R::Prefix>(sc, q[i], q[i + 1]) && prefix_taken::<R>(sc, q[i]));
        } else {
            assert(q2[i] == q.last() && q2[i + 1] == e);
        }
    }
}

/// Each prefix of a run, followed by one more bound, is taken by its rule.
proof fn lemma_run_taken<R: ParsableRecursive<R>>(sc: ParseScope, q: Seq<int>, e: int)
    requires
        prefix_run::<R>(sc, q),
    ensures
        forall|k: int| 0 <= k < q.len() - 1 ==> #[trigger] prefix_taken::<R>(sc, q.push(e)[k]),
{
    assert forall|k: int| 0 <= k < q.len() - 1 implies #[trigger] prefix_taken::<R>(sc, q.push(e)[k]) by {
        assert(q.push(e)[k] == q[k]);
        assert(reads_to::<R::Prefix>(sc, q[k], q[k + 1]) && prefix_taken::<R>(sc, q[k]));
    }
}

/// The start of an operand: its prefixes and base, or the errors of
/// the prefix and the base that were both missing
pub enum OperandStart<R: ParsableRecursive<R>> {
    /// The prefixes and the base, with where the operand starts and where
    /// each of them ends
    Found(Vec<R::Prefix>, R::Base, Ghost<Seq<int>>),
    Missing(ParserError<<R::Prefix as Parse>::Error>, ParserError<<R::Base as Parse>::Error>),
}

/// Parses prefixes followed by a base.
///
/// Where both a prefix and a base match, the prefix is taken only if another
/// base follows the base.
fn parse_operand_start<'a, R: ParsableRecursive<R>>(parser: &mut Parser<'a>, tags: &Vec<ParserTag>) -> (r: Result<OperandStart<R>, RecursiveWrapperError<R>>)
    requires
        old(parser).wf(),
    ensures
        parser_kept(*old(parser), *final(parser)),
        r matches Ok(OperandStart::Missing(p, b)) ==> !p.spec_is_fatal() && !b.spec_is_fatal(),
        r matches Ok(OperandStart::Missing(p, b)) ==> fails_after::<R::Prefix>(*old(parser), p)
            && fails_after::<R::Base>(*old(parser), b),
        r matches Ok(OperandStart::Found(prefixes, _, bounds)) ==> {
            let b = bounds@;
            &&& b.len() == prefixes@.len() + 2
            &&& b[0] == old(parser).pos()
            &&& b[b.len() - 1] == final(parser).pos()
            &&& ascending(b)
            &&& forall|k: int| 0 <= k < prefixes@.len() ==> #[trigger] piece_nonempty(b, k)
        },
        r matches Ok(OperandStart::Found(prefixes, base, bounds)) ==> {
            let b = bounds@;
            let np = prefixes@.len() as int;
            &&& forall|k: int| 0 <= k < np ==> piece_parsed::<R::Prefix>(*old(parser), tags@, b[k], #[trigger] prefixes@[k], b[k + 1])
            &&& piece_parsed::<R::Base>(*old(parser), tags@, b[np], base, b[np + 1])
        },
        r matches Ok(OperandStart::Found(prefixes, _, bounds)) ==> {
            let b = bounds@;
            let np = prefixes@.len() as int;
            &&& forall|k: int| 0 <= k < np ==> #[trigger] prefix_taken::<R>(scope_of(*old(parser), tags@), b[k])
            &&& base_taken::<R>(scope_of(*old(parser), tags@), b[np], b[np + 1])
        },
        r matches Ok(OperandStart::Missing(_, _)) ==> operand_fails::<R>(scope_of(*old(parser), tags@), old(parser).pos() as int),
        r matches Err(e) ==> e is Stalled || ((e is Prefix || e is Base) && e.spec_is_fatal()),
        r matches Err(e) ==> error_witnessed(*old(parser), e),
{
    let ghost sc = scope_of(*old(parser), tags@);
    let mut prefixes: Vec<R::Prefix> = Vec::new();
    let ghost mut bounds: Seq<int> = seq![old(parser).pos() as int];
    loop
        invariant
            parser_kept(*old(parser), *parser),
            bounds.len() == prefixes@.len() + 1,
            bounds[0] == old(parser).pos(),
            bounds[bounds.len() - 1] == parser.pos(),
            ascending(bounds),
            forall|k: int| 0 <= k < prefixes@.len() ==> #[trigger] piece_nonempty(bounds, k),
            forall|k: int| 0 <= k < prefixes@.len() ==> piece_parsed::<R::Prefix>(*old(parser), tags@, bounds[k], #[trigger] prefixes@[k], bounds[k + 1]),
            sc == scope_of(*old(parser), tags@),
            prefix_run::<R>(sc, bounds),
        decreases parser.spec_input().len() - parser.pos(),
    {
        let start = parser.cur_pos();
        let ghost cur_p = *parser;
        let ghost old_bounds = bounds;
        let prefix = match peek_with::<R::Prefix>(parser, tags) {
            Ok(prefix) => prefix,
            Err(e) => {
                proof {
                    lemma_peek_fail::<R::Prefix>(*old(parser), cur_p, e, *parser);
                }
                return Err(RecursiveWrapperError::Prefix(e));
            },
        };
        let ghost after_p = *parser;
        let ghost cur_b = *parser;
        let base = match peek_with::<R::Base>(parser, tags) {
            Ok(base) => base,
            Err(e) => {
                proof {
                    lemma_peek_fail::<R::Base>(*old(parser), cur_b, e, *parser);
                }
                return Err(RecursiveWrapperError::Base(e));
            },
        };
        let ghost after_b = *parser;
        proof {
            assert(peeked_at::<R::Prefix>(cur_p, Ok(prefix), after_p));
            assert(peeked_at::<R::Base>(cur_b, Ok(base), after_b));
        }
        match (prefix, base) {
            (Ok((prefix, prefix_state)), Ok((base, base_state))) => {
                parser.set_peeked(base_state);
                let ghost cur_f = *parser;
                let next = match peek_with::<R::Base>(parser, tags) {
                    Ok(next) => next,
                    Err(e) => {
                        proof {
                            lemma_peek_fail::<R::Base>(*old(parser), cur_f, e, *parser);
                        }
                        return Err(RecursiveWrapperError::Base(e));
                    },
                };
                let base_follows = next.is_ok();
                if !base_follows {
                    proof {
                        lemma_extend_bounds(bounds, parser.pos() as int);
                        assert(misses::<R::Base>(sc, base_state.pos() as int));
                        lemma_run_taken::<R>(sc, bounds, parser.pos() as int);
                    }
                    return Ok(OperandStart::Found(prefixes, base, Ghost(bounds.push(parser.pos() as int))));
                }
                proof {
                    let st = next->Ok_0.1;
                    assert(reads_to::<R::Base>(sc, base_state.pos() as int, st.pos() as int));
                    assert(reads_to::<R::Base>(sc, start as int, base_state.pos() as int));
                    assert(prefix_taken::<R>(sc, start as int));
                }
                parser.set_peeked(prefix_state);
                if parser.cur_pos() == start {
                    proof {
                        lemma_peek_found::<R::Prefix>(*old(parser), cur_p, prefix, prefix_state, after_p);
                        lemma_found_stalls::<R::Prefix>(*old(parser), start as int, prefix);
                    }
                    return Err(RecursiveWrapperError::Stalled);
                }
                prefixes.push(prefix);
                proof {
                    lemma_extend_bounds(bounds, parser.pos() as int);
                    bounds = bounds.push(parser.pos() as int);
                    lemma_prefix_run_push::<R>(sc, old_bounds, parser.pos() as int);
                }
            },
            (Ok((prefix, prefix_state)), Err(_)) => {
                parser.set_peeked(prefix_state);
                if parser.cur_pos() == start {
                    proof {
                        lemma_peek_found::<R::Prefix>(*old(parser), cur_p, prefix, prefix_state, after_p);
                        lemma_found_stalls::<R::Prefix>(*old(parser), start as int, prefix);
                    }
                    return Err(RecursiveWrapperError::Stalled);
                }
                prefixes.push(prefix);
                proof {
                    assert(prefix_taken::<R>(sc, start as int));
                    lemma_extend_bounds(bounds, parser.pos() as int);
                    bounds = bounds.push(parser.pos() as int);
                    lemma_prefix_run_push::<R>(sc, old_bounds, parser.pos() as int);
                }
            },
            (Err(_), Ok((base, base_state))) => {
                parser.set_peeked(base_state);
                proof {
                    lemma_extend_bounds(bounds, parser.pos() as int);
                    assert(misses::<R::Prefix>(sc, start as int));
                    lemma_run_taken::<R>(sc, bounds, parser.pos() as int);
                }
                return Ok(OperandStart::Found(prefixes, base, Ghost(bounds.push(parser.pos() as int))));
            },
            (Err(prefix), Err(base)) => {
                proof {
                    lemma_peek_miss::<R::Prefix>(*old(parser), cur_p, prefix, after_p);
                    lemma_peek_miss::<R::Base>(*old(parser), cur_b, base, after_b);
                    assert(misses::<R::Prefix>(sc, bounds.last()));
                    assert(misses::<R::Base>(sc, bounds.last()));
                    assert(operand_fails::<R>(sc, old(parser).pos() as int));
                }
                return Ok(OperandStart::Missing(prefix, base));
            },
        }
    }
}

/// Parses suffixes followed by an optional infix, returning them with the
/// position before the infix.
///
/// Where both a suffix and an infix match, the infix is taken only if a
/// prefix or a base follows it (and, under
/// [`ParserTag::SkipOptionalTrailingBlockExpression`], no opening brace).
fn parse_suffixes_and_infix<'a, R: ParsableRecursive<R>>(parser: &mut Parser<'a>, tags: &Vec<ParserTag>) -> (r: Result<(Vec<R::Suffix>, Option<R::Infix>, usize, Ghost<Seq<int>>), RecursiveWrapperError<R>>)
    requires
        old(parser).wf(),
    ensures
        parser_kept(*old(parser), *final(parser)),
        r matches Ok((suffixes, infix, before_infix, bounds)) ==> {
            &&& old(parser).pos() <= before_infix <= final(parser).pos()
            &&& infix is None ==> before_infix == final(parser).pos()
            &&& bounds@.len() == suffixes@.len() + 1
            &&& bounds@[0] == old(parser).pos()
            &&& bounds@[bounds@.len() - 1] == before_infix
            &&& ascending(bounds@)
            &&& forall|k: int| 0 <= k < suffixes@.len() ==> #[trigger] piece_nonempty(bounds@, k)
        },
        r matches Ok((_, Some(infix), before_infix, _)) ==> found_after::<R::Infix>(
            *old(parser),
            before_infix as int,
            infix,
            final(parser).pos() as int,
        ),
        r matches Ok((_, Some(infix), before_infix, _)) ==> piece_parsed::<R::Infix>(
            *old(parser),
            tags@,
            before_infix as int,
            infix,
            final(parser).pos() as int,
        ),
        r matches Ok((suffixes, _, _, bounds)) ==> forall|j: int| 0 <= j < suffixes@.len() ==> piece_parsed::<R::Suffix>(
            *old(parser),
            tags@,
            bounds@[j],
            #[trigger] suffixes@[j],
            bounds@[j + 1],
        ),
        r matches Ok((suffixes, _, _, bounds)) ==> forall|j: int| 0 <= j < suffixes@.len() ==> #[trigger] suffix_taken::<R>(
            scope_of(*old(parser), tags@),
            bounds@[j],
        ),
        r matches Ok((_, Some(_), before_infix, _)) ==> infix_taken::<R>(
            scope_of(*old(parser), tags@),
            before_infix as int,
            final(parser).pos() as int,
        ) && reads_to::<R::Infix>(scope_of(*old(parser), tags@), before_infix as int, final(parser).pos() as int),
        r matches Ok((_, None, before_infix, _)) ==> misses::<R::Suffix>(scope_of(*old(parser), tags@), before_infix as int)
            && misses::<R::Infix>(scope_of(*old(parser), tags@), before_infix as int),
        r matches Err(e) ==> e is Stalled || ((e is Prefix || e is Base || e is Suffix || e is Infix || e is BracesOpen) && e.spec_is_fatal()),
        r matches Err(e) ==> error_witnessed(*old(parser), e),
{
    let ghost sc = scope_of(*old(parser), tags@);
    let skip_trailing_block = tags_contain(tags, ParserTag::SkipOptionalTrailingBlockExpression);
    let mut suffixes: Vec<R::Suffix> = Vec::new();
    let ghost mut bounds: Seq<int> = seq![old(parser).pos() as int];
    loop
        invariant
            parser_kept(*old(parser), *parser),
            bounds.len() == suffixes@.len() + 1,
            bounds[0] == old(parser).pos(),
            bounds[bounds.len() - 1] == parser.pos(),
            ascending(bounds),
            forall|k: int| 0 <= k < suffixes@.len() ==> #[trigger] piece_nonempty(bounds, k),
            forall|j: int| 0 <= j < suffixes@.len() ==> piece_parsed::<R::Suffix>(*old(parser), tags@, bounds[j], #[trigger] suffixes@[j], bounds[j + 1]),
            sc == scope_of(*old(parser), tags@),
            skip_trailing_block == skips_trailing_block(sc),
            forall|j: int| 0 <= j < suffixes@.len() ==> #[trigger] suffix_taken::<R>(sc, bounds[j]),
        decreases parser.spec_input().len() - parser.pos(),
    {
        let before_infix = parser.cur_pos();
        let ghost cur_s = *parser;
        let suffix = match peek_with::<R::Suffix>(parser, tags) {
            Ok(suffix) => suffix,
            Err(e) => {
                proof {
                    lemma_peek_fail::<R::Suffix>(*old(parser), cur_s, e, *parser);
                }
                return Err(RecursiveWrapperError::Suffix(e));
            },
        };
        let ghost after_s = *parser;
        let ghost cur_i = *parser;
        let infix = match peek_with::<R::Infix>(parser, tags) {
            Ok(infix) => infix,
            Err(e) => {
                proof {
                    lemma_peek_fail::<R::Infix>(*old(parser), cur_i, e, *parser);
                }
                return Err(RecursiveWrapperError::Infix(e));
            },
        };
        let ghost after_i = *parser;
        proof {
            assert(peeked_at::<R::Suffix>(cur_s, Ok(suffix), after_s));
            assert(peeked_at::<R::Infix>(cur_i, Ok(infix), after_i));
        }
        match (suffix, infix) {
            (Ok((suffix, suffix_state)), Ok((infix, infix_state))) => {
                parser.set_peeked(infix_state);
                let ghost e_pos = infix_state.pos() as int;
                let ghost cur_f = *parser;
                let braces_follow = if skip_trailing_block {
                    match peek_with::<ParseBracesOpen>(parser, tags) {
                        Ok(braces) => {
                            proof {
                                if braces is Ok {
                                    assert(reads_to::<ParseBracesOpen>(sc, e_pos, braces->Ok_0.1.pos() as int));
                                } else {
                                    assert(misses::<ParseBracesOpen>(sc, e_pos));
                                }
                            }
                            braces.is_ok()
                        },
                        Err(e) => {
                            proof {
                                lemma_peek_fail::<ParseBracesOpen>(*old(parser), cur_f, e, *parser);
                            }
                            return Err(RecursiveWrapperError::BracesOpen(e));
                        },
                    }
                } else {
                    false
                };
                if !braces_follow {
                    let ghost cur_pf = *parser;
                    let prefix_follows = match peek_with::<R::Prefix>(parser, tags) {
                        Ok(prefix) => {
                            proof {
                                if prefix is Ok {
                                    assert(reads_to::<R::Prefix>(sc, e_pos, prefix->Ok_0.1.pos() as int));
                                } else {
                                    assert(misses::<R::Prefix>(sc, e_pos));
                                }
                            }
                            prefix.is_ok()
                        },
                        Err(e) => {
                            proof {
                                lemma_peek_fail::<R::Prefix>(*old(parser), cur_pf, e, *parser);
                            }
                            return Err(RecursiveWrapperError::Prefix(e));
                        },
                    };
                    let ghost cur_bf = *parser;
                    let operand_follows = if prefix_follows {
                        true
                    } else {
                        match peek_with::<R::Base>(parser, tags) {
                            Ok(base) => {
                                proof {
                                    if base is Ok {
                                        assert(reads_to::<R::Base>(sc, e_pos, base->Ok_0.1.pos() as int));
                                    } else {
                                        assert(misses::<R::Base>(sc, e_pos));
                                    }
                                }
                                base.is_ok()
                            },
                            Err(e) => {
                                proof {
                                    lemma_peek_fail::<R::Base>(*old(parser), cur_bf, e, *parser);
                                }
                                return Err(RecursiveWrapperError::Base(e));
                            },
                        }
                    };
                    if operand_follows {
                        proof {
                            lemma_peek_found::<R::Infix>(*old(parser), cur_i, infix, infix_state, after_i);
                            assert(infix_taken::<R>(sc, before_infix as int, e_pos));
                        }
                        return Ok((suffixes, Some(infix), before_infix, Ghost(bounds)));
                    }
                }
                proof {
                    assert(reads_to::<R::Infix>(sc, before_infix as int, e_pos));
                    assert(suffix_taken::<R>(sc, before_infix as int));
                }
                parser.set_peeked(suffix_state);
                if parser.cur_pos() == before_infix {
                    proof {
                        lemma_peek_found::<R::Suffix>(*old(parser), cur_s, suffix, suffix_state, after_s);
                        lemma_found_stalls::<R::Suffix>(*old(parser), before_infix as int, suffix);
                    }
                    return Err(RecursiveWrapperError::Stalled);
                }
                suffixes.push(suffix);
                proof {
                    lemma_extend_bounds(bounds, parser.pos() as int);
                    bounds = bounds.push(parser.pos() as int);
                }
            },
            (Ok((suffix, suffix_state)), Err(_)) => {
                proof {
                    assert(misses::<R::Infix>(sc, before_infix as int));
                    assert(suffix_taken::<R>(sc, before_infix as int));
                }
                parser.set_peeked(suffix_state);
                if parser.cur_pos() == before_infix {
                    proof {
                        lemma_peek_found::<R::Suffix>(*old(parser), cur_s, suffix, suffix_state, after_s);
                        lemma_found_stalls::<R::Suffix>(*old(parser), before_infix as int, suffix);
                    }
                    return Err(RecursiveWrapperError::Stalled);
                }
                suffixes.push(suffix);
                proof {
                    lemma_extend_bounds(bounds, parser.pos() as int);
                    bounds = bounds.push(parser.pos() as int);
                }
            },
            (Err(_), Ok((infix, infix_state))) => {
                parser.set_peeked(infix_state);
                proof {
                    lemma_peek_found::<R::Infix>(*old(parser), cur_i, infix, infix_state, after_i);
                    assert(misses::<R::Suffix>(sc, before_infix as int));
                    assert(reads_to::<R::Infix>(sc, before_infix as int, infix_state.pos() as int));
                }
                return Ok((suffixes, Some(infix), before_infix, Ghost(bounds)));
            },
            (Err(_), Err(_)) => {
                proof {
                    assert(misses::<R::Suffix>(sc, before_infix as int));
                    assert(misses::<R::Infix>(sc, before_infix as int));
                }
                return Ok((suffixes, None, before_infix, Ghost(bounds)));
            },
        }
    }
}


/// The operands of a chain, in order: those paired with the infix after
/// them, then the last.
pub open spec fn chain_operands<P, I>(inners: Seq<(P, I)>, last: P) -> Seq<P> {
    inners.map_values(|pair: (P, I)| pair.0).push(last)
}

/// Regroups operands paired with the infix after them into the first operand
/// and the infixes paired with the operand after them.
pub fn regroup<P, I>(inners: Vec<(P, I)>, last: P) -> (r: (P, Vec<(I, P)>))
    ensures
        r.0 == chain_operands(inners@, last)[0],
        r.1@.len() == inners@.len(),
        forall|i: int| 0 <= i < inners@.len() ==> #[trigger] r.1@[i] == (inners@[i].1, chain_operands(inners@, last)[i + 1]),
{
    let ghost orig = inners@;
    let ghost ops = chain_operands(orig, last);
    let ghost n = orig.len();
    let mut inners = inners;
    let mut reversed: Vec<(I, P)> = Vec::new();
    let mut next = last;
    loop
        invariant
            inners@ == orig.take(inners@.len() as int),
            inners@.len() <= n,
            ops == chain_operands(orig, last),
            n == orig.len(),
            reversed@.len() == n - inners@.len(),
            next == ops[inners@.len() as int],
            forall|j: int| 0 <= j < reversed@.len() ==> #[trigger] reversed@[j] == (orig[n - 1 - j].1, ops[n - j]),
        ensures
            inners@.len() == 0,
            reversed@.len() == n,
            next == ops[0],
            forall|j: int| 0 <= j < reversed@.len() ==> #[trigger] reversed@[j] == (orig[n - 1 - j].1, ops[n - j]),
        decreases inners@.len(),
    {
        let ghost k: int = inners@.len() as int;
        match inners.pop() {
            Some((operand, infix)) => {
                proof {
                    assert(orig[k - 1] == (operand, infix));
                    assert(ops[k - 1] == operand);
                }
                reversed.push((infix, next));
                next = operand;
                proof {
                    assert(inners@ =~= orig.take(k - 1));
                }
            },
            None => break,
        }
    }
    let mut rest: Vec<(I, P)> = Vec::new();
    loop
        invariant
            rest@.len() + reversed@.len() == n,
            forall|j: int| 0 <= j < reversed@.len() ==> #[trigger] reversed@[j] == (orig[n - 1 - j].1, ops[n - j]),
            forall|k: int| 0 <= k < rest@.len() ==> #[trigger] rest@[k] == (orig[k].1, ops[k + 1]),
        ensures
            rest@.len() == n,
            forall|k: int| 0 <= k < rest@.len() ==> #[trigger] rest@[k] == (orig[k].1, ops[k + 1]),
        decreases reversed@.len(),
    {
        let ghost j = reversed@.len() - 1;
        match reversed.pop() {
            Some(pair) => {
                proof {
                    assert(pair == (orig[n - 1 - j].1, ops[n - j]));
                }
                rest.push(pair);
            },
            None => break,
        }
    }
    (next, rest)
}

/// The root that the prefixes, outermost first, make around `root`.
pub open spec fn apply_prefixes<R: ParsableRecursive<R>>(prefixes: Seq<R::Prefix>, root: R) -> R
    decreases prefixes.len(),
{
    if prefixes.len() == 0 {
        root
    } else {
        R::spec_join_prefix(prefixes[0], apply_prefixes(prefixes.drop_first(), root))
    }
}

/// The root that the suffixes, innermost first, make around `root`.
pub open spec fn apply_suffixes<R: ParsableRecursive<R>>(root: R, suffixes: Seq<R::Suffix>) -> R
    decreases suffixes.len(),
{
    if suffixes.len() == 0 {
        root
    } else {
        R::spec_join_suffix(apply_suffixes(root, suffixes.drop_last()), suffixes.last())
    }
}

/// The root an operand makes: its base, inside its prefixes, inside its
/// suffixes.
pub open spec fn spec_operand_root<R: ParsableRecursive<R>>(operand: RecursiveWrapperInnerPart<R>) -> R {
    apply_suffixes(apply_prefixes(operand.prefixes@, R::spec_from_base(operand.base)), operand.suffixes@)
}

/// The root a chain makes, joined from the left.
pub open spec fn apply_infixes<R: ParsableRecursive<R>>(first: R, rest: Seq<(R::Infix, RecursiveWrapperInnerPart<R>)>) -> R
    decreases rest.len(),
{
    if rest.len() == 0 {
        first
    } else {
        R::spec_join_infix(apply_infixes(first, rest.drop_last()), rest.last().0, spec_operand_root(rest.last().1))
    }
}

/// The root a parsed chain makes.
pub open spec fn spec_chain_root<R: ParsableRecursive<R>>(inner: RecursiveWrapperInner<R>) -> R {
    apply_infixes(spec_operand_root(inner.first), inner.rest@)
}

/// Builds the root of an operand.
pub fn operand_root<R: ParsableRecursive<R>>(operand: RecursiveWrapperInnerPart<R>, parser: &mut Parser<'_>) -> (r: R)
    requires
        old(parser).wf(),
    ensures
        parser_kept(*old(parser), *final(parser)),
        r == spec_operand_root(operand),
{
    let ghost orig = operand;
    let RecursiveWrapperInnerPart { prefixes, base, suffixes, bounds: _ } = operand;
    let ghost base_root = R::spec_from_base(base);
    let mut root = R::from_base(base, parser);
    let mut prefixes = prefixes;
    loop
        invariant
            parser_kept(*old(parser), *parser),
            prefixes@ == orig.prefixes@.take(prefixes@.len() as int),
            prefixes@.len() <= orig.prefixes@.len(),
            root == apply_prefixes(orig.prefixes@.skip(prefixes@.len() as int), base_root),
        ensures
            parser_kept(*old(parser), *parser),
            root == apply_prefixes(orig.prefixes@, base_root),
        decreases prefixes@.len(),
    {
        let ghost k: int = prefixes@.len() as int;
        match prefixes.pop() {
            Some(prefix) => {
                proof {
                    assert(orig.prefixes@.skip(k - 1).drop_first() =~= orig.prefixes@.skip(k));
                    assert(orig.prefixes@.skip(k - 1)[0] == prefix);
                }
                root = R::join_prefix(prefix, root, parser);
                proof {
                    assert(prefixes@ =~= orig.prefixes@.take(k - 1));
                }
            },
            None => {
                proof {
                    assert(orig.prefixes@.skip(0) =~= orig.prefixes@);
                }
                break;
            },
        }
    }
    let ghost prefixed = root;
    let mut suffixes = suffixes;
    loop
        invariant
            parser_kept(*old(parser), *parser),
            suffixes@ == orig.suffixes@.skip(orig.suffixes@.len() - suffixes@.len()),
            suffixes@.len() <= orig.suffixes@.len(),
            root == apply_suffixes(prefixed, orig.suffixes@.take(orig.suffixes@.len() - suffixes@.len())),
        ensures
            parser_kept(*old(parser), *parser),
            root == apply_suffixes(prefixed, orig.suffixes@),
        decreases suffixes@.len(),
    {
        if suffixes.len() == 0 {
            proof {
                assert(orig.suffixes@.take(orig.suffixes@.len() as int) =~= orig.suffixes@);
            }
            break;
        }
        let ghost i = orig.suffixes@.len() - suffixes@.len();
        let suffix = suffixes.remove(0);
        proof {
            assert(orig.suffixes@.take(i + 1).drop_last() =~= orig.suffixes@.take(i));
            assert(orig.suffixes@.take(i + 1).last() == suffix);
            assert(suffixes@ =~= orig.suffixes@.skip(i + 1));
        }
        root = R::join_suffix(root, suffix, parser);
    }
    root
}

/// Builds the root of a parsed chain, joining operands from the left.
pub fn chain_root<R: ParsableRecursive<R>>(inner: RecursiveWrapperInner<R>, parser: &mut Parser<'_>) -> (r: R)
    requires
        old(parser).wf(),
    ensures
        parser_kept(*old(parser), *final(parser)),
        r == spec_chain_root(inner),
{
    let ghost orig = inner.rest@;
    let RecursiveWrapperInner { first, rest } = inner;
    let ghost first_root = spec_operand_root(first);
    let mut root = operand_root(first, parser);
    let mut rest = rest;
    loop
        invariant
            parser_kept(*old(parser), *parser),
            rest@ == orig.skip(orig.len() - rest@.len()),
            rest@.len() <= orig.len(),
            root == apply_infixes(first_root, orig.take(orig.len() - rest@.len())),
        ensures
            parser_kept(*old(parser), *parser),
            root == apply_infixes(first_root, orig),
        decreases rest@.len(),
    {
        if rest.len() == 0 {
            proof {
                assert(orig.take(orig.len() as int) =~= orig);
            }
            break;
        }
        let ghost i = orig.len() - rest@.len();
        let (infix, operand) = rest.remove(0);
        proof {
            assert(orig.take(i + 1).drop_last() =~= orig.take(i));
            assert(orig.take(i + 1).last() == (infix, operand));
            assert(rest@ =~= orig.skip(i + 1));
        }
        let rhs = operand_root(operand, parser);
        root = R::join_infix(root, infix, rhs, parser);
    }
    root
}


/// Whether an error of [`parse`] is one it can return: a missing first
/// operand (not fatal), a stall (not fatal), or a fatal error of one of the
/// parsed parts.
pub open spec fn chain_error<R: ParsableRecursive<R>>(e: RecursiveWrapperError<R>) -> bool {
    match e {
        RecursiveWrapperError::PrefixOrBase { prefix, base } => !prefix.spec_is_fatal() && !base.spec_is_fatal(),
        RecursiveWrapperError::Stalled => true,
        RecursiveWrapperError::Prefix(_) | RecursiveWrapperError::Base(_) | RecursiveWrapperError::Suffix(_)
        | RecursiveWrapperError::Infix(_) | RecursiveWrapperError::BracesOpen(_) => e.spec_is_fatal(),
        _ => false,
    }
}

/// The infix after operand `k` of `inners` runs from that operand's end to
/// where the next part starts: the next operand of `inners`, or `next`.
pub open spec fn infixes_parsed<'a, R: ParsableRecursive<R>>(
    ctx: Parser<'a>,
    tags: Seq<ParserTag>,
    inners: Seq<(RecursiveWrapperInnerPart<R>, R::Infix)>,
    next: int,
) -> bool {
    forall|k: int| 0 <= k < inners.len() ==> piece_parsed::<R::Infix>(
        ctx,
        tags,
        part_end(inners[k].0),
        #[trigger] inners[k].1,
        if k + 1 < inners.len() { part_start(inners[k + 1].0) } else { next },
    )
}

/// An operand joined from its prefixes and base, and then its suffixes,
/// has every piece parsed.
proof fn lemma_operand_parsed<'a, R: ParsableRecursive<R>>(
    ctx: Parser<'a>,
    c1: Parser<'a>,
    c2: Parser<'a>,
    tags: Seq<ParserTag>,
    part: RecursiveWrapperInnerPart<R>,
    ob: Seq<int>,
    sb: Seq<int>,
)
    requires
        c1.spec_input() == ctx.spec_input() && c1.tag_stack() == ctx.tag_stack(),
        c2.spec_input() == ctx.spec_input() && c2.tag_stack() == ctx.tag_stack(),
        ob.len() == part.prefixes@.len() + 2,
        sb.len() == part.suffixes@.len() + 1,
        sb[0] == ob[ob.len() - 1],
        part.bounds@ == ob + sb.skip(1),
        forall|k: int| 0 <= k < part.prefixes@.len() ==> piece_parsed::<R::Prefix>(c1, tags, ob[k], #[trigger] part.prefixes@[k], ob[k + 1]),
        piece_parsed::<R::Base>(c1, tags, ob[part.prefixes@.len() as int], part.base, ob[part.prefixes@.len() as int + 1]),
        forall|j: int| 0 <= j < part.suffixes@.len() ==> piece_parsed::<R::Suffix>(c2, tags, sb[j], #[trigger] part.suffixes@[j], sb[j + 1]),
    ensures
        operand_parsed(ctx, tags, part),
{
    let b = part.bounds@;
    let np = part.prefixes@.len() as int;
    assert forall|k: int| 0 <= k < np implies piece_parsed::<R::Prefix>(ctx, tags, b[k], #[trigger] part.prefixes@[k], b[k + 1]) by {
        assert(piece_parsed::<R::Prefix>(c1, tags, ob[k], part.prefixes@[k], ob[k + 1]));
        assert(b[k] == ob[k] && b[k + 1] == ob[k + 1]);
    }
    assert(b[np] == ob[np] && b[np + 1] == ob[np + 1]);
    assert forall|j: int| 0 <= j < part.suffixes@.len() implies piece_parsed::<R::Suffix>(ctx, tags, b[np + 1 + j], #[trigger] part.suffixes@[j], b[np + 2 + j]) by {
        assert(piece_parsed::<R::Suffix>(c2, tags, sb[j], part.suffixes@[j], sb[j + 1]));
        assert(b[np + 1 + j] == sb[j]);
        assert(b[np + 2 + j] == sb[j + 1]);
    }
}

/// A chain regrouped from parsed operands and infixes is parsed.
proof fn lemma_chain_parsed<'a, R: ParsableRecursive<R>>(
    ctx: Parser<'a>,
    tags: Seq<ParserTag>,
    inners: Seq<(RecursiveWrapperInnerPart<R>, R::Infix)>,
    last: RecursiveWrapperInnerPart<R>,
    inner: RecursiveWrapperInner<R>,
)
    requires
        forall|k: int| 0 <= k < inners.len() ==> operand_parsed(ctx, tags, #[trigger] inners[k].0),
        operand_parsed(ctx, tags, last),
        infixes_parsed(ctx, tags, inners, part_start(last)),
        inner.first == chain_operands(inners, last)[0],
        inner.rest@.len() == inners.len(),
        forall|i: int| 0 <= i < inners.len() ==> #[trigger] inner.rest@[i] == (inners[i].1, chain_operands(inners, last)[i + 1]),
    ensures
        chain_parsed(ctx, tags, inner),
{
    lemma_chain_parts_regroup(inners, last, inner);
    let parts = chain_parts(inner);
    let n = inners.len();
    assert forall|k: int| 0 <= k < parts.len() implies operand_parsed(ctx, tags, #[trigger] parts[k]) by {
        if k < n {
            assert(parts[k] == inners[k].0);
        } else {
            assert(parts[k] == last);
        }
    }
    assert forall|k: int| 0 <= k < inner.rest@.len() implies piece_parsed::<R::Infix>(
        ctx,
        tags,
        part_end(parts[k]),
        #[trigger] inner.rest@[k].0,
        part_start(parts[k + 1]),
    ) by {
        assert(inner.rest@[k] == (inners[k].1, chain_operands(inners, last)[k + 1]));
        assert(parts[k] == inners[k].0);
        if k + 1 < n {
            assert(parts[k + 1] == inners[k + 1].0);
        } else {
            assert(parts[k + 1] == last);
        }
        assert(piece_parsed::<R::Infix>(
            ctx,
            tags,
            part_end(inners[k].0),
            inners[k].1,
            if k + 1 < inners.len() { part_start(inners[k + 1].0) } else { part_start(last) },
        ));
    }
}

/// Each infix after operand `k` of `inners` was read and taken by its rule,
/// up to where the next part starts: the next operand of `inners`, or `next`.
pub open spec fn infixes_chosen<R: ParsableRecursive<R>>(
    sc: ParseScope,
    inners: Seq<(RecursiveWrapperInnerPart<R>, R::Infix)>,
    next: int,
) -> bool {
    forall|k: int| 0 <= k < inners.len() ==> #[trigger] infix_chosen_at::<R>(sc, part_end(inners[k].0), infix_end_of(inners, k, next))
}

/// Where the infix after operand `k` of `inners` ends: where the next
/// operand starts, or `next` after the last.
pub open spec fn infix_end_of<R: ParsableRecursive<R>>(inners: Seq<(RecursiveWrapperInnerPart<R>, R::Infix)>, k: int, next: int) -> int {
    if k + 1 < inners.len() { part_start(inners[k + 1].0) } else { next }
}

/// Whether an infix was read from `p` to `e` and taken there by its rule.
pub open spec fn infix_chosen_at<R: ParsableRecursive<R>>(sc: ParseScope, p: int, e: int) -> bool {
    reads_to::<R::Infix>(sc, p, e) && infix_taken::<R>(sc, p, e)
}

/// An operand joined from its prefixes and base, and then its suffixes,
/// follows the rules where each half does.
proof fn lemma_operand_chosen<R: ParsableRecursive<R>>(
    sc: ParseScope,
    part: RecursiveWrapperInnerPart<R>,
    ob: Seq<int>,
    sb: Seq<int>,
)
    requires
        ob.len() == part.prefixes@.len() + 2,
        sb.len() == part.suffixes@.len() + 1,
        sb[0] == ob[ob.len() - 1],
        part.bounds@ == ob + sb.skip(1),
        forall|k: int| 0 <= k < part.prefixes@.len() ==> #[trigger] prefix_taken::<R>(sc, ob[k]),
        base_taken::<R>(sc, ob[part.prefixes@.len() as int], ob[part.prefixes@.len() as int + 1]),
        forall|j: int| 0 <= j < part.suffixes@.len() ==> #[trigger] suffix_taken::<R>(sc, sb[j]),
    ensures
        operand_chosen::<R>(sc, part),
{
    let b = part.bounds@;
    let np = part.prefixes@.len() as int;
    assert forall|k: int| 0 <= k < np implies #[trigger] prefix_taken::<R>(sc, b[k]) by {
        assert(b[k] == ob[k]);
        assert(prefix_taken::<R>(sc, ob[k]));
    }
    assert(b[np] == ob[np] && b[np + 1] == ob[np + 1]);
    assert forall|j: int| 0 <= j < part.suffixes@.len() implies #[trigger] suffix_taken::<R>(sc, b[np + 1 + j]) by {
        assert(b[np + 1 + j] == sb[j]);
        assert(suffix_taken::<R>(sc, sb[j]));
    }
}

/// A chain regrouped from operands and infixes that follow the rules, and
/// that stops by its rule after the last operand, follows the rules.
proof fn lemma_chain_chosen<R: ParsableRecursive<R>>(
    sc: ParseScope,
    inners: Seq<(RecursiveWrapperInnerPart<R>, R::Infix)>,
    last: RecursiveWrapperInnerPart<R>,
    inner: RecursiveWrapperInner<R>,
)
    requires
        forall|k: int| 0 <= k < inners.len() ==> operand_chosen::<R>(sc, #[trigger] inners[k].0),
        operand_chosen::<R>(sc, last),
        infixes_chosen::<R>(sc, inners, part_start(last)),
        chain_stops::<R>(sc, part_end(last)),
        inner.first == chain_operands(inners, last)[0],
        inner.rest@.len() == inners.len(),
        forall|i: int| 0 <= i < inners.len() ==> #[trigger] inner.rest@[i] == (inners[i].1, chain_operands(inners, last)[i + 1]),
    ensures
        chain_chosen::<R>(sc, inner),
{
    lemma_chain_parts_regroup(inners, last, inner);
    let parts = chain_parts(inner);
    let n = inners.len();
    assert forall|k: int| 0 <= k < parts.len() implies operand_chosen::<R>(sc, #[trigger] parts[k]) by {
        if k < n {
            assert(parts[k] == inners[k].0);
        } else {
            assert(parts[k] == last);
        }
    }
    assert forall|k: int| 0 <= k < inner.rest@.len() implies #[trigger] infix_taken::<R>(sc, part_end(parts[k]), part_start(parts[k + 1])) by {
        assert(parts[k] == inners[k].0);
        if k + 1 < n {
            assert(parts[k + 1] == inners[k + 1].0);
        } else {
            assert(parts[k + 1] == last);
        }
        assert(infix_chosen_at::<R>(sc, part_end(inners[k].0), infix_end_of(inners, k, part_start(last))));
    }
    assert(parts.last() == last);
}

/// Parses a chain of operands joined by infixes.
///
/// The tags active when it starts are kept active for every part. When an
/// infix is not followed by an operand, the infix is dropped and the parser
/// goes back to before it. The operands returned lie one after another
/// from where parsing started to where it stopped, and the input is split
/// into prefixes, bases, suffixes and infixes by the rules of
/// [`chain_chosen`].
pub fn parse<'a, R: ParsableRecursive<R>>(parser: &mut Parser<'a>) -> (r: Result<RecursiveWrapperInner<R>, RecursiveWrapperError<R>>)
    requires
        old(parser).wf(),
    ensures
        parser_kept(*old(parser), *final(parser)),
        r matches Ok(inner) ==> chain_spans(chain_parts(inner), old(parser).pos() as int, final(parser).pos() as int),
        r matches Ok(inner) ==> chain_parsed(*old(parser), active_tags(old(parser).tag_stack(), old(parser).pos()), inner),
        r matches Ok(inner) ==> chain_chosen::<R>(scope_of(*old(parser), active_tags(old(parser).tag_stack(), old(parser).pos())), inner),
        r matches Err(e) ==> chain_error(e),
        r matches Err(e) ==> error_witnessed(*old(parser), e),
{
    let tags = parser.tags();
    let ghost sc = scope_of(*old(parser), tags@);
    let mut inners: Vec<(RecursiveWrapperInnerPart<R>, R::Infix)> = Vec::new();
    let mut last_pos_before_infix: Option<usize> = None;
    loop
        invariant
            parser_kept(*old(parser), *parser),
            inners@.len() == 0 ==> parser.pos() == old(parser).pos() && last_pos_before_infix is None,
            inners@.len() > 0 ==> {
                &&& chain_spans(operands(inners@), old(parser).pos() as int, part_end(operands(inners@).last()))
                &&& last_pos_before_infix matches Some(p) && p == part_end(operands(inners@).last())
                &&& part_end(operands(inners@).last()) <= parser.pos()
            },
            tags@ == active_tags(old(parser).tag_stack(), old(parser).pos()),
            forall|k: int| 0 <= k < inners@.len() ==> operand_parsed(*old(parser), tags@, #[trigger] inners@[k].0),
            infixes_parsed(*old(parser), tags@, inners@, parser.pos() as int),
            sc == scope_of(*old(parser), tags@),
            forall|k: int| 0 <= k < inners@.len() ==> operand_chosen::<R>(sc, #[trigger] inners@[k].0),
            infixes_chosen::<R>(sc, inners@, parser.pos() as int),
        decreases parser.spec_input().len() - parser.pos(),
    {
        let start = parser.cur_pos();
        let ghost cur = *parser;
        let operand_start = match parse_operand_start::<R>(parser, &tags) {
            Ok(operand_start) => operand_start,
            Err(e) => {
                proof {
                    lemma_witness_earlier(*old(parser), cur, e);
                }
                return Err(e);
            },
        };
        match operand_start {
            OperandStart::Found(prefixes, base, ob) => {
                let ghost cur2 = *parser;
                let (suffixes, infix, before_infix, sb) = match parse_suffixes_and_infix::<R>(parser, &tags) {
                    Ok(found) => found,
                    Err(e) => {
                        proof {
                            lemma_witness_earlier(*old(parser), cur2, e);
                        }
                        return Err(e);
                    },
                };
                proof {
                    lemma_join_bounds(ob@, sb@, prefixes@.len() as int, suffixes@.len() as int);
                }
                let operand = RecursiveWrapperInnerPart { prefixes, base, suffixes, bounds: Ghost(ob@ + sb@.skip(1)) };
                proof {
                    assert(operand_spans(operand, start as int, before_infix as int));
                    lemma_operand_parsed(*old(parser), cur, cur2, tags@, operand, ob@, sb@);
                    lemma_operand_chosen::<R>(sc, operand, ob@, sb@);
                }
                let ghost old_inners = inners@;
                match infix {
                    Some(infix) => {
                        if parser.cur_pos() == start {
                            proof {
                                lemma_found_stalls::<R::Infix>(cur2, before_infix as int, infix);
                                lemma_witness_earlier(*old(parser), cur2, RecursiveWrapperError::<R>::Stalled);
                            }
                            return Err(RecursiveWrapperError::Stalled);
                        }
                        let ghost gi = infix;
                        inners.push((operand, infix));
                        last_pos_before_infix = Some(before_infix);
                        proof {
                            lemma_chain_push(old_inners, operand, infix, old(parser).pos() as int, start as int);
                            assert(part_end(operand) == before_infix);
                            assert(part_start(operand) == start);
                            assert forall|k: int| 0 <= k < inners@.len() implies operand_parsed(*old(parser), tags@, #[trigger] inners@[k].0) by {
                                if k < old_inners.len() {
                                    assert(inners@[k] == old_inners[k]);
                                }
                            }
                            assert forall|k: int| 0 <= k < inners@.len() implies piece_parsed::<R::Infix>(
                                *old(parser),
                                tags@,
                                part_end(inners@[k].0),
                                #[trigger] inners@[k].1,
                                if k + 1 < inners@.len() { part_start(inners@[k + 1].0) } else { parser.pos() as int },
                            ) by {
                                if k < old_inners.len() {
                                    assert(inners@[k] == old_inners[k]);
                                    assert(piece_parsed::<R::Infix>(
                                        *old(parser),
                                        tags@,
                                        part_end(old_inners[k].0),
                                        old_inners[k].1,
                                        if k + 1 < old_inners.len() { part_start(old_inners[k + 1].0) } else { start as int },
                                    ));
                                    if k + 1 < old_inners.len() {
                                        assert(inners@[k + 1] == old_inners[k + 1]);
                                    }
                                } else {
                                    assert(inners@[k] == (operand, gi));
                                    assert(piece_parsed::<R::Infix>(cur2, tags@, before_infix as int, gi, parser.pos() as int));
                                }
                            }
                            assert(infixes_parsed(*old(parser), tags@, inners@, parser.pos() as int));
                            assert forall|k: int| 0 <= k < inners@.len() implies operand_chosen::<R>(sc, #[trigger] inners@[k].0) by {
                                if k < old_inners.len() {
                                    assert(inners@[k] == old_inners[k]);
                                }
                            }
                            assert forall|k: int| 0 <= k < inners@.len() implies #[trigger] infix_chosen_at::<R>(
                                sc,
                                part_end(inners@[k].0),
                                infix_end_of(inners@, k, parser.pos() as int),
                            ) by {
                                if k < old_inners.len() {
                                    assert(inners@[k] == old_inners[k]);
                                    assert(infix_chosen_at::<R>(sc, part_end(old_inners[k].0), infix_end_of(old_inners, k, start as int)));
                                    if k + 1 < old_inners.len() {
                                        assert(inners@[k + 1] == old_inners[k + 1]);
                                    }
                                } else {
                                    assert(inners@[k] == (operand, gi));
                                    assert(infix_chosen_at::<R>(sc, before_infix as int, parser.pos() as int));
                                }
                            }
                        }
                    },
                    None => {
                        proof {
                            lemma_chain_last(inners@, operand, old(parser).pos() as int, start as int);
                        }
                        let (first, rest) = regroup(inners, operand);
                        let inner = RecursiveWrapperInner { first, rest };
                        proof {
                            lemma_chain_parts_regroup(old_inners, operand, inner);
                            lemma_chain_parsed(*old(parser), tags@, old_inners, operand, inner);
                            assert(part_end(operand) == before_infix);
                            assert(chain_stops::<R>(sc, part_end(operand)));
                            lemma_chain_chosen::<R>(sc, old_inners, operand, inner);
                        }
                        return Ok(inner);
                    },
                }
            },
            OperandStart::Missing(prefix, base) => {
                let ghost old_inners = inners@;
                match (inners.pop(), last_pos_before_infix) {
                    (Some((operand, _infix)), Some(pos)) => {
                        proof {
                            lemma_chain_order(operands(old_inners), old(parser).pos() as int, part_end(operands(old_inners).last()), old_inners.len() - 1);
                        }
                        parser.set_pos(pos);
                        proof {
                            lemma_chain_pop(old_inners, old(parser).pos() as int);
                        }
                        let (first, rest) = regroup(inners, operand);
                        let inner = RecursiveWrapperInner { first, rest };
                        proof {
                            lemma_chain_parts_regroup(old_inners.drop_last(), operand, inner);
                            let kept = old_inners.drop_last();
                            let n = kept.len();
                            assert(old_inners[n as int].0 == operand);
                            assert forall|k: int| 0 <= k < kept.len() implies operand_parsed(*old(parser), tags@, #[trigger] kept[k].0) by {
                                assert(kept[k] == old_inners[k]);
                            }
                            assert(operand_parsed(*old(parser), tags@, old_inners[n as int].0));
                            assert forall|k: int| 0 <= k < kept.len() implies piece_parsed::<R::Infix>(
                                *old(parser),
                                tags@,
                                part_end(kept[k].0),
                                #[trigger] kept[k].1,
                                if k + 1 < kept.len() { part_start(kept[k + 1].0) } else { part_start(operand) },
                            ) by {
                                assert(kept[k] == old_inners[k]);
                                assert(piece_parsed::<R::Infix>(
                                    *old(parser),
                                    tags@,
                                    part_end(old_inners[k].0),
                                    old_inners[k].1,
                                    if k + 1 < old_inners.len() { part_start(old_inners[k + 1].0) } else { cur.pos() as int },
                                ));
                                if k + 1 < kept.len() {
                                    assert(kept[k + 1] == old_inners[k + 1]);
                                }
                            }
                            lemma_chain_parsed(*old(parser), tags@, kept, operand, inner);
                            assert forall|k: int| 0 <= k < kept.len() implies operand_chosen::<R>(sc, #[trigger] kept[k].0) by {
                                assert(kept[k] == old_inners[k]);
                            }
                            assert(operand_chosen::<R>(sc, old_inners[n as int].0));
                            assert forall|k: int| 0 <= k < kept.len() implies #[trigger] infix_chosen_at::<R>(
                                sc,
                                part_end(kept[k].0),
                                infix_end_of(kept, k, part_start(operand)),
                            ) by {
                                assert(kept[k] == old_inners[k]);
                                assert(infix_chosen_at::<R>(sc, part_end(old_inners[k].0), infix_end_of(old_inners, k, cur.pos() as int)));
                                if k + 1 < kept.len() {
                                    assert(kept[k + 1] == old_inners[k + 1]);
                                }
                            }
                            assert(infix_chosen_at::<R>(sc, part_end(old_inners[n as int].0), infix_end_of(old_inners, n as int, cur.pos() as int)));
                            assert(infix_chosen_at::<R>(sc, part_end(operand), cur.pos() as int));
                            assert(operand_fails::<R>(sc, cur.pos() as int));
                            assert(reads_to::<R::Infix>(sc, part_end(operand), cur.pos() as int));
                            assert(chain_stops::<R>(sc, part_end(operand)));
                            lemma_chain_chosen::<R>(sc, kept, operand, inner);
                        }
                        return Ok(inner);
                    },
                    _ => {
                        proof {
                            lemma_witness_earlier(*old(parser), cur, RecursiveWrapperError::<R>::PrefixOrBase { prefix, base });
                        }
                        return Err(RecursiveWrapperError::PrefixOrBase { prefix, base });
                    },
                }
            },
        }
    }
}

/// A chain ends no earlier than it starts.
proof fn lemma_chain_order<R: ParsableRecursive<R>>(ops: Seq<RecursiveWrapperInnerPart<R>>, start: int, end: int, n: int)
    requires
        chain_spans(ops, start, end),
        0 <= n < ops.len(),
    ensures
        start <= part_end(ops[n]),
    decreases n,
{
    reveal(chain_spans);
    let b = ops[n].bounds@;
    assert(operand_spans(ops[n], part_start(ops[n]), part_end(ops[n])));
    assert(b[0] <= b[b.len() - 1]);
    if n > 0 {
        lemma_chain_order(ops, start, end, n - 1);
        assert(part_end(ops[n - 1]) <= part_start(ops[n]));
    }
}

/// The operands of pairs.
pub open spec fn operands<R: ParsableRecursive<R>>(inners: Seq<(RecursiveWrapperInnerPart<R>, R::Infix)>) -> Seq<RecursiveWrapperInnerPart<R>> {
    inners.map_values(|pair: (RecursiveWrapperInnerPart<R>, R::Infix)| pair.0)
}

/// Adding an operand with its infix after a chain, or as the first, keeps
/// the chain's spans.
proof fn lemma_chain_push<R: ParsableRecursive<R>>(
    inners: Seq<(RecursiveWrapperInnerPart<R>, R::Infix)>,
    operand: RecursiveWrapperInnerPart<R>,
    infix: R::Infix,
    start: int,
    operand_start: int,
)
    requires
        operand_spans(operand, operand_start, part_end(operand)),
        inners.len() == 0 ==> operand_start == start,
        inners.len() > 0 ==> chain_spans(operands(inners), start, part_end(operands(inners).last()))
            && part_end(operands(inners).last()) <= operand_start,
    ensures
        chain_spans(operands(inners.push((operand, infix))), start, part_end(operand)),
{
    let ops = operands(inners);
    let ops2 = operands(inners.push((operand, infix)));
    assert(ops2 =~= ops.push(operand));
    lemma_chain_extend(ops, operand, start, operand_start);
}

/// Adding an operand at the end of a chain keeps its spans.
proof fn lemma_chain_extend<R: ParsableRecursive<R>>(
    ops: Seq<RecursiveWrapperInnerPart<R>>,
    operand: RecursiveWrapperInnerPart<R>,
    start: int,
    operand_start: int,
)
    requires
        operand_spans(operand, operand_start, part_end(operand)),
        ops.len() == 0 ==> operand_start == start,
        ops.len() > 0 ==> chain_spans(ops, start, part_end(ops.last())) && part_end(ops.last()) <= operand_start,
    ensures
        chain_spans(ops.push(operand), start, part_end(operand)),
{
    reveal(chain_spans);
    let c = ops.push(operand);
    assert(part_start(operand) == operand_start);
    assert forall|i: int| 0 <= i < c.len() implies operand_spans(#[trigger] c[i], part_start(c[i]), part_end(c[i])) by {
        if i < ops.len() {
            assert(c[i] == ops[i]);
        }
    }
    assert forall|i: int| 0 <= i < c.len() - 1 implies part_end(#[trigger] c[i]) <= part_start(c[i + 1]) by {
        if i < ops.len() - 1 {
            assert(c[i] == ops[i] && c[i + 1] == ops[i + 1]);
        } else {
            assert(c[i] == ops.last() && c[i + 1] == operand);
        }
    }
    if ops.len() > 0 {
        assert(c[0] == ops[0]);
    }
}

/// Ending a chain with a last operand keeps its spans.
proof fn lemma_chain_last<R: ParsableRecursive<R>>(
    inners: Seq<(RecursiveWrapperInnerPart<R>, R::Infix)>,
    operand: RecursiveWrapperInnerPart<R>,
    start: int,
    operand_start: int,
)
    requires
        operand_spans(operand, operand_start, part_end(operand)),
        inners.len() == 0 ==> operand_start == start,
        inners.len() > 0 ==> chain_spans(operands(inners), start, part_end(operands(inners).last()))
            && part_end(operands(inners).last()) <= operand_start,
    ensures
        chain_spans(chain_operands(inners, operand), start, part_end(operand)),
{
    assert(chain_operands(inners, operand) =~= operands(inners).push(operand));
    lemma_chain_extend(operands(inners), operand, start, operand_start);
}

/// Dropping the last operand with its infix from a chain ends the chain at
/// the operand before.
proof fn lemma_chain_pop<R: ParsableRecursive<R>>(inners: Seq<(RecursiveWrapperInnerPart<R>, R::Infix)>, start: int)
    requires
        inners.len() > 0,
        chain_spans(operands(inners), start, part_end(operands(inners).last())),
    ensures
        chain_spans(
            chain_operands(inners.drop_last(), inners.last().0),
            start,
            part_end(inners.last().0),
        ),
{
    reveal(chain_spans);
    assert(chain_operands(inners.drop_last(), inners.last().0) =~= operands(inners));
}

/// The operands of a regrouped chain are the chain's operands.
proof fn lemma_chain_parts_regroup<R: ParsableRecursive<R>>(
    inners: Seq<(RecursiveWrapperInnerPart<R>, R::Infix)>,
    last: RecursiveWrapperInnerPart<R>,
    inner: RecursiveWrapperInner<R>,
)
    requires
        inner.first == chain_operands(inners, last)[0],
        inner.rest@.len() == inners.len(),
        forall|i: int| 0 <= i < inners.len() ==> #[trigger] inner.rest@[i] == (inners[i].1, chain_operands(inners, last)[i + 1]),
    ensures
        chain_parts(inner) == chain_operands(inners, last),
{
    let ops = chain_operands(inners, last);
    let parts = chain_parts(inner);
    assert forall|i: int| 0 <= i < parts.len() implies parts[i] == ops[i] by {
        if i > 0 {
            assert(inner.rest@[i - 1] == (inners[i - 1].1, ops[i]));
        }
    }
    assert(parts =~= ops);
}

impl<T, R> RecursiveWrapper<T, R> where T: TryFromRecursiveRoot<R>, R: ParsableRecursive<R> {
    /// Builds the root of a parsed chain and converts it into `T`.
    pub fn from_inner(inner: RecursiveWrapperInner<R>, parser: &mut Parser<'_>) -> (r: Result<Self, RecursiveWrapperError<R>>)
        requires
            old(parser).wf(),
        ensures
            parser_kept(*old(parser), *final(parser)),
            match T::spec_try_from_recursive_root(spec_chain_root(inner)) {
                Some(value) => r matches Ok(w) && w.0 == value,
                None => r matches Err(RecursiveWrapperError::FromRoot),
            },
    {
        let root = chain_root(inner, parser);
        match T::try_from_recursive_root(root, parser) {
            Some(value) => Ok(RecursiveWrapper(value, PhantomData)),
            None => Err(RecursiveWrapperError::FromRoot),
        }
    }
}

/// Whether a chain was parsed from `before` to a position no later than
/// `after`'s, every prefix, base, suffix and infix of it being what its own
/// parser gives over its stretch of input with the tags of `before` active,
/// the input split by the rules of [`chain_chosen`], and the chain's root
/// converts to `value`, or fails to convert when
/// `value` is `None`.
pub open spec fn parsed_chain<'a, T: TryFromRecursiveRoot<R>, R: ParsableRecursive<R>>(before: Parser<'a>, value: Option<T>, after: Parser<'_>) -> bool {
    exists|inner: RecursiveWrapperInner<R>, end: int| {
        &&& before.pos() <= end <= after.pos()
        &&& #[trigger] chain_spans(chain_parts(inner), before.pos() as int, end)
        &&& chain_parsed(before, active_tags(before.tag_stack(), before.pos()), inner)
        &&& chain_chosen::<R>(scope_of(before, active_tags(before.tag_stack(), before.pos())), inner)
        &&& T::spec_try_from_recursive_root(spec_chain_root(inner)) == value
    }
}

impl<T, R> Parse for RecursiveWrapper<T, R> where T: TryFromRecursiveRoot<R>, R: ParsableRecursive<R> {
    type Error = RecursiveWrapperError<R>;

    /// A chain of operands is parsed and its root converted into `T`; an
    /// error comes from the part, or the conversion, it names.
    open spec fn parses(before: Parser<'_>, r: Result<RecursiveWrapper<T, R>, RecursiveWrapperError<R>>, after: Parser<'_>) -> bool {
        match r {
            Ok(w) => parsed_chain::<T, R>(before, Some(w.0), after),
            Err(RecursiveWrapperError::FromRoot) => parsed_chain::<T, R>(before, None, after),
            Err(e) => chain_error(e) && error_witnessed(before, e),
        }
    }

    fn parse_from(parser: &mut Parser<'_>) -> (r: Result<Self, Self::Error>)
        ensures
            r matches Err(e) ==> chain_error(e) || e is FromRoot,
    {
        let inner = match parse::<R>(parser) {
            Ok(inner) => inner,
            Err(e) => return Err(e),
        };
        let ghost mid = *parser;
        let ghost gi = inner;
        let r = Self::from_inner(inner, parser);
        proof {
            assert(chain_spans(chain_parts(gi), old(parser).pos() as int, mid.pos() as int));
        }
        r
    }
}

} // verus!
