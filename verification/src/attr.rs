//! Attributes, and the `#[rustidy::config(...)]` attribute that changes
//! the formatter's configuration.
use vstd::prelude::*;
use crate::ast_str::AstStr;
use crate::context::{Config, Context};
use crate::path::{SimplePath, path_pieces, segment_texts};
use crate::text::has_at;

verus! {

/// A token tree inside an attribute's input
pub enum TokenTree {
    /// An identifier or keyword, by its text
    Ident(Vec<u8>),
    /// `=`
    Eq,
    /// A string literal, by its contents
    StringLiteral(String),
    /// An integer literal, by its value
    IntegerLiteral(usize),
    /// Any other token or delimited group
    Other,
}

/// An attribute's input
pub enum AttrInput {
    /// `(...)`
    Parens(Vec<TokenTree>),
    /// `= "..."`, by the string literal's contents
    EqStr(String),
    /// `= expr`, with an expression other than a string literal
    EqExpr,
    /// Any other input (`[...]`, `{...}`)
    Other,
}

/// An attribute: `path` or `path(...)`
pub struct Attr {
    pub path: SimplePath,
    pub input: Option<AttrInput>,
}

/// An outer attribute or doc comment
pub enum OuterAttrOrDocComment {
    Attr(Attr),
    DocComment(AstStr),
}

/// An inner attribute or doc comment
pub enum InnerAttrOrDocComment {
    Attr(Attr),
    DocComment(AstStr),
}

/// An attribute or a doc comment
pub trait AttrOrDocComment {
    /// The attribute, if this is one.
    spec fn spec_attr(&self) -> Option<Attr>;

    /// Returns the attribute, if this is one
    fn try_as_attr_ref(&self) -> (r: Option<&Attr>)
        ensures
            match r {
                Some(a) => self.spec_attr() == Some(*a),
                None => self.spec_attr() is None,
            },
    ;
}

impl AttrOrDocComment for OuterAttrOrDocComment {
    open spec fn spec_attr(&self) -> Option<Attr> {
        match self {
            OuterAttrOrDocComment::Attr(a) => Some(*a),
            OuterAttrOrDocComment::DocComment(_) => None,
        }
    }

    fn try_as_attr_ref(&self) -> (r: Option<&Attr>) {
        match self {
            OuterAttrOrDocComment::Attr(a) => Some(a),
            OuterAttrOrDocComment::DocComment(_) => None,
        }
    }
}

impl AttrOrDocComment for InnerAttrOrDocComment {
    open spec fn spec_attr(&self) -> Option<Attr> {
        match self {
            InnerAttrOrDocComment::Attr(a) => Some(*a),
            InnerAttrOrDocComment::DocComment(_) => None,
        }
    }

    fn try_as_attr_ref(&self) -> (r: Option<&Attr>) {
        match self {
            InnerAttrOrDocComment::Attr(a) => Some(a),
            InnerAttrOrDocComment::DocComment(_) => None,
        }
    }
}

/// Error in a `#[rustidy::config(...)]` attribute
pub enum ConfigAttrError {
    /// Expected `rustidy::config([...])`
    ExpectedParens,
    /// Expected an identifier
    ExpectedIdentifier,
    /// Unknown configuration
    UnknownConfiguration(Vec<u8>),
    /// Expected `=`
    ExpectedEq,
    /// Expected a string literal
    ExpectedLiteral,
    /// Expected an integer literal
    ExpectedIntegerLiteral,
}

/// The bytes of `rustidy::config`.
pub open spec fn rustidy_config() -> Seq<u8> {
    seq![0x72u8, 0x75, 0x73, 0x74, 0x69, 0x64, 0x79, 0x3a, 0x3a, 0x63, 0x6f, 0x6e, 0x66, 0x69, 0x67]
}

/// The bytes of `indent`, the setting of the indentation string.
pub open spec fn indent_field() -> Seq<u8> {
    seq![0x69u8, 0x6e, 0x64, 0x65, 0x6e, 0x74]
}

/// The bytes of `max_array_expr_len`.
pub open spec fn max_array_expr_len_field() -> Seq<u8> {
    seq![0x6du8, 0x61, 0x78, 0x5f, 0x61, 0x72, 0x72, 0x61, 0x79, 0x5f, 0x65, 0x78, 0x70, 0x72, 0x5f, 0x6c, 0x65, 0x6e]
}

/// The bytes of `array_expr_cols`.
pub open spec fn array_expr_cols_field() -> Seq<u8> {
    seq![0x61u8, 0x72, 0x72, 0x61, 0x79, 0x5f, 0x65, 0x78, 0x70, 0x72, 0x5f, 0x63, 0x6f, 0x6c, 0x73]
}

/// Whether `name` is a setting an attribute may change.
pub open spec fn known_setting(name: Seq<u8>) -> bool {
    name == indent_field() || name == max_array_expr_len_field() || name == array_expr_cols_field()
}

/// Whether an attribute's path is `rustidy::config`.
pub open spec fn is_config_attr(attr: Attr) -> bool {
    attr.path.prefix == has_at(rustidy_config(), 0, seq![0x3au8, 0x3a])
        && segment_texts(attr.path.segments@) == path_pieces(rustidy_config())
}

/// The configuration `cfg` with setting `name` set from the literal `value`.
pub open spec fn with_setting(cfg: Config, name: Seq<u8>, value: TokenTree) -> Config {
    if name == indent_field() {
        Config { indent: value->StringLiteral_0, ..cfg }
    } else if name == max_array_expr_len_field() {
        Config { max_array_expr_len: value->IntegerLiteral_0, ..cfg }
    } else {
        Config { array_expr_cols: value->IntegerLiteral_0, ..cfg }
    }
}

/// Whether `value` is the literal setting `name` takes: a string for
/// `indent`, an integer for the others.
pub open spec fn literal_fits(name: Seq<u8>, value: TokenTree) -> bool {
    if name == indent_field() { value is StringLiteral } else { value is IntegerLiteral }
}

/// The error for a value that is not the literal setting `name` takes.
pub open spec fn literal_error(name: Seq<u8>) -> ConfigAttrError {
    if name == indent_field() { ConfigAttrError::ExpectedLiteral } else { ConfigAttrError::ExpectedIntegerLiteral }
}

/// The outcome of reading configuration settings from `tokens`, each
/// `name = literal`, starting from `cfg`: the configuration after the
/// settings read, and the error that stopped reading, if any.
pub open spec fn spec_config_settings(tokens: Seq<TokenTree>, cfg: Config) -> (Config, Option<ConfigAttrError>)
    decreases tokens.len(),
{
    if tokens.len() == 0 {
        (cfg, None)
    } else {
        match tokens[0] {
            TokenTree::Ident(name) => if !known_setting(name@) {
                (cfg, Some(ConfigAttrError::UnknownConfiguration(name)))
            } else if tokens.len() < 2 || !(tokens[1] is Eq) {
                (cfg, Some(ConfigAttrError::ExpectedEq))
            } else if tokens.len() < 3 || !literal_fits(name@, tokens[2]) {
                (cfg, Some(literal_error(name@)))
            } else {
                spec_config_settings(tokens.skip(3), with_setting(cfg, name@, tokens[2]))
            },
            _ => (cfg, Some(ConfigAttrError::ExpectedIdentifier)),
        }
    }
}

/// Whether two errors are the same, comparing names by their text.
pub open spec fn same_error(a: ConfigAttrError, b: ConfigAttrError) -> bool {
    match (a, b) {
        (ConfigAttrError::UnknownConfiguration(x), ConfigAttrError::UnknownConfiguration(y)) => x@ == y@,
        (ConfigAttrError::ExpectedParens, ConfigAttrError::ExpectedParens) => true,
        (ConfigAttrError::ExpectedIdentifier, ConfigAttrError::ExpectedIdentifier) => true,
        (ConfigAttrError::ExpectedEq, ConfigAttrError::ExpectedEq) => true,
        (ConfigAttrError::ExpectedLiteral, ConfigAttrError::ExpectedLiteral) => true,
        (ConfigAttrError::ExpectedIntegerLiteral, ConfigAttrError::ExpectedIntegerLiteral) => true,
        _ => false,
    }
}

/// Whether an attribute's input is in parentheses.
pub open spec fn has_parens(attr: Attr) -> bool {
    attr.input matches Some(AttrInput::Parens(_))
}

/// The tokens inside an attribute's parentheses.
pub open spec fn paren_tokens(attr: Attr) -> Seq<TokenTree> {
    match attr.input {
        Some(AttrInput::Parens(t)) => t@,
        _ => Seq::empty(),
    }
}

/// Updates the configuration based on an attribute.
///
/// Attributes other than `rustidy::config` change nothing. Settings are
/// applied in order until one is malformed.
pub fn update_config(attr: &Attr, ctx: &mut Context) -> (r: Result<(), ConfigAttrError>)
    ensures
        final(ctx).spec_input() == old(ctx).spec_input(),
        final(ctx).depth() == old(ctx).depth(),
        final(ctx).spec_tags() == old(ctx).spec_tags(),
        !is_config_attr(*attr) ==> r is Ok && *final(ctx).spec_config() == *old(ctx).spec_config(),
        is_config_attr(*attr) && !has_parens(*attr) ==> (r matches Err(ConfigAttrError::ExpectedParens))
            && *final(ctx).spec_config() == *old(ctx).spec_config(),
        is_config_attr(*attr) && has_parens(*attr) ==> {
            let (cfg, err) = spec_config_settings(paren_tokens(*attr), *old(ctx).spec_config());
            &&& *final(ctx).spec_config() == cfg
            &&& match err {
                None => r is Ok,
                Some(e) => r matches Err(x) && same_error(x, e),
            }
        },
{
    let path = vec![0x72u8, 0x75, 0x73, 0x74, 0x69, 0x64, 0x79, 0x3a, 0x3a, 0x63, 0x6f, 0x6e, 0x66, 0x69, 0x67];
    proof {
        assert(path@ =~= rustidy_config());
    }
    if !attr.path.is_str(path.as_slice()) {
        return Ok(());
    }
    let tokens = match &attr.input {
        Some(AttrInput::Parens(tokens)) => tokens,
        _ => return Err(ConfigAttrError::ExpectedParens),
    };
    let indent = vec![0x69u8, 0x6e, 0x64, 0x65, 0x6e, 0x74];
    let max_len = vec![0x6du8, 0x61, 0x78, 0x5f, 0x61, 0x72, 0x72, 0x61, 0x79, 0x5f, 0x65, 0x78, 0x70, 0x72, 0x5f, 0x6c, 0x65, 0x6e];
    let cols = vec![0x61u8, 0x72, 0x72, 0x61, 0x79, 0x5f, 0x65, 0x78, 0x70, 0x72, 0x5f, 0x63, 0x6f, 0x6c, 0x73];
    proof {
        assert(indent@ =~= indent_field());
        assert(max_len@ =~= max_array_expr_len_field());
        assert(cols@ =~= array_expr_cols_field());
    }
    let mut i: usize = 0;
    proof {
        assert(tokens@.skip(0) =~= tokens@);
    }
    while i < tokens.len()
        invariant
            i <= tokens@.len(),
            indent@ == indent_field(),
            max_len@ == max_array_expr_len_field(),
            cols@ == array_expr_cols_field(),
            is_config_attr(*attr),
            has_parens(*attr),
            tokens@ == paren_tokens(*attr),
            ctx.spec_input() == old(ctx).spec_input(),
            ctx.depth() == old(ctx).depth(),
            ctx.spec_tags() == old(ctx).spec_tags(),
            spec_config_settings(tokens@, *old(ctx).spec_config())
                == spec_config_settings(tokens@.skip(i as int), *ctx.spec_config()),
        decreases tokens@.len() - i,
    {
        proof {
            assert(tokens@.skip(i as int)[0] == tokens@[i as int]);
        }
        let name = match &tokens[i] {
            TokenTree::Ident(name) => name,
            _ => return Err(ConfigAttrError::ExpectedIdentifier),
        };
        let is_indent = bytes_eq(name.as_slice(), indent.as_slice());
        let is_max_len = bytes_eq(name.as_slice(), max_len.as_slice());
        let is_cols = bytes_eq(name.as_slice(), cols.as_slice());
        if !is_indent && !is_max_len && !is_cols {
            return Err(ConfigAttrError::UnknownConfiguration(name.clone()));
        }
        if tokens.len() - i < 2 {
            return Err(ConfigAttrError::ExpectedEq);
        }
        proof {
            assert(tokens@.skip(i as int)[1] == tokens@[i + 1]);
        }
        match &tokens[i + 1] {
            TokenTree::Eq => {},
            _ => return Err(ConfigAttrError::ExpectedEq),
        }
        let literal_error = if is_indent { ConfigAttrError::ExpectedLiteral } else { ConfigAttrError::ExpectedIntegerLiteral };
        if tokens.len() - i < 3 {
            return Err(literal_error);
        }
        proof {
            assert(tokens@.skip(i as int)[2] == tokens@[i + 2]);
        }
        let ghost before = *ctx.spec_config();
        match &tokens[i + 2] {
            TokenTree::StringLiteral(s) => {
                if !is_indent {
                    return Err(literal_error);
                }
                let config = ctx.config_mut();
                config.indent = s.clone();
            },
            TokenTree::IntegerLiteral(n) => {
                if is_indent {
                    return Err(literal_error);
                }
                let config = ctx.config_mut();
                if is_max_len {
                    config.max_array_expr_len = *n;
                } else {
                    config.array_expr_cols = *n;
                }
            },
            _ => return Err(literal_error),
        }
        proof {
            assert(*ctx.spec_config() == with_setting(before, name@, tokens@[i + 2]));
            assert(tokens@.skip(i as int).skip(3) =~= tokens@.skip(i + 3));
        }
        i = i + 3;
    }
    proof {
        assert(tokens@.skip(i as int).len() == 0);
    }
    Ok(())
}

/// The configuration after an attribute: the settings of a
/// `rustidy::config(...)` applied in order, up to the first malformed one.
pub open spec fn config_after_attr(attr: Attr, cfg: Config) -> Config {
    if is_config_attr(attr) && has_parens(attr) {
        spec_config_settings(paren_tokens(attr), cfg).0
    } else {
        cfg
    }
}

/// Whether an attribute is a malformed `rustidy::config(...)`.
pub open spec fn is_malformed_config(attr: Attr) -> bool {
    is_config_attr(attr) && (!has_parens(attr) || settings_fail(paren_tokens(attr)))
}

/// Whether reading settings from `tokens` stops at an error.
pub open spec fn settings_fail(tokens: Seq<TokenTree>) -> bool
    decreases tokens.len(),
{
    if tokens.len() == 0 {
        false
    } else {
        match tokens[0] {
            TokenTree::Ident(name) => if !known_setting(name@) || tokens.len() < 3 || !(tokens[1] is Eq)
                || !literal_fits(name@, tokens[2]) {
                true
            } else {
                settings_fail(tokens.skip(3))
            },
            _ => true,
        }
    }
}

/// The number of malformed `rustidy::config(...)` attributes.
pub open spec fn malformed_count<A: AttrOrDocComment>(attrs: Seq<A>) -> nat
    decreases attrs.len(),
{
    if attrs.len() == 0 {
        0
    } else {
        match attrs[0].spec_attr() {
            Some(attr) => (if is_malformed_config(attr) { 1nat } else { 0nat }) + malformed_count(attrs.drop_first()),
            None => malformed_count(attrs.drop_first()),
        }
    }
}

/// Whether reading settings fails does not depend on the configuration
/// read so far.
proof fn lemma_settings_error(tokens: Seq<TokenTree>, cfg: Config)
    ensures
        spec_config_settings(tokens, cfg).1 is Some <==> settings_fail(tokens),
    decreases tokens.len(),
{
    if tokens.len() > 0 {
        match tokens[0] {
            TokenTree::Ident(name) => {
                if known_setting(name@) && tokens.len() >= 3 && tokens[1] is Eq && literal_fits(name@, tokens[2]) {
                    lemma_settings_error(tokens.skip(3), with_setting(cfg, name@, tokens[2]));
                }
            },
            _ => {},
        }
    }
}

/// The configuration after every attribute, in order.
pub open spec fn config_after_attrs<A: AttrOrDocComment>(attrs: Seq<A>, cfg: Config) -> Config
    decreases attrs.len(),
{
    if attrs.len() == 0 {
        cfg
    } else {
        match attrs[0].spec_attr() {
            Some(attr) => config_after_attrs(attrs.drop_first(), config_after_attr(attr, cfg)),
            None => config_after_attrs(attrs.drop_first(), cfg),
        }
    }
}

/// Applies the `rustidy::config(...)` attributes among `attrs` to the
/// configuration, in order: those of a crate (inner attributes) or of an
/// item (outer attributes). A malformed attribute keeps the settings before
/// its error and does not stop the others; the number of malformed
/// attributes is returned.
pub fn apply_config_attrs<A: AttrOrDocComment>(attrs: &[A], ctx: &mut Context) -> (r: usize)
    ensures
        final(ctx).spec_input() == old(ctx).spec_input(),
        final(ctx).depth() == old(ctx).depth(),
        final(ctx).spec_tags() == old(ctx).spec_tags(),
        *final(ctx).spec_config() == config_after_attrs(attrs@, *old(ctx).spec_config()),
        r == malformed_count(attrs@),
{
    let mut malformed: usize = 0;
    let mut i: usize = 0;
    proof {
        assert(attrs@.skip(0) =~= attrs@);
    }
    while i < attrs.len()
        invariant
            i <= attrs@.len(),
            malformed <= i,
            malformed + malformed_count(attrs@.skip(i as int)) == malformed_count(attrs@),
            ctx.spec_input() == old(ctx).spec_input(),
            ctx.depth() == old(ctx).depth(),
            ctx.spec_tags() == old(ctx).spec_tags(),
            config_after_attrs(attrs@, *old(ctx).spec_config())
                == config_after_attrs(attrs@.skip(i as int), *ctx.spec_config()),
        decreases attrs@.len() - i,
    {
        proof {
            assert(attrs@.skip(i as int)[0] == attrs@[i as int]);
            assert(attrs@.skip(i as int).drop_first() =~= attrs@.skip(i + 1));
        }
        match attrs[i].try_as_attr_ref() {
            Some(attr) => {
                proof {
                    if has_parens(*attr) {
                        lemma_settings_error(paren_tokens(*attr), *ctx.spec_config());
                    }
                    assert(malformed_count(attrs@) >= malformed + (if is_malformed_config(*attr) { 1nat } else { 0nat }));
                }
                if update_config(attr, ctx).is_err() {
                    malformed = malformed + 1;
                }
            },
            None => {},
        }
        i = i + 1;
    }
    malformed
}

/// Returns whether two byte strings are equal
pub fn bytes_eq(a: &[u8], b: &[u8]) -> (r: bool)
    ensures
        r == (a@ == b@),
{
    if a.len() != b.len() {
        return false;
    }
    let mut i: usize = 0;
    while i < a.len()
        invariant
            a@.len() == b@.len(),
            i <= a@.len(),
            forall|k: int| 0 <= k < i ==> a@[k] == b@[k],
        decreases a@.len() - i,
    {
        if a[i] != b[i] {
            return false;
        }
        i = i + 1;
    }
    proof {
        assert(a@ =~= b@);
    }
    true
}

} // verus!
