//! Where a module declared with `mod name;` lives, and what to do with a
//! formatted file.
use vstd::prelude::*;
use crate::attr::{AttrInput, OuterAttrOrDocComment, Attr, bytes_eq};
use crate::path::{path_pieces, segment_texts};
use crate::text::has_at;

verus! {

/// Error in a `#[path = ...]` attribute
pub enum PathAttrError {
    /// Malformed `#[path = ...]` attribute
    Malformed,
    /// Expected a literal expression in `#[path = ...]` attribute
    ExpectedLiteral,
}

/// The bytes of `path`.
pub open spec fn kw_path() -> Seq<u8> {
    seq![0x70u8, 0x61, 0x74, 0x68]
}

/// Whether an attribute's path is `path`.
pub open spec fn is_path_attr(attr: Attr) -> bool {
    attr.path.prefix == has_at(kw_path(), 0, seq![0x3au8, 0x3a])
        && segment_texts(attr.path.segments@) == path_pieces(kw_path())
}

/// What the first `#[path = ...]` attribute among `attrs` gives: the path's
/// text, an error, or nothing. Doc comments, other attributes and
/// attributes with a bracket or brace input are passed over.
pub open spec fn spec_find_path_attr(attrs: Seq<OuterAttrOrDocComment>) -> Result<Option<Seq<char>>, PathAttrError>
    decreases attrs.len(),
{
    if attrs.len() == 0 {
        Ok(None)
    } else {
        match attrs[0] {
            OuterAttrOrDocComment::Attr(attr) => if !is_path_attr(attr) || attr.input matches Some(AttrInput::Other) {
                spec_find_path_attr(attrs.drop_first())
            } else {
                match attr.input {
                    Some(AttrInput::EqStr(s)) => Ok(Some(s@)),
                    Some(AttrInput::EqExpr) => Err(PathAttrError::ExpectedLiteral),
                    _ => Err(PathAttrError::Malformed),
                }
            },
            OuterAttrOrDocComment::DocComment(_) => spec_find_path_attr(attrs.drop_first()),
        }
    }
}

/// Finds a `#[path = ...]` attribute
pub fn find_path_attr(attrs: &[OuterAttrOrDocComment]) -> (r: Result<Option<String>, PathAttrError>)
    ensures
        match spec_find_path_attr(attrs@) {
            Ok(Some(p)) => r matches Ok(Some(s)) && s@ == p,
            Ok(None) => r matches Ok(None),
            Err(PathAttrError::Malformed) => r matches Err(PathAttrError::Malformed),
            Err(PathAttrError::ExpectedLiteral) => r matches Err(PathAttrError::ExpectedLiteral),
        },
{
    let name = vec![0x70u8, 0x61, 0x74, 0x68];
    proof {
        assert(name@ =~= kw_path());
        assert(attrs@.skip(0) =~= attrs@);
    }
    let mut i: usize = 0;
    while i < attrs.len()
        invariant
            i <= attrs@.len(),
            name@ == kw_path(),
            spec_find_path_attr(attrs@) == spec_find_path_attr(attrs@.skip(i as int)),
        decreases attrs@.len() - i,
    {
        proof {
            assert(attrs@.skip(i as int)[0] == attrs@[i as int]);
            assert(attrs@.skip(i as int).drop_first() =~= attrs@.skip(i + 1));
        }
        match &attrs[i] {
            OuterAttrOrDocComment::Attr(attr) => {
                if attr.path.is_str(name.as_slice()) {
                    match &attr.input {
                        Some(AttrInput::EqStr(s)) => return Ok(Some(s.clone())),
                        Some(AttrInput::EqExpr) => return Err(PathAttrError::ExpectedLiteral),
                        Some(AttrInput::Other) => {},
                        _ => return Err(PathAttrError::Malformed),
                    }
                }
            },
            OuterAttrOrDocComment::DocComment(_) => {},
        }
        i = i + 1;
    }
    Ok(None)
}

/// A module's identifier
pub enum ModuleIdent {
    /// A raw identifier, `r#name`, by its whole text
    Raw(Vec<u8>),
    /// A non-keyword identifier, by its text
    NonKw(Vec<u8>),
}

/// The bytes of `r#`.
pub open spec fn raw_prefix() -> Seq<u8> {
    seq![0x72u8, 0x23]
}

/// The name a module's file is looked up by.
pub open spec fn spec_module_name(ident: ModuleIdent) -> Seq<u8> {
    match ident {
        ModuleIdent::Raw(text) => text@.skip(2),
        ModuleIdent::NonKw(text) => text@,
    }
}

/// Returns the name a module's file is looked up by: a raw identifier
/// without its `r#`.
pub fn module_name(ident: &ModuleIdent) -> (r: Vec<u8>)
    requires
        ident matches ModuleIdent::Raw(text) ==> has_at(text@, 0, raw_prefix()),
    ensures
        r@ == spec_module_name(*ident),
{
    match ident {
        ModuleIdent::Raw(text) => {
            let mut name: Vec<u8> = Vec::new();
            let mut i: usize = 2;
            while i < text.len()
                invariant
                    2 <= i <= text@.len(),
                    name@ == text@.subrange(2, i as int),
                decreases text@.len() - i,
            {
                name.push(text[i]);
                proof {
                    assert(name@ =~= text@.subrange(2, i + 1));
                }
                i = i + 1;
            }
            proof {
                assert(text@.subrange(2, text@.len() as int) =~= text@.skip(2));
            }
            name
        },
        ModuleIdent::NonKw(text) => text.clone(),
    }
}

/// The file names of a crate or module root: `lib.rs`, `main.rs` and
/// `mod.rs`.
pub open spec fn root_file_names() -> Seq<Seq<u8>> {
    seq![
        seq![0x6cu8, 0x69, 0x62, 0x2e, 0x72, 0x73],
        seq![0x6du8, 0x61, 0x69, 0x6e, 0x2e, 0x72, 0x73],
        seq![0x6du8, 0x6f, 0x64, 0x2e, 0x72, 0x73],
    ]
}

/// Returns whether a file, by its last path component, is a crate or module
/// root, whose submodules sit beside it.
pub fn is_root_file(file_name: &[u8]) -> (r: bool)
    ensures
        r == root_file_names().contains(file_name@),
{
    let lib = vec![0x6cu8, 0x69, 0x62, 0x2e, 0x72, 0x73];
    let main = vec![0x6du8, 0x61, 0x69, 0x6e, 0x2e, 0x72, 0x73];
    let mod_ = vec![0x6du8, 0x6f, 0x64, 0x2e, 0x72, 0x73];
    let r = bytes_eq(file_name, lib.as_slice()) || bytes_eq(file_name, main.as_slice())
        || bytes_eq(file_name, mod_.as_slice());
    proof {
        let names = root_file_names();
        assert(names[0] =~= lib@);
        assert(names[1] =~= main@);
        assert(names[2] =~= mod_@);
        if names.contains(file_name@) {
            let k = choose|k: int| 0 <= k < names.len() && names[k] == file_name@;
            assert(k == 0 || k == 1 || k == 2);
        }
        if r {
            if file_name@ == lib@ {
                assert(names[0] == file_name@);
            } else if file_name@ == main@ {
                assert(names[1] == file_name@);
            } else {
                assert(names[2] == file_name@);
            }
        }
    }
    r
}

/// Where a declared module's file is, relative to the declaring file
pub enum ModuleFile {
    /// `#[path = ...]`: this path, in the declaring file's directory
    PathAttr(String),
    /// `<name>/mod.rs`, in the declaring file's directory
    ModRs(Vec<u8>),
    /// `<name>.rs`, beside a root declaring file
    Sibling(Vec<u8>),
    /// `<name>.rs`, in the directory named as the declaring file without its
    /// extension
    Nested(Vec<u8>),
}

/// Chooses a declared module's file: the `#[path = ...]` attribute if there
/// is one, else `<name>/mod.rs` if it exists, else `<name>.rs` beside a root
/// file or under the declaring file's own directory.
pub fn module_file(path_attr: Option<String>, name: Vec<u8>, mod_rs_exists: bool, declaring_is_root: bool) -> (r: ModuleFile)
    ensures
        match path_attr {
            Some(p) => r matches ModuleFile::PathAttr(q) && q@ == p@,
            None => if mod_rs_exists {
                r matches ModuleFile::ModRs(n) && n@ == name@
            } else if declaring_is_root {
                r matches ModuleFile::Sibling(n) && n@ == name@
            } else {
                r matches ModuleFile::Nested(n) && n@ == name@
            },
        },
{
    match path_attr {
        Some(p) => ModuleFile::PathAttr(p),
        None => if mod_rs_exists {
            ModuleFile::ModRs(name)
        } else if declaring_is_root {
            ModuleFile::Sibling(name)
        } else {
            ModuleFile::Nested(name)
        },
    }
}

/// What to do with a formatted file
pub enum OutputAction {
    /// Nothing: the file was already formatted
    Keep,
    /// Write the output back to the file
    Write,
    /// Write the output to standard output
    Stdout,
}

/// Error when checking formatting
pub enum CheckError {
    /// File was not formatted
    NotFormatted,
}

/// Decides what to do with a formatted file: in check mode, fail unless the
/// output equals the input; otherwise write a file back only if it changed,
/// and always write standard input's output to standard output.
pub fn output_action(check: bool, to_file: bool, input: &[u8], output: &[u8]) -> (r: Result<OutputAction, CheckError>)
    ensures
        check ==> (if input@ == output@ { r matches Ok(OutputAction::Keep) } else { r matches Err(CheckError::NotFormatted) }),
        !check && to_file ==> (if input@ == output@ { r matches Ok(OutputAction::Keep) } else { r matches Ok(OutputAction::Write) }),
        !check && !to_file ==> r matches Ok(OutputAction::Stdout),
{
    if check {
        if bytes_eq(input, output) {
            Ok(OutputAction::Keep)
        } else {
            Err(CheckError::NotFormatted)
        }
    } else if to_file {
        if bytes_eq(input, output) {
            Ok(OutputAction::Keep)
        } else {
            Ok(OutputAction::Write)
        }
    } else {
        Ok(OutputAction::Stdout)
    }
}

} // verus!
