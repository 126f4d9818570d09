use rustidy::attr::{Attr, AttrInput, OuterAttrOrDocComment};
use rustidy::mod_file::{ModuleFile, ModuleIdent, PathAttrError};
use rustidy::path::{SimplePath, SimplePathSegment};
use rustidy::run::{nearest_config, run_step, start_run, FileJob, FormattedFile, ModuleDecl, RunAction, RunState};

fn decl(name: &str, attrs: Vec<OuterAttrOrDocComment>, mod_rs_exists: bool) -> ModuleDecl {
    ModuleDecl { attrs, ident: ModuleIdent::NonKw(name.as_bytes().to_vec()), mod_rs_exists }
}

fn path_attr(input: Option<AttrInput>) -> OuterAttrOrDocComment {
    OuterAttrOrDocComment::Attr(Attr {
        path: SimplePath { prefix: false, segments: vec![SimplePathSegment::Ident(b"path".to_vec())] },
        input,
    })
}

fn formatted(path: &str, input: &str, output: &str, modules: Vec<ModuleDecl>) -> FormattedFile {
    FormattedFile {
        path: String::from(path),
        file_name: path.rsplit('/').next().unwrap().as_bytes().to_vec(),
        input: input.as_bytes().to_vec(),
        output: output.as_bytes().to_vec(),
        modules,
    }
}

fn given(job: &FileJob) -> &str {
    match job {
        FileJob::Given(p) => p,
        _ => panic!("not a given file"),
    }
}

#[test]
fn nearest_configuration_file() {
    assert_eq!(nearest_config(&[false, false, true, true]), Some(2));
    assert_eq!(nearest_config(&[true]), Some(0));
    assert_eq!(nearest_config(&[false, false]), None);
    assert_eq!(nearest_config(&[]), None);
}

#[test]
fn a_run_starts_with_the_last_file() {
    let (state, action) = start_run(vec![String::from("a.rs"), String::from("b.rs")], false);
    match action {
        RunAction::Format { write, job } => {
            assert!(!write);
            assert_eq!(given(&job), "b.rs");
        },
        _ => panic!("expected a file to format"),
    }
    assert_eq!(state.pending.len(), 1);
    assert_eq!(given(&state.pending[0]), "a.rs");
    let (_, action) = start_run(vec![], true);
    assert!(matches!(action, RunAction::Stdin));
}

#[test]
fn modules_are_queued_and_formatted_next() {
    let state = RunState { pending: vec![FileJob::Given(String::from("other.rs"))], check: false };
    let modules = vec![decl("util", vec![], false), decl("net", vec![], true)];
    let (state, action) = run_step(state, formatted("src/lib.rs", "fn a(){}", "fn a() {}", modules));
    match action {
        RunAction::Format { write, job: FileJob::Module { declaring, file: ModuleFile::ModRs(name) } } => {
            assert!(write);
            assert_eq!(declaring, "src/lib.rs");
            assert_eq!(name, b"net");
        },
        _ => panic!("expected the last module next"),
    }
    assert_eq!(state.pending.len(), 2);
    assert_eq!(given(&state.pending[0]), "other.rs");
    assert!(matches!(&state.pending[1], FileJob::Module { file: ModuleFile::Sibling(n), .. } if n == b"util"));
}

#[test]
fn nested_modules_and_path_attributes() {
    let state = RunState { pending: vec![], check: false };
    let attr = path_attr(Some(AttrInput::EqStr(String::from("imp/x.rs"))));
    let modules = vec![decl("x", vec![attr], false), decl("y", vec![], false)];
    let (state, action) = run_step(state, formatted("src/util.rs", "", "", modules));
    assert!(matches!(action, RunAction::Format { write: false, job: FileJob::Module { file: ModuleFile::Nested(ref n), .. } } if n == b"y"));
    assert!(matches!(&state.pending[0], FileJob::Module { file: ModuleFile::PathAttr(p), .. } if p == "imp/x.rs"));
}

#[test]
fn a_run_ends_when_nothing_is_left() {
    let state = RunState { pending: vec![], check: false };
    let (_, action) = run_step(state, formatted("main.rs", "x", "x", vec![]));
    assert!(matches!(action, RunAction::Done { write: false }));
    let state = RunState { pending: vec![], check: false };
    let (_, action) = run_step(state, formatted("main.rs", "x", "y", vec![]));
    assert!(matches!(action, RunAction::Done { write: true }));
}

#[test]
fn check_mode_fails_on_an_unformatted_file() {
    let state = RunState { pending: vec![FileJob::Given(String::from("b.rs"))], check: true };
    let (_, action) = run_step(state, formatted("a.rs", "x", "y", vec![]));
    assert!(matches!(action, RunAction::NotFormatted));
    let state = RunState { pending: vec![FileJob::Given(String::from("b.rs"))], check: true };
    let (_, action) = run_step(state, formatted("a.rs", "x", "x", vec![]));
    assert!(matches!(action, RunAction::Format { write: false, .. }));
}

#[test]
fn wrong_path_attributes_end_the_run() {
    let state = RunState { pending: vec![], check: false };
    let modules = vec![decl("a", vec![], false), decl("b", vec![path_attr(Some(AttrInput::EqExpr))], false)];
    let (_, action) = run_step(state, formatted("lib.rs", "", "", modules));
    assert!(matches!(action, RunAction::BadPathAttr(PathAttrError::ExpectedLiteral)));
    let state = RunState { pending: vec![], check: false };
    let (_, action) = run_step(state, formatted("lib.rs", "", "", vec![decl("c", vec![path_attr(None)], false)]));
    assert!(matches!(action, RunAction::BadPathAttr(PathAttrError::Malformed)));
}
