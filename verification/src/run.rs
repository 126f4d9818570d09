//! The decisions of the `rustidy` command: which configuration file
//! applies, which file is formatted next, and when the run ends.
//!
//! The command reads and writes the files; each step here takes what it
//! read and says what to do next.
use vstd::prelude::*;
use crate::attr::{OuterAttrOrDocComment, bytes_eq};
use crate::mod_file::{
    ModuleFile, ModuleIdent, PathAttrError, find_path_attr, is_root_file, module_file, module_name,
    raw_prefix, root_file_names, spec_find_path_attr, spec_module_name,
};
use crate::text::has_at;

verus! {

/// Returns which of the directories, from the current one up to the root,
/// is the nearest holding a configuration file, given whether each holds
/// one.
pub fn nearest_config(found: &[bool]) -> (r: Option<usize>)
    ensures
        r matches Some(i) ==> i < found@.len() && found@[i as int] && forall|j: int| 0 <= j < i ==> !found@[j],
        r is None ==> forall|j: int| 0 <= j < found@.len() ==> !found@[j],
{
    let mut i: usize = 0;
    while i < found.len()
        invariant
            i <= found@.len(),
            forall|j: int| 0 <= j < i ==> !found@[j],
        decreases found@.len() - i,
    {
        if found[i] {
            return Some(i);
        }
        i = i + 1;
    }
    None
}

/// A `mod name;` declaration of a formatted file
pub struct ModuleDecl {
    /// Its outer attributes
    pub attrs: Vec<OuterAttrOrDocComment>,
    /// Its identifier
    pub ident: ModuleIdent,
    /// Whether `<name>/mod.rs` exists beside the declaring file
    pub mod_rs_exists: bool,
}

/// A file to format
pub enum FileJob {
    /// A file given on the command line
    Given(String),
    /// The file of a module declared in the file at `declaring`
    Module { declaring: String, file: ModuleFile },
}

/// What the command read and made of a formatted file
pub struct FormattedFile {
    /// The file's path
    pub path: String,
    /// The last component of the path
    pub file_name: Vec<u8>,
    /// The file's contents
    pub input: Vec<u8>,
    /// The formatted contents
    pub output: Vec<u8>,
    /// Its `mod name;` declarations, in order
    pub modules: Vec<ModuleDecl>,
}

/// The state of a run
pub struct RunState {
    /// The files still to format; the last is formatted next
    pub pending: Vec<FileJob>,
    /// Whether the run only checks formatting
    pub check: bool,
}

/// What the command does next
pub enum RunAction {
    /// Format standard input to standard output
    Stdin,
    /// Write the formatted file back if `write`, then format `job`
    Format { write: bool, job: FileJob },
    /// Write the formatted file back if `write`, then end successfully
    Done { write: bool },
    /// End with failure: the file was not formatted
    NotFormatted,
    /// End with failure: a `#[path = ...]` attribute is wrong
    BadPathAttr(PathAttrError),
}

/// Where a module's file is, as chosen from its `#[path = ...]` attribute
/// text, its name, whether `<name>/mod.rs` exists and whether the declaring
/// file is a root file.
pub open spec fn module_file_is(file: ModuleFile, path_attr: Option<Seq<char>>, name: Seq<u8>, mod_rs_exists: bool, is_root: bool) -> bool {
    match path_attr {
        Some(p) => file matches ModuleFile::PathAttr(q) && q@ == p,
        None => if mod_rs_exists {
            file matches ModuleFile::ModRs(n) && n@ == name
        } else if is_root {
            file matches ModuleFile::Sibling(n) && n@ == name
        } else {
            file matches ModuleFile::Nested(n) && n@ == name
        },
    }
}

/// Whether `job` formats the file of module `decl`, declared in the file at
/// `path` whose last component is `file_name`.
pub open spec fn module_job(decl: ModuleDecl, path: String, file_name: Seq<u8>, job: FileJob) -> bool {
    match spec_find_path_attr(decl.attrs@) {
        Ok(attr) => job matches FileJob::Module { declaring, file } && declaring == path && module_file_is(
            file,
            attr,
            spec_module_name(decl.ident),
            decl.mod_rs_exists,
            root_file_names().contains(file_name),
        ),
        Err(_) => false,
    }
}

/// The error of the first declaration whose `#[path = ...]` attribute is
/// wrong, if any.
pub open spec fn first_path_attr_error(decls: Seq<ModuleDecl>) -> Option<PathAttrError>
    decreases decls.len(),
{
    if decls.len() == 0 {
        None
    } else {
        match spec_find_path_attr(decls[0].attrs@) {
            Err(e) => Some(e),
            Ok(_) => first_path_attr_error(decls.drop_first()),
        }
    }
}

/// Whether a raw identifier starts with `r#`, where its name is needed.
pub open spec fn decl_ok(decl: ModuleDecl) -> bool {
    spec_find_path_attr(decl.attrs@) == Ok::<Option<Seq<char>>, PathAttrError>(None)
        ==> (decl.ident matches ModuleIdent::Raw(t) ==> has_at(t@, 0, raw_prefix()))
}

/// The files still queued after a step, with the one it formats next last.
pub open spec fn queued(state: RunState, action: RunAction) -> Seq<FileJob> {
    match action {
        RunAction::Format { job, .. } => state.pending@.push(job),
        _ => state.pending@,
    }
}

/// Starts a run: with no files, standard input is formatted; otherwise the
/// last file given is formatted first and the others wait.
pub fn start_run(files: Vec<String>, check: bool) -> (r: (RunState, RunAction))
    ensures
        r.0.check == check,
        files@.len() == 0 ==> r.1 is Stdin,
        files@.len() > 0 ==> {
            &&& r.1 matches RunAction::Format { write, job } && !write && job == FileJob::Given(files@.last())
            &&& r.0.pending@.len() == files@.len() - 1
            &&& forall|i: int| 0 <= i < files@.len() - 1 ==> #[trigger] r.0.pending@[i] == FileJob::Given(files@[i])
        },
{
    let ghost given = files@;
    let mut files = files;
    let mut reversed: Vec<String> = Vec::new();
    let last = match files.pop() {
        Some(last) => last,
        None => return (RunState { pending: Vec::new(), check }, RunAction::Stdin),
    };
    let ghost n = files@.len();
    while files.len() > 0
        invariant
            files@.len() + reversed@.len() == n,
            n == given.len() - 1,
            forall|k: int| 0 <= k < files@.len() ==> files@[k] == given[k],
            forall|k: int| 0 <= k < reversed@.len() ==> reversed@[k] == given[n - 1 - k],
        decreases files@.len(),
    {
        let f = files.pop().unwrap();
        reversed.push(f);
    }
    let mut pending: Vec<FileJob> = Vec::new();
    while reversed.len() > 0
        invariant
            pending@.len() + reversed@.len() == n,
            n == given.len() - 1,
            forall|k: int| 0 <= k < reversed@.len() ==> reversed@[k] == given[n - 1 - k],
            forall|k: int| 0 <= k < pending@.len() ==> #[trigger] pending@[k] == FileJob::Given(given[k]),
        decreases reversed@.len(),
    {
        let f = reversed.pop().unwrap();
        pending.push(FileJob::Given(f));
    }
    (RunState { pending, check }, RunAction::Format { write: false, job: FileJob::Given(last) })
}

/// Takes a formatted file and decides what happens next.
///
/// Its module declarations are resolved in order and queued after the
/// waiting files; a wrong `#[path = ...]` attribute ends the run with
/// failure. In check mode a file whose output differs from its input ends
/// the run with failure; otherwise the file is written back if it changed,
/// and the last queued file is formatted next, or the run ends.
pub fn run_step(state: RunState, formatted: FormattedFile) -> (r: (RunState, RunAction))
    requires
        forall|i: int| 0 <= i < formatted.modules@.len() ==> decl_ok(#[trigger] formatted.modules@[i]),
    ensures
        r.0.check == state.check,
        match first_path_attr_error(formatted.modules@) {
            Some(e) => r.1 == RunAction::BadPathAttr(e),
            None => if state.check && formatted.input@ != formatted.output@ {
                r.1 is NotFormatted
            } else {
                let write = !state.check && formatted.input@ != formatted.output@;
                let q = queued(r.0, r.1);
                let n0 = state.pending@.len() as int;
                &&& r.1 matches RunAction::Format { write: w, .. } ==> w == write
                &&& r.1 matches RunAction::Done { write: w } ==> w == write && q.len() == 0
                &&& (r.1 is Format || r.1 is Done)
                &&& q.len() == n0 + formatted.modules@.len()
                &&& forall|i: int| 0 <= i < n0 ==> #[trigger] q[i] == state.pending@[i]
                &&& forall|i: int| 0 <= i < formatted.modules@.len() ==> module_job(
                    #[trigger] formatted.modules@[i],
                    formatted.path,
                    formatted.file_name@,
                    q[n0 + i],
                )
            },
        },
{
    let check = state.check;
    let mut pending = state.pending;
    let ghost old_pending = pending@;
    let is_root = is_root_file(formatted.file_name.as_slice());
    let decls = &formatted.modules;
    let mut i: usize = 0;
    proof {
        assert(decls@.skip(0) =~= decls@);
    }
    while i < decls.len()
        invariant
            i <= decls@.len(),
            check == state.check,
            decls@ == formatted.modules@,
            is_root == root_file_names().contains(formatted.file_name@),
            forall|k: int| 0 <= k < decls@.len() ==> decl_ok(#[trigger] decls@[k]),
            first_path_attr_error(decls@) == first_path_attr_error(decls@.skip(i as int)),
            pending@.len() == old_pending.len() + i,
            forall|k: int| 0 <= k < old_pending.len() ==> #[trigger] pending@[k] == old_pending[k],
            forall|k: int| 0 <= k < i ==> module_job(
                #[trigger] decls@[k],
                formatted.path,
                formatted.file_name@,
                pending@[old_pending.len() + k],
            ),
        decreases decls@.len() - i,
    {
        proof {
            assert(decls@.skip(i as int)[0] == decls@[i as int]);
            assert(decls@.skip(i as int).drop_first() =~= decls@.skip(i + 1));
        }
        let decl = &decls[i];
        let path_attr = match find_path_attr(decl.attrs.as_slice()) {
            Ok(path_attr) => path_attr,
            Err(e) => {
                proof {
                    assert(first_path_attr_error(decls@) == Some(e));
                }
                return (RunState { pending, check }, RunAction::BadPathAttr(e));
            },
        };
        let ghost attr_text = spec_find_path_attr(decl.attrs@);
        let name = match &path_attr {
            Some(_) => Vec::new(),
            None => {
                proof {
                    assert(decl_ok(decls@[i as int]));
                }
                module_name(&decl.ident)
            },
        };
        let file = module_file(path_attr, name, decl.mod_rs_exists, is_root);
        let job = FileJob::Module { declaring: formatted.path.clone(), file };
        proof {
            assert(module_job(decls@[i as int], formatted.path, formatted.file_name@, job));
        }
        pending.push(job);
        i = i + 1;
    }
    proof {
        assert(decls@.skip(i as int).len() == 0);
    }
    let same = bytes_eq(formatted.input.as_slice(), formatted.output.as_slice());
    if check && !same {
        return (RunState { pending, check }, RunAction::NotFormatted);
    }
    let write = !check && !same;
    let ghost full = pending@;
    match pending.pop() {
        Some(job) => {
            proof {
                assert(pending@.push(job) =~= full);
            }
            (RunState { pending, check }, RunAction::Format { write, job })
        },
        None => (RunState { pending, check }, RunAction::Done { write }),
    }
}

} // verus!
