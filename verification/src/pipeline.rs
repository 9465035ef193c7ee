use vstd::prelude::*;

use crate::ast::syn_parses;
use crate::emit::{
    generate_text, pair_models, route_pairs, spec_generated, spec_route_pairs, RoutePair,
};
use crate::extract::{
    decl_models, extract_file_routes, spec_file_routes, RouteDecl, RouteDeclModel,
};
use crate::group::{decl_order, group_decls, spec_groups, sort_decls};
use crate::manifest::{toml_package_name, toml_parses};
use crate::rules::{
    build_scan_rules, spec_classify, spec_effective_includes, spec_excludes_of, spec_patterns_ok,
    spec_stem, FileDecision,
};
use crate::text::str_eq;

verus! {

// ---------------------------------------------------------------------------
// The whole generation run over an already-read source tree: rule building,
// per-file classification, extraction, canonical ordering, grouping and
// emission. Reading the tree is the caller's business; every decision about
// what was read is made and verified here.
// ---------------------------------------------------------------------------

/// One candidate file of a project, as the walker found it.
pub struct FileInput {
    /// The path relative to the workspace root, `/`-separated; the scan
    /// rules are matched against it.
    pub rel_path: String,
    /// The path segments relative to the project's source root, the file
    /// name last; the module path is derived from them.
    pub src_segments: Vec<String>,
    /// The file's size in bytes.
    pub size: u64,
    /// The file's text, or nothing when reading it failed or was skipped.
    pub content: Option<String>,
}

#[verifier::ext_equal]
pub ghost struct FileInputModel {
    pub rel_path: Seq<char>,
    pub src_segments: Seq<Seq<char>>,
    pub size: u64,
    pub content: Option<Seq<char>>,
}

impl View for FileInput {
    type V = FileInputModel;

    open spec fn view(&self) -> FileInputModel {
        FileInputModel {
            rel_path: self.rel_path@,
            src_segments: self.src_segments.deep_view(),
            size: self.size,
            content: match self.content {
                Some(t) => Some(t@),
                None => None,
            },
        }
    }
}

/// One project to scan: the root or one workspace member.
pub struct ProjectInput {
    /// The module-path qualifier: the root marker for the invoking project,
    /// the package name for a member.
    pub qualifier: String,
    /// The candidate files under the project's source root.
    pub files: Vec<FileInput>,
}

#[verifier::ext_equal]
pub ghost struct ProjectInputModel {
    pub qualifier: Seq<char>,
    pub files: Seq<FileInputModel>,
}

impl View for ProjectInput {
    type V = ProjectInputModel;

    open spec fn view(&self) -> ProjectInputModel {
        ProjectInputModel {
            qualifier: self.qualifier@,
            files: self.files@.map_values(|f: FileInput| f@),
        }
    }
}

pub open spec fn project_models(ps: Seq<ProjectInput>) -> Seq<ProjectInputModel> {
    ps.map_values(|p: ProjectInput| p@)
}

/// A non-fatal condition found while scanning, reported alongside the
/// generated text.
pub enum ScanWarning {
    /// The file passed the rules but exceeds the size ceiling.
    TooLarge(String),
    /// The file's content could not be read.
    ReadFailed(String),
    /// The parser rejected the file; its declarations were dropped.
    ParseFailed(String),
}

#[verifier::ext_equal]
pub ghost enum ScanWarningModel {
    TooLarge(Seq<char>),
    ReadFailed(Seq<char>),
    ParseFailed(Seq<char>),
}

impl View for ScanWarning {
    type V = ScanWarningModel;

    open spec fn view(&self) -> ScanWarningModel {
        match self {
            ScanWarning::TooLarge(p) => ScanWarningModel::TooLarge(p@),
            ScanWarning::ReadFailed(p) => ScanWarningModel::ReadFailed(p@),
            ScanWarning::ParseFailed(p) => ScanWarningModel::ParseFailed(p@),
        }
    }
}

pub open spec fn warn_models(s: Seq<ScanWarning>) -> Seq<ScanWarningModel> {
    s.map_values(|w: ScanWarning| w@)
}

/// A fatal condition: the run produced no text.
#[derive(Debug)]
pub enum GenError {
    /// The invoking project's manifest is missing or does not parse.
    Manifest,
    /// A scan pattern is not a valid glob; it is carried here.
    Pattern(String),
    /// The designated entry file (or, in strict mode, any candidate)
    /// exceeds the size ceiling.
    FileTooLarge(String),
    /// The designated entry file (or, in strict mode, any candidate) could
    /// not be read.
    ReadFailed(String),
    /// The parser rejected the designated entry file (or, in strict mode,
    /// any candidate).
    ParseFailed(String),
}

/// Everything a successful run hands back.
pub struct GenOutput {
    /// The generated registration source text.
    pub text: String,
    /// One entry per discovered route: upper-case method and full path.
    pub routes: Vec<RoutePair>,
    /// The non-fatal conditions found while scanning.
    pub warnings: Vec<ScanWarning>,
}

// ---------------------------------------------------------------------------
// What each file contributes, in specification.
// ---------------------------------------------------------------------------

/// What handling one candidate came to.
#[verifier::ext_equal]
pub ghost enum FileOutcome {
    Skipped,
    TooLarge,
    Unreadable,
    Unparsable,
    Routes,
}

pub open spec fn file_name_of(f: FileInputModel) -> Seq<char> {
    if f.src_segments.len() == 0 {
        Seq::empty()
    } else {
        f.src_segments.last()
    }
}

pub open spec fn dirs_of(f: FileInputModel) -> Seq<Seq<char>> {
    if f.src_segments.len() == 0 {
        Seq::empty()
    } else {
        f.src_segments.drop_last()
    }
}

pub open spec fn spec_outcome(
    inc: Seq<Seq<char>>,
    exc: Seq<Seq<char>>,
    f: FileInputModel,
) -> FileOutcome {
    match spec_classify(inc, exc, f.rel_path, file_name_of(f), f.size) {
        FileDecision::Skip => FileOutcome::Skipped,
        FileDecision::TooLarge => FileOutcome::TooLarge,
        FileDecision::Scan => match f.content {
            None => FileOutcome::Unreadable,
            Some(t) => if syn_parses(t) {
                FileOutcome::Routes
            } else {
                FileOutcome::Unparsable
            },
        },
    }
}

/// The declarations one candidate contributes.
pub open spec fn spec_file_decls(
    inc: Seq<Seq<char>>,
    exc: Seq<Seq<char>>,
    q: Seq<char>,
    f: FileInputModel,
    double: bool,
) -> Seq<RouteDeclModel> {
    match f.content {
        Some(t) => if spec_outcome(inc, exc, f) == FileOutcome::Routes {
            spec_file_routes(t, q, dirs_of(f), spec_stem(file_name_of(f)), double)
        } else {
            Seq::empty()
        },
        None => Seq::empty(),
    }
}

pub open spec fn spec_files_decls(
    inc: Seq<Seq<char>>,
    exc: Seq<Seq<char>>,
    q: Seq<char>,
    fs: Seq<FileInputModel>,
    double: bool,
) -> Seq<RouteDeclModel>
    decreases fs.len(),
{
    if fs.len() == 0 {
        Seq::empty()
    } else {
        spec_file_decls(inc, exc, q, fs[0], double) + spec_files_decls(
            inc,
            exc,
            q,
            fs.drop_first(),
            double,
        )
    }
}

/// The warnings one candidate contributes in a run that ends well.
pub open spec fn spec_file_warns(
    inc: Seq<Seq<char>>,
    exc: Seq<Seq<char>>,
    f: FileInputModel,
) -> Seq<ScanWarningModel> {
    match spec_outcome(inc, exc, f) {
        FileOutcome::TooLarge => seq![ScanWarningModel::TooLarge(f.rel_path)],
        FileOutcome::Unreadable => seq![ScanWarningModel::ReadFailed(f.rel_path)],
        FileOutcome::Unparsable => seq![ScanWarningModel::ParseFailed(f.rel_path)],
        _ => Seq::empty(),
    }
}

pub open spec fn spec_files_warns(
    inc: Seq<Seq<char>>,
    exc: Seq<Seq<char>>,
    fs: Seq<FileInputModel>,
) -> Seq<ScanWarningModel>
    decreases fs.len(),
{
    if fs.len() == 0 {
        Seq::empty()
    } else {
        spec_file_warns(inc, exc, fs[0]) + spec_files_warns(inc, exc, fs.drop_first())
    }
}

/// Whether the project holds a top-level file of this name.
pub open spec fn spec_has_file(fs: Seq<FileInputModel>, name: Seq<char>) -> bool {
    exists|i: int| 0 <= i < fs.len() && (#[trigger] fs[i]).src_segments == seq![name]
}

/// Whether the project has an entry file at all; without one it is not
/// scanned.
pub open spec fn spec_scannable(fs: Seq<FileInputModel>) -> bool {
    spec_has_file(fs, "main.rs"@) || spec_has_file(fs, "lib.rs"@)
}

/// Whether this candidate is the project's designated entry file as far as
/// parsing is concerned: the bootstrap file itself is never parsed, so only
/// a `lib.rs` that stands in for it can fail fatally.
pub open spec fn spec_is_entry(f: FileInputModel, fs: Seq<FileInputModel>) -> bool {
    f.src_segments == seq!["lib.rs"@] && !spec_has_file(fs, "main.rs"@)
}

/// Whether handling this candidate ends the run.
pub open spec fn spec_file_fatal(
    inc: Seq<Seq<char>>,
    exc: Seq<Seq<char>>,
    f: FileInputModel,
    fs: Seq<FileInputModel>,
    strict: bool,
) -> bool {
    match spec_outcome(inc, exc, f) {
        FileOutcome::TooLarge => strict || spec_is_entry(f, fs),
        FileOutcome::Unreadable => strict || spec_is_entry(f, fs),
        FileOutcome::Unparsable => strict || spec_is_entry(f, fs),
        _ => false,
    }
}

pub open spec fn spec_project_fatal(
    inc: Seq<Seq<char>>,
    exc: Seq<Seq<char>>,
    p: ProjectInputModel,
    strict: bool,
) -> bool {
    spec_scannable(p.files) && exists|i: int|
        0 <= i < p.files.len() && spec_file_fatal(inc, exc, #[trigger] p.files[i], p.files, strict)
}

pub open spec fn spec_any_fatal(
    inc: Seq<Seq<char>>,
    exc: Seq<Seq<char>>,
    ps: Seq<ProjectInputModel>,
    strict: bool,
) -> bool {
    exists|i: int| 0 <= i < ps.len() && spec_project_fatal(inc, exc, #[trigger] ps[i], strict)
}

pub open spec fn spec_project_decls(
    inc: Seq<Seq<char>>,
    exc: Seq<Seq<char>>,
    p: ProjectInputModel,
    double: bool,
) -> Seq<RouteDeclModel> {
    if spec_scannable(p.files) {
        spec_files_decls(inc, exc, p.qualifier, p.files, double)
    } else {
        Seq::empty()
    }
}

pub open spec fn spec_all_decls(
    inc: Seq<Seq<char>>,
    exc: Seq<Seq<char>>,
    ps: Seq<ProjectInputModel>,
    double: bool,
) -> Seq<RouteDeclModel>
    decreases ps.len(),
{
    if ps.len() == 0 {
        Seq::empty()
    } else {
        spec_project_decls(inc, exc, ps[0], double) + spec_all_decls(
            inc,
            exc,
            ps.drop_first(),
            double,
        )
    }
}

pub open spec fn spec_project_warns(
    inc: Seq<Seq<char>>,
    exc: Seq<Seq<char>>,
    p: ProjectInputModel,
) -> Seq<ScanWarningModel> {
    if spec_scannable(p.files) {
        spec_files_warns(inc, exc, p.files)
    } else {
        Seq::empty()
    }
}

pub open spec fn spec_all_warns(
    inc: Seq<Seq<char>>,
    exc: Seq<Seq<char>>,
    ps: Seq<ProjectInputModel>,
) -> Seq<ScanWarningModel>
    decreases ps.len(),
{
    if ps.len() == 0 {
        Seq::empty()
    } else {
        spec_project_warns(inc, exc, ps[0]) + spec_all_warns(inc, exc, ps.drop_first())
    }
}

// push lemmas for the prefix invariants of the main loops

proof fn lemma_files_decls_push(
    inc: Seq<Seq<char>>,
    exc: Seq<Seq<char>>,
    q: Seq<char>,
    fs: Seq<FileInputModel>,
    f: FileInputModel,
    double: bool,
)
    ensures
        spec_files_decls(inc, exc, q, fs.push(f), double) == spec_files_decls(
            inc,
            exc,
            q,
            fs,
            double,
        ) + spec_file_decls(inc, exc, q, f, double),
    decreases fs.len(),
{
    if fs.len() == 0 {
        assert(fs.push(f)[0] == f);
        assert(fs.push(f).drop_first() =~= Seq::<FileInputModel>::empty());
        assert(spec_files_decls(inc, exc, q, fs.push(f), double) == spec_file_decls(
            inc,
            exc,
            q,
            f,
            double,
        ) + spec_files_decls(inc, exc, q, fs.push(f).drop_first(), double));
        assert(spec_files_decls(inc, exc, q, fs.push(f).drop_first(), double) =~= Seq::<
            RouteDeclModel,
        >::empty());
        assert(spec_files_decls(inc, exc, q, fs, double) =~= Seq::<RouteDeclModel>::empty());
        assert(spec_files_decls(inc, exc, q, fs.push(f), double) =~= spec_files_decls(
            inc,
            exc,
            q,
            fs,
            double,
        ) + spec_file_decls(inc, exc, q, f, double));
    } else {
        lemma_files_decls_push(inc, exc, q, fs.drop_first(), f, double);
        assert(fs.push(f).drop_first() =~= fs.drop_first().push(f));
        assert(fs.push(f)[0] == fs[0]);
        assert(spec_files_decls(inc, exc, q, fs.push(f), double) == spec_file_decls(
            inc,
            exc,
            q,
            fs[0],
            double,
        ) + spec_files_decls(inc, exc, q, fs.drop_first().push(f), double));
        assert(spec_files_decls(inc, exc, q, fs, double) == spec_file_decls(inc, exc, q, fs[0], double)
            + spec_files_decls(inc, exc, q, fs.drop_first(), double));
        assert(spec_file_decls(inc, exc, q, fs[0], double) + (spec_files_decls(
            inc,
            exc,
            q,
            fs.drop_first(),
            double,
        ) + spec_file_decls(inc, exc, q, f, double)) =~= (spec_file_decls(inc, exc, q, fs[0], double)
            + spec_files_decls(inc, exc, q, fs.drop_first(), double)) + spec_file_decls(
            inc,
            exc,
            q,
            f,
            double,
        ));
    }
}

proof fn lemma_files_warns_push(
    inc: Seq<Seq<char>>,
    exc: Seq<Seq<char>>,
    fs: Seq<FileInputModel>,
    f: FileInputModel,
)
    ensures
        spec_files_warns(inc, exc, fs.push(f)) == spec_files_warns(inc, exc, fs) + spec_file_warns(
            inc,
            exc,
            f,
        ),
    decreases fs.len(),
{
    if fs.len() == 0 {
        assert(fs.push(f)[0] == f);
        assert(fs.push(f).drop_first() =~= Seq::<FileInputModel>::empty());
        assert(spec_files_warns(inc, exc, fs.push(f)) == spec_file_warns(inc, exc, f)
            + spec_files_warns(inc, exc, fs.push(f).drop_first()));
        assert(spec_files_warns(inc, exc, fs.push(f).drop_first()) =~= Seq::<
            ScanWarningModel,
        >::empty());
        assert(spec_files_warns(inc, exc, fs) =~= Seq::<ScanWarningModel>::empty());
        assert(spec_files_warns(inc, exc, fs.push(f)) =~= spec_files_warns(inc, exc, fs)
            + spec_file_warns(inc, exc, f));
    } else {
        lemma_files_warns_push(inc, exc, fs.drop_first(), f);
        assert(fs.push(f).drop_first() =~= fs.drop_first().push(f));
        assert(fs.push(f)[0] == fs[0]);
        assert(spec_files_warns(inc, exc, fs.push(f)) == spec_file_warns(inc, exc, fs[0])
            + spec_files_warns(inc, exc, fs.drop_first().push(f)));
        assert(spec_files_warns(inc, exc, fs) == spec_file_warns(inc, exc, fs[0])
            + spec_files_warns(inc, exc, fs.drop_first()));
        assert(spec_file_warns(inc, exc, fs[0]) + (spec_files_warns(inc, exc, fs.drop_first())
            + spec_file_warns(inc, exc, f)) =~= (spec_file_warns(inc, exc, fs[0])
            + spec_files_warns(inc, exc, fs.drop_first())) + spec_file_warns(inc, exc, f));
    }
}

proof fn lemma_all_decls_push(
    inc: Seq<Seq<char>>,
    exc: Seq<Seq<char>>,
    ps: Seq<ProjectInputModel>,
    p: ProjectInputModel,
    double: bool,
)
    ensures
        spec_all_decls(inc, exc, ps.push(p), double) == spec_all_decls(inc, exc, ps, double)
            + spec_project_decls(inc, exc, p, double),
    decreases ps.len(),
{
    if ps.len() == 0 {
        assert(ps.push(p)[0] == p);
        assert(ps.push(p).drop_first() =~= Seq::<ProjectInputModel>::empty());
        assert(spec_all_decls(inc, exc, ps.push(p), double) == spec_project_decls(
            inc,
            exc,
            p,
            double,
        ) + spec_all_decls(inc, exc, ps.push(p).drop_first(), double));
        assert(spec_all_decls(inc, exc, ps.push(p).drop_first(), double) =~= Seq::<
            RouteDeclModel,
        >::empty());
        assert(spec_all_decls(inc, exc, ps, double) =~= Seq::<RouteDeclModel>::empty());
        assert(spec_all_decls(inc, exc, ps.push(p), double) =~= spec_all_decls(inc, exc, ps, double)
            + spec_project_decls(inc, exc, p, double));
    } else {
        lemma_all_decls_push(inc, exc, ps.drop_first(), p, double);
        assert(ps.push(p).drop_first() =~= ps.drop_first().push(p));
        assert(ps.push(p)[0] == ps[0]);
        assert(spec_all_decls(inc, exc, ps.push(p), double) == spec_project_decls(
            inc,
            exc,
            ps[0],
            double,
        ) + spec_all_decls(inc, exc, ps.drop_first().push(p), double));
        assert(spec_all_decls(inc, exc, ps, double) == spec_project_decls(inc, exc, ps[0], double)
            + spec_all_decls(inc, exc, ps.drop_first(), double));
        assert(spec_project_decls(inc, exc, ps[0], double) + (spec_all_decls(
            inc,
            exc,
            ps.drop_first(),
            double,
        ) + spec_project_decls(inc, exc, p, double)) =~= (spec_project_decls(inc, exc, ps[0], double)
            + spec_all_decls(inc, exc, ps.drop_first(), double)) + spec_project_decls(
            inc,
            exc,
            p,
            double,
        ));
    }
}

proof fn lemma_all_warns_push(
    inc: Seq<Seq<char>>,
    exc: Seq<Seq<char>>,
    ps: Seq<ProjectInputModel>,
    p: ProjectInputModel,
)
    ensures
        spec_all_warns(inc, exc, ps.push(p)) == spec_all_warns(inc, exc, ps) + spec_project_warns(
            inc,
            exc,
            p,
        ),
    decreases ps.len(),
{
    if ps.len() == 0 {
        assert(ps.push(p)[0] == p);
        assert(ps.push(p).drop_first() =~= Seq::<ProjectInputModel>::empty());
        assert(spec_all_warns(inc, exc, ps.push(p)) == spec_project_warns(inc, exc, p)
            + spec_all_warns(inc, exc, ps.push(p).drop_first()));
        assert(spec_all_warns(inc, exc, ps.push(p).drop_first()) =~= Seq::<
            ScanWarningModel,
        >::empty());
        assert(spec_all_warns(inc, exc, ps) =~= Seq::<ScanWarningModel>::empty());
        assert(spec_all_warns(inc, exc, ps.push(p)) =~= spec_all_warns(inc, exc, ps)
            + spec_project_warns(inc, exc, p));
    } else {
        lemma_all_warns_push(inc, exc, ps.drop_first(), p);
        assert(ps.push(p).drop_first() =~= ps.drop_first().push(p));
        assert(ps.push(p)[0] == ps[0]);
        assert(spec_all_warns(inc, exc, ps.push(p)) == spec_project_warns(inc, exc, ps[0])
            + spec_all_warns(inc, exc, ps.drop_first().push(p)));
        assert(spec_all_warns(inc, exc, ps) == spec_project_warns(inc, exc, ps[0]) + spec_all_warns(
            inc,
            exc,
            ps.drop_first(),
        ));
        assert(spec_project_warns(inc, exc, ps[0]) + (spec_all_warns(inc, exc, ps.drop_first())
            + spec_project_warns(inc, exc, p)) =~= (spec_project_warns(inc, exc, ps[0])
            + spec_all_warns(inc, exc, ps.drop_first())) + spec_project_warns(inc, exc, p));
    }
}

// ---------------------------------------------------------------------------
// Exec helpers over one project's files.
// ---------------------------------------------------------------------------

/// Decides whether the project holds a top-level file of this name.
fn project_has_file(files: &Vec<FileInput>, name: &str) -> (r: bool)
    ensures
        r == spec_has_file(files@.map_values(|f: FileInput| f@), name@),
{
    let ghost fms = files@.map_values(|f: FileInput| f@);
    let mut i: usize = 0;
    while i < files.len()
        invariant
            i <= files.len(),
            fms == files@.map_values(|f: FileInput| f@),
            fms.len() == files.len(),
            forall|k: int| 0 <= k < i ==> (#[trigger] fms[k]).src_segments != seq![name@],
        decreases files.len() - i,
    {
        let f = &files[i];
        if f.src_segments.len() == 1 && str_eq(f.src_segments[0].as_str(), name) {
            proof {
                assert(fms[i as int] == files@[i as int]@);
                assert(fms[i as int].src_segments =~= seq![name@]);
            }
            return true;
        }
        proof {
            assert(fms[i as int] == files@[i as int]@);
            if fms[i as int].src_segments == seq![name@] {
                assert(fms[i as int].src_segments.len() == 1);
                assert(files@[i as int].src_segments.deep_view()[0] == name@);
                assert(files@[i as int].src_segments@[0]@ == name@);
            }
        }
        i = i + 1;
    }
    false
}

/// The file's name: its last path segment.
fn last_segment(f: &FileInput) -> (r: String)
    ensures
        r@ == file_name_of(f@),
{
    if f.src_segments.len() == 0 {
        proof {
            assert(f@.src_segments.len() == 0);
        }
        String::new()
    } else {
        let n = f.src_segments.len() - 1;
        proof {
            assert(f@.src_segments.last() == f.src_segments@[n as int]@);
        }
        f.src_segments[n].clone()
    }
}

/// The directory segments above the file, inside the source root.
fn parent_segments(f: &FileInput) -> (r: Vec<String>)
    ensures
        r.deep_view() == dirs_of(f@),
{
    let mut out: Vec<String> = Vec::new();
    if f.src_segments.len() == 0 {
        proof {
            assert(out.deep_view() =~= dirs_of(f@));
        }
        return out;
    }
    let n = f.src_segments.len() - 1;
    let mut i: usize = 0;
    while i < n
        invariant
            i <= n,
            n == f.src_segments.len() - 1,
            out.deep_view() == f@.src_segments.take(i as int),
        decreases n - i,
    {
        let ghost pre = out.deep_view();
        out.push(f.src_segments[i].clone());
        proof {
            assert(f@.src_segments[i as int] == f.src_segments@[i as int]@);
            assert(out.deep_view() =~= pre.push(f@.src_segments[i as int]));
            assert(out.deep_view() =~= f@.src_segments.take(i + 1));
        }
        i = i + 1;
    }
    proof {
        assert(f@.src_segments.take(n as int) =~= f@.src_segments.drop_last());
    }
    out
}

/// Decides whether this candidate is the project's designated entry file
/// for parsing.
fn is_designated_entry(f: &FileInput, has_main: bool, fs: Ghost<Seq<FileInputModel>>) -> (r: bool)
    requires
        has_main == spec_has_file(fs@, "main.rs"@),
    ensures
        r == spec_is_entry(f@, fs@),
{
    if has_main {
        return false;
    }
    if f.src_segments.len() == 1 && str_eq(f.src_segments[0].as_str(), "lib.rs") {
        proof {
            assert(f@.src_segments =~= seq!["lib.rs"@]);
        }
        true
    } else {
        proof {
            if f@.src_segments == seq!["lib.rs"@] {
                assert(f@.src_segments.len() == 1);
                assert(f@.src_segments[0] == "lib.rs"@);
                assert(f@.src_segments[0] == f.src_segments@[0]@);
            }
        }
        false
    }
}

// ---------------------------------------------------------------------------
// Planning the projects from the manifests.
// ---------------------------------------------------------------------------

/// One workspace member directory, as found on disk.
pub struct MemberInput {
    /// Whether the member directory exists.
    pub dir_exists: bool,
    /// The member's manifest text, or nothing when it has none.
    pub manifest_text: Option<String>,
}

#[verifier::ext_equal]
pub ghost struct MemberInputModel {
    pub dir_exists: bool,
    pub manifest_text: Option<Seq<char>>,
}

impl View for MemberInput {
    type V = MemberInputModel;

    open spec fn view(&self) -> MemberInputModel {
        MemberInputModel {
            dir_exists: self.dir_exists,
            manifest_text: match self.manifest_text {
                Some(t) => Some(t@),
                None => None,
            },
        }
    }
}

pub open spec fn member_models(ms: Seq<MemberInput>) -> Seq<MemberInputModel> {
    ms.map_values(|m: MemberInput| m@)
}

/// The qualifier a member contributes: its package name, when the directory
/// exists, carries a manifest, and the manifest names a package.
pub open spec fn spec_member_qual(m: MemberInputModel) -> Seq<Seq<char>> {
    match m.manifest_text {
        Some(t) => if m.dir_exists {
            match toml_package_name(t) {
                Some(n) => seq![n],
                None => Seq::empty(),
            }
        } else {
            Seq::empty()
        },
        None => Seq::empty(),
    }
}

pub open spec fn spec_member_quals(ms: Seq<MemberInputModel>) -> Seq<Seq<char>>
    decreases ms.len(),
{
    if ms.len() == 0 {
        Seq::empty()
    } else {
        spec_member_qual(ms[0]) + spec_member_quals(ms.drop_first())
    }
}

proof fn lemma_member_quals_push(ms: Seq<MemberInputModel>, m: MemberInputModel)
    ensures
        spec_member_quals(ms.push(m)) == spec_member_quals(ms) + spec_member_qual(m),
    decreases ms.len(),
{
    if ms.len() == 0 {
        assert(ms.push(m)[0] == m);
        assert(ms.push(m).drop_first() =~= Seq::<MemberInputModel>::empty());
        assert(spec_member_quals(ms.push(m)) == spec_member_qual(m) + spec_member_quals(
            ms.push(m).drop_first(),
        ));
        assert(spec_member_quals(ms.push(m).drop_first()) =~= Seq::<Seq<char>>::empty());
        assert(spec_member_quals(ms) =~= Seq::<Seq<char>>::empty());
        assert(spec_member_quals(ms.push(m)) =~= spec_member_quals(ms) + spec_member_qual(m));
    } else {
        lemma_member_quals_push(ms.drop_first(), m);
        assert(ms.push(m).drop_first() =~= ms.drop_first().push(m));
        assert(ms.push(m)[0] == ms[0]);
        assert(spec_member_quals(ms.push(m)) == spec_member_qual(ms[0]) + spec_member_quals(
            ms.drop_first().push(m),
        ));
        assert(spec_member_quals(ms) == spec_member_qual(ms[0]) + spec_member_quals(
            ms.drop_first(),
        ));
        assert(spec_member_qual(ms[0]) + (spec_member_quals(ms.drop_first()) + spec_member_qual(m))
            =~= (spec_member_qual(ms[0]) + spec_member_quals(ms.drop_first())) + spec_member_qual(
            m,
        ));
    }
}

/// The qualifier one member contributes: its package name, when the member
/// is usable; nothing otherwise. The caller walks exactly the members that
/// contribute one.
pub fn member_qualifier(m: &MemberInput) -> (r: Option<String>)
    ensures
        (match r {
            Some(q) => spec_member_qual(m@) == seq![q@],
            None => spec_member_qual(m@) == Seq::<Seq<char>>::empty(),
        }),
{
    if m.dir_exists {
        match &m.manifest_text {
            Some(text) => {
                let name = crate::manifest::read_package_name(text.as_str());
                proof {
                    assert(m@.manifest_text == Some(text@));
                    match &name {
                        Some(n) => {
                            assert(spec_member_qual(m@) =~= seq![n@]);
                        },
                        None => {
                            assert(spec_member_qual(m@) =~= Seq::<Seq<char>>::empty());
                        },
                    }
                }
                name
            },
            None => {
                proof {
                    assert(spec_member_qual(m@) =~= Seq::<Seq<char>>::empty());
                }
                None
            },
        }
    } else {
        proof {
            assert(spec_member_qual(m@) =~= Seq::<Seq<char>>::empty());
        }
        None
    }
}

/// Turns the manifests into the list of project qualifiers to scan: the
/// root marker for the invoking project, then one package name per usable
/// member. Fails exactly when the root manifest is missing or does not
/// parse; a member without a directory, manifest or package name is skipped
/// without error.
pub fn plan_projects(root_manifest: &Option<String>, members: &Vec<MemberInput>) -> (r: Result<
    Vec<String>,
    GenError,
>)
    ensures
        r is Ok <==> (root_manifest matches Some(t) && toml_parses(t@)),
        r matches Err(e) ==> e is Manifest,
        r matches Ok(quals) ==> quals.deep_view() == seq!["crate"@] + spec_member_quals(
            member_models(members@),
        ),
{
    let root_text = match root_manifest {
        Some(t) => t,
        None => {
            return Err(GenError::Manifest);
        },
    };
    if !crate::manifest::manifest_parses(root_text.as_str()) {
        return Err(GenError::Manifest);
    }
    let ghost mms = member_models(members@);
    let mut quals: Vec<String> = Vec::new();
    quals.push(String::from_str("crate"));
    let mut i: usize = 0;
    proof {
        assert(mms.take(0) =~= Seq::<MemberInputModel>::empty());
        assert(quals.deep_view() =~= seq!["crate"@] + spec_member_quals(mms.take(0)));
    }
    while i < members.len()
        invariant
            i <= members.len(),
            mms == member_models(members@),
            mms.len() == members.len(),
            quals.deep_view() == seq!["crate"@] + spec_member_quals(mms.take(i as int)),
        decreases members.len() - i,
    {
        let m = &members[i];
        let ghost mm = mms[i as int];
        proof {
            assert(mm == members@[i as int]@);
        }
        let ghost pre = quals.deep_view();
        if m.dir_exists {
            match &m.manifest_text {
                Some(text) => {
                    match crate::manifest::read_package_name(text.as_str()) {
                        Some(name) => {
                            proof {
                                assert(mm.manifest_text == Some(text@));
                                assert(spec_member_qual(mm) =~= seq![name@]);
                            }
                            let ghost namev = name@;
                            quals.push(name);
                            proof {
                                assert(quals.deep_view() =~= pre.push(namev));
                            }
                        },
                        None => {
                            proof {
                                assert(spec_member_qual(mm) =~= Seq::<Seq<char>>::empty());
                            }
                        },
                    }
                },
                None => {
                    proof {
                        assert(spec_member_qual(mm) =~= Seq::<Seq<char>>::empty());
                    }
                },
            }
        } else {
            proof {
                assert(spec_member_qual(mm) =~= Seq::<Seq<char>>::empty());
            }
        }
        proof {
            assert(mms.take(i + 1) =~= mms.take(i as int).push(mm));
            lemma_member_quals_push(mms.take(i as int), mm);
            assert(quals.deep_view() =~= seq!["crate"@] + spec_member_quals(mms.take(i + 1)));
        }
        i = i + 1;
    }
    proof {
        assert(mms.take(mms.len() as int) =~= mms);
    }
    Ok(quals)
}

// ---------------------------------------------------------------------------
// The whole run.
// ---------------------------------------------------------------------------

/// A fatal file of the given outcome and path exists among the projects.
pub open spec fn spec_fatal_witness(
    inc: Seq<Seq<char>>,
    exc: Seq<Seq<char>>,
    ps: Seq<ProjectInputModel>,
    strict: bool,
    o: FileOutcome,
    path: Seq<char>,
) -> bool {
    exists|i: int, j: int|
        0 <= i < ps.len() && 0 <= j < ps[i].files.len() && spec_scannable(ps[i].files)
            && spec_outcome(inc, exc, #[trigger] ps[i].files[j]) == o && spec_file_fatal(
            inc,
            exc,
            ps[i].files[j],
            ps[i].files,
            strict,
        ) && ps[i].files[j].rel_path == path
}

/// The generated text is deterministic: it depends only on which
/// declarations discovery found, not on the order scanning delivered them
/// in. Two declaration lists holding the same declarations — in any two
/// orders, as parallel traversal may interleave them — sort to the same
/// canonical sequence and so yield the same groups, the same route list and
/// byte-identical text.
pub proof fn lemma_output_order_independent(a: Seq<RouteDeclModel>, b: Seq<RouteDeclModel>)
    requires
        a.to_multiset() == b.to_multiset(),
    ensures
        spec_generated(
            spec_groups(a.sort_by(decl_order())),
            spec_route_pairs(spec_groups(a.sort_by(decl_order()))),
        ) == spec_generated(
            spec_groups(b.sort_by(decl_order())),
            spec_route_pairs(spec_groups(b.sort_by(decl_order()))),
        ),
{
    crate::group::lemma_sort_canonical(a, b);
}

/// Runs route discovery and code synthesis over the given projects.
///
/// Succeeds exactly when every pattern is a valid glob and no candidate
/// fails fatally: under the strict policy any oversized, unreadable or
/// unparsable candidate is fatal, under the lenient policy only the
/// designated entry file is, and every other failing candidate is skipped
/// with a warning. On success the text, the route list and the warnings are
/// pinned, and the text depends only on which declarations were found, not
/// on the order the walker delivered the files in.
#[verifier::rlimit(100)]
pub fn run_generation(
    projects: &Vec<ProjectInput>,
    patterns: &Vec<String>,
    strict: bool,
    double_segment: bool,
) -> (r: Result<GenOutput, GenError>)
    ensures
        r is Ok <==> spec_patterns_ok(patterns.deep_view()) && !spec_any_fatal(
            spec_effective_includes(patterns.deep_view()),
            spec_excludes_of(patterns.deep_view()).push("route_codegen/src/**"@),
            project_models(projects@),
            strict,
        ),
        (match r {
            Ok(out) => ({
                let inc = spec_effective_includes(patterns.deep_view());
                let exc = spec_excludes_of(patterns.deep_view()).push("route_codegen/src/**"@);
                let sorted = spec_all_decls(
                    inc,
                    exc,
                    project_models(projects@),
                    double_segment,
                ).sort_by(decl_order());
                &&& out.text@ == spec_generated(
                    spec_groups(sorted),
                    spec_route_pairs(spec_groups(sorted)),
                )
                &&& pair_models(out.routes@) == spec_route_pairs(spec_groups(sorted))
                &&& warn_models(out.warnings@) == spec_all_warns(
                    inc,
                    exc,
                    project_models(projects@),
                )
            }),
            Err(e) => ({
                let inc = spec_effective_includes(patterns.deep_view());
                let exc = spec_excludes_of(patterns.deep_view()).push("route_codegen/src/**"@);
                match e {
                    GenError::Manifest => false,
                    GenError::Pattern(p) => !spec_patterns_ok(patterns.deep_view()),
                    GenError::FileTooLarge(s) => spec_fatal_witness(
                        inc,
                        exc,
                        project_models(projects@),
                        strict,
                        FileOutcome::TooLarge,
                        s@,
                    ),
                    GenError::ReadFailed(s) => spec_fatal_witness(
                        inc,
                        exc,
                        project_models(projects@),
                        strict,
                        FileOutcome::Unreadable,
                        s@,
                    ),
                    GenError::ParseFailed(s) => spec_fatal_witness(
                        inc,
                        exc,
                        project_models(projects@),
                        strict,
                        FileOutcome::Unparsable,
                        s@,
                    ),
                }
            }),
        }),
{
    let ghost pms = project_models(projects@);
    let ghost inc = spec_effective_includes(patterns.deep_view());
    let ghost exc = spec_excludes_of(patterns.deep_view()).push("route_codegen/src/**"@);
    let rules = match build_scan_rules(patterns) {
        Ok(rules) => rules,
        Err(p) => {
            return Err(GenError::Pattern(p));
        },
    };
    let mut decls: Vec<RouteDecl> = Vec::new();
    let mut warns: Vec<ScanWarning> = Vec::new();
    let mut pi: usize = 0;
    proof {
        assert(pms.take(0) =~= Seq::<ProjectInputModel>::empty());
        assert(decl_models(decls@) =~= spec_all_decls(inc, exc, pms.take(0), double_segment));
        assert(warn_models(warns@) =~= spec_all_warns(inc, exc, pms.take(0)));
    }
    while pi < projects.len()
        invariant
            pi <= projects.len(),
            pms == project_models(projects@),
            pms.len() == projects.len(),
            inc == spec_effective_includes(patterns.deep_view()),
            exc == spec_excludes_of(patterns.deep_view()).push("route_codegen/src/**"@),
            spec_patterns_ok(patterns.deep_view()),
            crate::rules::rules_wf(rules),
            rules.includes.deep_view() == inc,
            rules.excludes.deep_view() == exc,
            decl_models(decls@) == spec_all_decls(inc, exc, pms.take(pi as int), double_segment),
            warn_models(warns@) == spec_all_warns(inc, exc, pms.take(pi as int)),
            !spec_any_fatal(inc, exc, pms.take(pi as int), strict),
        decreases projects.len() - pi,
    {
        let p = &projects[pi];
        let ghost pm = pms[pi as int];
        proof {
            assert(pm == projects@[pi as int]@);
        }
        let has_main = project_has_file(&p.files, "main.rs");
        let has_lib = project_has_file(&p.files, "lib.rs");
        let ghost predecls = decl_models(decls@);
        let ghost prewarns = warn_models(warns@);
        if has_main || has_lib {
            proof {
                assert(spec_scannable(pm.files));
            }
            let mut fj: usize = 0;
            proof {
                assert(pm.files.take(0) =~= Seq::<FileInputModel>::empty());
                assert(decl_models(decls@) =~= predecls + spec_files_decls(
                    inc,
                    exc,
                    pm.qualifier,
                    pm.files.take(0),
                    double_segment,
                ));
                assert(warn_models(warns@) =~= prewarns + spec_files_warns(
                    inc,
                    exc,
                    pm.files.take(0),
                ));
            }
            while fj < p.files.len()
                invariant
                    fj <= p.files.len(),
                    pms == project_models(projects@),
                    pms.len() == projects.len(),
                    pi < projects.len(),
                    p == &projects[pi as int],
                    pm == pms[pi as int],
                    pm.files.len() == p.files.len(),
                    pm.files == p.files@.map_values(|f: FileInput| f@),
                    crate::rules::rules_wf(rules),
                    inc == spec_effective_includes(patterns.deep_view()),
                    exc == spec_excludes_of(patterns.deep_view()).push("route_codegen/src/**"@),
                    rules.includes.deep_view() == inc,
                    rules.excludes.deep_view() == exc,
                    spec_patterns_ok(patterns.deep_view()),
                    has_main == spec_has_file(pm.files, "main.rs"@),
                    spec_scannable(pm.files),
                    decl_models(decls@) == predecls + spec_files_decls(
                        inc,
                        exc,
                        pm.qualifier,
                        pm.files.take(fj as int),
                        double_segment,
                    ),
                    warn_models(warns@) == prewarns + spec_files_warns(
                        inc,
                        exc,
                        pm.files.take(fj as int),
                    ),
                    forall|k: int| 0 <= k < fj ==> !spec_file_fatal(
                        inc,
                        exc,
                        #[trigger] pm.files[k],
                        pm.files,
                        strict,
                    ),
                decreases p.files.len() - fj,
            {
                let f = &p.files[fj];
                let ghost fm = pm.files[fj as int];
                proof {
                    assert(fm == p.files@[fj as int]@);
                }
                let name = last_segment(f);
                let decision = rules.classify(f.rel_path.as_str(), name.as_str(), f.size);
                let ghost outcome = spec_outcome(inc, exc, fm);
                let ghost predecls2 = decl_models(decls@);
                let ghost prewarns2 = warn_models(warns@);
                proof {
                    assert(pm.files.take(fj + 1) =~= pm.files.take(fj as int).push(fm));
                    lemma_files_decls_push(
                        inc,
                        exc,
                        pm.qualifier,
                        pm.files.take(fj as int),
                        fm,
                        double_segment,
                    );
                    lemma_files_warns_push(inc, exc, pm.files.take(fj as int), fm);
                }
                match decision {
                    FileDecision::Skip => {
                        proof {
                            assert(outcome == FileOutcome::Skipped);
                            assert(spec_file_decls(inc, exc, pm.qualifier, fm, double_segment)
                                =~= Seq::<RouteDeclModel>::empty());
                            assert(spec_file_warns(inc, exc, fm) =~= Seq::<
                                ScanWarningModel,
                            >::empty());
                            assert(decl_models(decls@) =~= predecls + spec_files_decls(
                                inc,
                                exc,
                                pm.qualifier,
                                pm.files.take(fj + 1),
                                double_segment,
                            ));
                            assert(warn_models(warns@) =~= prewarns + spec_files_warns(
                                inc,
                                exc,
                                pm.files.take(fj + 1),
                            ));
                        }
                    },
                    FileDecision::TooLarge => {
                        proof {
                            assert(outcome == FileOutcome::TooLarge);
                        }
                        let entry = is_designated_entry(f, has_main, Ghost(pm.files));
                        if strict || entry {
                            proof {
                                assert(spec_file_fatal(inc, exc, fm, pm.files, strict));
                                assert(fm == pms[pi as int].files[fj as int]);
                                assert(spec_file_fatal(inc, exc, pms[pi as int].files[fj as int], pm.files, strict));
                                assert(spec_outcome(inc, exc, pms[pi as int].files[fj as int]) == outcome);
                                assert(spec_project_fatal(inc, exc, pms[pi as int], strict));
                                assert(spec_any_fatal(inc, exc, pms, strict));
                                assert(spec_fatal_witness(
                                    inc,
                                    exc,
                                    pms,
                                    strict,
                                    FileOutcome::TooLarge,
                                    fm.rel_path,
                                ));
                            }
                            return Err(GenError::FileTooLarge(f.rel_path.clone()));
                        }
                        warns.push(ScanWarning::TooLarge(f.rel_path.clone()));
                        proof {
                            assert(spec_file_decls(inc, exc, pm.qualifier, fm, double_segment)
                                =~= Seq::<RouteDeclModel>::empty());
                            assert(spec_file_warns(inc, exc, fm) =~= seq![
                                ScanWarningModel::TooLarge(fm.rel_path),
                            ]);
                            assert(warn_models(warns@) =~= prewarns2.push(
                                ScanWarningModel::TooLarge(fm.rel_path),
                            ));
                            assert(decl_models(decls@) =~= predecls + spec_files_decls(
                                inc,
                                exc,
                                pm.qualifier,
                                pm.files.take(fj + 1),
                                double_segment,
                            ));
                            assert(warn_models(warns@) =~= prewarns + spec_files_warns(
                                inc,
                                exc,
                                pm.files.take(fj + 1),
                            ));
                        }
                    },
                    FileDecision::Scan => {
                        match &f.content {
                            None => {
                                proof {
                                    assert(fm.content is None);
                                    assert(outcome == FileOutcome::Unreadable);
                                }
                                let entry = is_designated_entry(f, has_main, Ghost(pm.files));
                                if strict || entry {
                                    proof {
                                        assert(spec_file_fatal(inc, exc, fm, pm.files, strict));
                                        assert(fm == pms[pi as int].files[fj as int]);
                                        assert(spec_file_fatal(inc, exc, pms[pi as int].files[fj as int], pm.files, strict));
                                        assert(spec_outcome(inc, exc, pms[pi as int].files[fj as int]) == outcome);
                                        assert(spec_project_fatal(inc, exc, pms[pi as int], strict));
                                        assert(spec_any_fatal(inc, exc, pms, strict));
                                        assert(spec_fatal_witness(
                                            inc,
                                            exc,
                                            pms,
                                            strict,
                                            FileOutcome::Unreadable,
                                            fm.rel_path,
                                        ));
                                    }
                                    return Err(GenError::ReadFailed(f.rel_path.clone()));
                                }
                                warns.push(ScanWarning::ReadFailed(f.rel_path.clone()));
                                proof {
                                    assert(spec_file_decls(
                                        inc,
                                        exc,
                                        pm.qualifier,
                                        fm,
                                        double_segment,
                                    ) =~= Seq::<RouteDeclModel>::empty());
                                    assert(spec_file_warns(inc, exc, fm) =~= seq![
                                        ScanWarningModel::ReadFailed(fm.rel_path),
                                    ]);
                                    assert(warn_models(warns@) =~= prewarns2.push(
                                        ScanWarningModel::ReadFailed(fm.rel_path),
                                    ));
                                    assert(decl_models(decls@) =~= predecls + spec_files_decls(
                                        inc,
                                        exc,
                                        pm.qualifier,
                                        pm.files.take(fj + 1),
                                        double_segment,
                                    ));
                                    assert(warn_models(warns@) =~= prewarns + spec_files_warns(
                                        inc,
                                        exc,
                                        pm.files.take(fj + 1),
                                    ));
                                }
                            },
                            Some(text) => {
                                proof {
                                    assert(fm.content == Some(text@));
                                }
                                let stem = crate::rules::file_stem(name.as_str());
                                let dirs = parent_segments(f);
                                let extracted = extract_file_routes(
                                    text.as_str(),
                                    &p.qualifier,
                                    &dirs,
                                    &stem,
                                    double_segment,
                                );
                                match extracted {
                                    Some(mut ds) => {
                                        proof {
                                            assert(outcome == FileOutcome::Routes);
                                            assert(pm.qualifier == p.qualifier@);
                                            assert(decl_models(ds@) == spec_file_decls(
                                                inc,
                                                exc,
                                                pm.qualifier,
                                                fm,
                                                double_segment,
                                            ));
                                            assert(spec_file_warns(inc, exc, fm) =~= Seq::<
                                                ScanWarningModel,
                                            >::empty());
                                        }
                                        let ghost dsm = decl_models(ds@);
                                        decls.append(&mut ds);
                                        proof {
                                            assert(decl_models(decls@) =~= predecls2 + dsm);
                                            assert(decl_models(decls@) =~= predecls
                                                + spec_files_decls(
                                                inc,
                                                exc,
                                                pm.qualifier,
                                                pm.files.take(fj + 1),
                                                double_segment,
                                            ));
                                            assert(warn_models(warns@) =~= prewarns
                                                + spec_files_warns(
                                                inc,
                                                exc,
                                                pm.files.take(fj + 1),
                                            ));
                                        }
                                    },
                                    None => {
                                        proof {
                                            assert(outcome == FileOutcome::Unparsable);
                                        }
                                        let entry = is_designated_entry(
                                            f,
                                            has_main,
                                            Ghost(pm.files),
                                        );
                                        if strict || entry {
                                            proof {
                                                assert(spec_file_fatal(
                                                    inc,
                                                    exc,
                                                    fm,
                                                    pm.files,
                                                    strict,
                                                ));
                                                assert(fm == pms[pi as int].files[fj as int]);
                                                assert(spec_file_fatal(inc, exc, pms[pi as int].files[fj as int], pm.files, strict));
                                                assert(spec_outcome(inc, exc, pms[pi as int].files[fj as int]) == outcome);
                                                assert(spec_project_fatal(
                                                    inc,
                                                    exc,
                                                    pms[pi as int],
                                                    strict,
                                                ));
                                                assert(spec_any_fatal(inc, exc, pms, strict));
                                                assert(spec_fatal_witness(
                                                    inc,
                                                    exc,
                                                    pms,
                                                    strict,
                                                    FileOutcome::Unparsable,
                                                    fm.rel_path,
                                                ));
                                            }
                                            return Err(GenError::ParseFailed(f.rel_path.clone()));
                                        }
                                        warns.push(ScanWarning::ParseFailed(f.rel_path.clone()));
                                        proof {
                                            assert(spec_file_decls(
                                                inc,
                                                exc,
                                                pm.qualifier,
                                                fm,
                                                double_segment,
                                            ) =~= Seq::<RouteDeclModel>::empty());
                                            assert(spec_file_warns(inc, exc, fm) =~= seq![
                                                ScanWarningModel::ParseFailed(fm.rel_path),
                                            ]);
                                            assert(warn_models(warns@) =~= prewarns2.push(
                                                ScanWarningModel::ParseFailed(fm.rel_path),
                                            ));
                                            assert(decl_models(decls@) =~= predecls
                                                + spec_files_decls(
                                                inc,
                                                exc,
                                                pm.qualifier,
                                                pm.files.take(fj + 1),
                                                double_segment,
                                            ));
                                            assert(warn_models(warns@) =~= prewarns
                                                + spec_files_warns(
                                                inc,
                                                exc,
                                                pm.files.take(fj + 1),
                                            ));
                                        }
                                    },
                                }
                            },
                        }
                    },
                }
                fj = fj + 1;
            }
            proof {
                assert(pm.files.take(p.files.len() as int) =~= pm.files);
                assert(decl_models(decls@) == predecls + spec_project_decls(
                    inc,
                    exc,
                    pm,
                    double_segment,
                ));
                assert(warn_models(warns@) == prewarns + spec_project_warns(inc, exc, pm));
                assert(!spec_project_fatal(inc, exc, pm, strict));
            }
        } else {
            proof {
                assert(!spec_scannable(pm.files));
                assert(spec_project_decls(inc, exc, pm, double_segment) =~= Seq::<
                    RouteDeclModel,
                >::empty());
                assert(spec_project_warns(inc, exc, pm) =~= Seq::<ScanWarningModel>::empty());
                assert(!spec_project_fatal(inc, exc, pm, strict));
                assert(decl_models(decls@) =~= predecls + spec_project_decls(
                    inc,
                    exc,
                    pm,
                    double_segment,
                ));
                assert(warn_models(warns@) =~= prewarns + spec_project_warns(inc, exc, pm));
            }
        }
        proof {
            assert(pms.take(pi + 1) =~= pms.take(pi as int).push(pm));
            lemma_all_decls_push(inc, exc, pms.take(pi as int), pm, double_segment);
            lemma_all_warns_push(inc, exc, pms.take(pi as int), pm);
            assert(decl_models(decls@) =~= spec_all_decls(
                inc,
                exc,
                pms.take(pi + 1),
                double_segment,
            ));
            assert(warn_models(warns@) =~= spec_all_warns(inc, exc, pms.take(pi + 1)));
            assert forall|ii: int|
                0 <= ii < pms.take(pi + 1).len() implies !spec_project_fatal(
                inc,
                exc,
                #[trigger] pms.take(pi + 1)[ii],
                strict,
            ) by {
                if ii < pi {
                    assert(pms.take(pi + 1)[ii] == pms.take(pi as int)[ii]);
                    assert(!spec_any_fatal(inc, exc, pms.take(pi as int), strict));
                } else {
                    assert(pms.take(pi + 1)[ii] == pm);
                }
            }
            assert(!spec_any_fatal(inc, exc, pms.take(pi + 1), strict));
        }
        pi = pi + 1;
    }
    proof {
        assert(pms.take(pms.len() as int) =~= pms);
    }
    let sorted = sort_decls(decls);
    let groups = group_decls(sorted);
    let pairs = route_pairs(&groups);
    let text = generate_text(&groups, &pairs);
    proof {
        assert(decl_models(sorted@) == spec_all_decls(inc, exc, pms, double_segment).sort_by(
            decl_order(),
        ));
    }
    Ok(GenOutput { text, routes: pairs, warnings: warns })
}

} // verus!
