//! Robine projects: the manifest, the loaded sources and the checks that
//! span modules (manifest values, foreign-call contracts, the application
//! root). Reading the files is left to the caller; paths are kept as text.

use vstd::prelude::*;
use crate::diagnostic::{err_v, Diagnostic, DiagnosticV, Span};
use crate::semantic::{
    analyze, quoted, spec_analyze, Analysis, AnalysisV, SummaryV, Type, TypeV,
};
use crate::text::{byte_len, chars_of, str_eq};
use crate::text_set::{set_union, text_set_contains, text_set_union, texts};

verus! {

/// The only syntax profile this version reads.
pub const SYNTAX_PROFILE: &'static str = "prototype-conventional-0";

/// The extension of Robine source files.
pub const SOURCE_EXTENSION: &'static str = "ro";

/// The main source when the manifest names none.
pub const DEFAULT_SOURCE: &'static str = "src/main.ro";

/// The source root when the manifest names none.
pub const DEFAULT_SOURCE_ROOT: &'static str = "src";

/// The application profile when the manifest names none.
pub const DEFAULT_APP_PROFILE: &'static str = "app.sync-v0";

/// The domain when the manifest names none.
pub const DEFAULT_DOMAIN: &'static str = "normal";

/// The `robine.toml` manifest of a project.
#[derive(Debug)]
pub struct Manifest {
    pub package: Package,
    pub target: Targets,
    pub foreign: Vec<(String, ForeignFunction)>,
}

/// The `[package]` table.
#[derive(Debug)]
pub struct Package {
    pub name: String,
    pub version: String,
    pub syntax_profile: String,
}

/// The `[target]` table.
#[derive(Debug)]
pub struct Targets {
    pub app: AppTarget,
}

/// The `[target.app]` table.
#[derive(Debug)]
pub struct AppTarget {
    pub profile: String,
    pub source_root: String,
    pub source: String,
    pub entry: String,
    pub domain: String,
    pub capabilities: Vec<String>,
}

/// A `[foreign.*]` declaration: the ABI contract of a foreign function.
#[derive(Debug)]
pub struct ForeignFunction {
    pub library: String,
    pub symbol: String,
    pub abi: String,
    pub parameters: Vec<String>,
    pub result: String,
    pub panic: String,
    pub effects: Vec<String>,
}

/// A source file of a project.
#[derive(Debug)]
pub struct SourceFile {
    pub path: String,
    pub relative_path: String,
    pub source: String,
}

/// A project whose manifest and sources have been read.
#[derive(Debug)]
pub struct LoadedProject {
    pub root: String,
    pub manifest_path: String,
    pub manifest_source: String,
    pub source_path: String,
    pub manifest: Manifest,
    pub source: String,
    pub sources: Vec<SourceFile>,
}

/// The analysis of one source file of a project.
#[derive(Debug)]
pub struct ProjectModule {
    pub path: String,
    pub relative_path: String,
    pub analysis: Analysis,
}

/// A diagnostic and the file it is about.
#[derive(Debug)]
pub struct ProjectDiagnostic {
    pub path: String,
    pub diagnostic: Diagnostic,
}

/// The analysis of a whole project.
#[derive(Debug)]
pub struct ProjectAnalysis {
    pub modules: Vec<ProjectModule>,
    pub diagnostics: Vec<ProjectDiagnostic>,
}

/// The value of a foreign declaration.
pub struct ForeignV {
    pub library: Seq<char>,
    pub symbol: Seq<char>,
    pub abi: Seq<char>,
    pub parameters: Seq<Seq<char>>,
    pub result: Seq<char>,
    pub panic: Seq<char>,
    pub effects: Seq<Seq<char>>,
}

impl View for ForeignFunction {
    type V = ForeignV;

    open spec fn view(&self) -> ForeignV {
        ForeignV {
            library: self.library@,
            symbol: self.symbol@,
            abi: self.abi@,
            parameters: texts(self.parameters@),
            result: self.result@,
            panic: self.panic@,
            effects: texts(self.effects@),
        }
    }
}

/// The value of an application target.
pub struct AppTargetV {
    pub profile: Seq<char>,
    pub source_root: Seq<char>,
    pub source: Seq<char>,
    pub entry: Seq<char>,
    pub domain: Seq<char>,
    pub capabilities: Seq<Seq<char>>,
}

impl View for AppTarget {
    type V = AppTargetV;

    open spec fn view(&self) -> AppTargetV {
        AppTargetV {
            profile: self.profile@,
            source_root: self.source_root@,
            source: self.source@,
            entry: self.entry@,
            domain: self.domain@,
            capabilities: texts(self.capabilities@),
        }
    }
}

/// The value of a manifest.
pub struct ManifestV {
    pub name: Seq<char>,
    pub version: Seq<char>,
    pub syntax_profile: Seq<char>,
    pub app: AppTargetV,
    pub foreign: Seq<(Seq<char>, ForeignV)>,
}

impl View for Manifest {
    type V = ManifestV;

    open spec fn view(&self) -> ManifestV {
        ManifestV {
            name: self.package.name@,
            version: self.package.version@,
            syntax_profile: self.package.syntax_profile@,
            app: self.target.app@,
            foreign: self.foreign@.map_values(|e: (String, ForeignFunction)| (e.0@, e.1@)),
        }
    }
}

/// The value of a source file.
pub struct SourceFileV {
    pub path: Seq<char>,
    pub relative_path: Seq<char>,
    pub source: Seq<char>,
}

impl View for SourceFile {
    type V = SourceFileV;

    open spec fn view(&self) -> SourceFileV {
        SourceFileV { path: self.path@, relative_path: self.relative_path@, source: self.source@ }
    }
}

/// The value of a loaded project.
pub struct LoadedProjectV {
    pub root: Seq<char>,
    pub manifest_path: Seq<char>,
    pub manifest_source: Seq<char>,
    pub source_path: Seq<char>,
    pub manifest: ManifestV,
    pub source: Seq<char>,
    pub sources: Seq<SourceFileV>,
}

impl View for LoadedProject {
    type V = LoadedProjectV;

    open spec fn view(&self) -> LoadedProjectV {
        LoadedProjectV {
            root: self.root@,
            manifest_path: self.manifest_path@,
            manifest_source: self.manifest_source@,
            source_path: self.source_path@,
            manifest: self.manifest@,
            source: self.source@,
            sources: self.sources@.map_values(|f: SourceFile| f@),
        }
    }
}

/// The value of a project module.
pub struct ProjectModuleV {
    pub path: Seq<char>,
    pub relative_path: Seq<char>,
    pub analysis: AnalysisV,
}

impl View for ProjectModule {
    type V = ProjectModuleV;

    open spec fn view(&self) -> ProjectModuleV {
        ProjectModuleV { path: self.path@, relative_path: self.relative_path@, analysis: self.analysis@ }
    }
}

/// The value of a project diagnostic.
pub struct ProjectDiagnosticV {
    pub path: Seq<char>,
    pub diagnostic: DiagnosticV,
}

impl View for ProjectDiagnostic {
    type V = ProjectDiagnosticV;

    open spec fn view(&self) -> ProjectDiagnosticV {
        ProjectDiagnosticV { path: self.path@, diagnostic: self.diagnostic@ }
    }
}

/// The value of a project analysis.
pub struct ProjectAnalysisV {
    pub modules: Seq<ProjectModuleV>,
    pub diagnostics: Seq<ProjectDiagnosticV>,
}

/// The values of some project diagnostics.
pub open spec fn project_diags_view(v: Seq<ProjectDiagnostic>) -> Seq<ProjectDiagnosticV> {
    v.map_values(|d: ProjectDiagnostic| d@)
}

impl View for ProjectAnalysis {
    type V = ProjectAnalysisV;

    open spec fn view(&self) -> ProjectAnalysisV {
        ProjectAnalysisV {
            modules: self.modules@.map_values(|m: ProjectModule| m@),
            diagnostics: project_diags_view(self.diagnostics@),
        }
    }
}

// ---------------------------------------------------------------------------
// Paths.

/// A path without its trailing `/` and `.` parts.
pub open spec fn trimmed(path: Seq<char>) -> Seq<char>
    decreases path.len(),
{
    if path.len() == 0 {
        path
    } else if path.last() == '/' {
        trimmed(path.drop_last())
    } else if path.last() == '.' && (path.len() == 1 || path[path.len() - 2] == '/') {
        trimmed(path.drop_last())
    } else {
        path
    }
}

/// The file name of a path: its last part, trailing `/` and `.` parts aside.
pub open spec fn file_name(path: Seq<char>) -> Seq<char> {
    file_name_tail(trimmed(path))
}

/// What follows the last `/` of a path.
pub open spec fn file_name_tail(path: Seq<char>) -> Seq<char>
    decreases path.len(),
{
    if path.len() == 0 {
        Seq::empty()
    } else if path.last() == '/' {
        Seq::empty()
    } else {
        file_name_tail(path.drop_last()).push(path.last())
    }
}

/// The extension of a file name: what follows its last dot, when that dot is
/// not its first character.
pub open spec fn extension_of(name: Seq<char>) -> Option<Seq<char>>
    decreases name.len(),
{
    if name.len() <= 1 {
        None
    } else if name.last() == '.' {
        Some(Seq::empty())
    } else {
        match extension_of(name.drop_last()) {
            Some(e) => Some(e.push(name.last())),
            None => None,
        }
    }
}

/// Whether a path names a Robine source file: its extension is `ro`.
pub open spec fn spec_is_source_path(path: Seq<char>) -> bool {
    let name = file_name(path);
    name != ".."@ && extension_of(name) == Some("ro"@)
}

/// Whether a path is relative to the project: not empty, not absolute, and
/// without a `..` part.
pub open spec fn spec_safe_relative_path(path: Seq<char>) -> bool {
    path.len() > 0 && path[0] != '/' && !(exists|i: int| 0 <= i < path.len() && #[trigger] parent_part_at(path, i))
}

/// A `..` part starts at index `i`.
pub open spec fn parent_part_at(path: Seq<char>, i: int) -> bool {
    &&& 0 <= i
    &&& i + 2 <= path.len()
    &&& path[i] == '.'
    &&& path[i + 1] == '.'
    &&& (i == 0 || path[i - 1] == '/')
    &&& (i + 2 == path.len() || path[i + 2] == '/')
}

fn trimmed_len(cs: &Vec<char>) -> (end: usize)
    ensures
        end <= cs@.len(),
        trimmed(cs@) == cs@.take(end as int),
{
    let mut end = cs.len();
    assert(cs@.take(end as int) =~= cs@);
    while end > 0 && (cs[end - 1] == '/' || (cs[end - 1] == '.' && (end == 1 || cs[end - 2] == '/')))
        invariant
            end <= cs@.len(),
            trimmed(cs@) == trimmed(cs@.take(end as int)),
        decreases end,
    {
        assert(cs@.take(end as int).drop_last() =~= cs@.take(end - 1));
        assert(cs@.take(end as int).last() == cs@[end - 1]);
        if end >= 2 {
            assert(cs@.take(end as int)[end - 2] == cs@[end - 2]);
        }
        end = end - 1;
    }
    if end > 0 {
        assert(cs@.take(end as int).last() == cs@[end - 1]);
        if end >= 2 {
            assert(cs@.take(end as int)[end - 2] == cs@[end - 2]);
        }
    }
    end
}

fn name_start(cs: &Vec<char>, end: usize) -> (start: usize)
    requires
        end <= cs@.len(),
    ensures
        start <= end,
        file_name_tail(cs@.take(end as int)) == cs@.subrange(start as int, end as int),
{
    let ghost t = cs@.take(end as int);
    let mut start = end;
    assert(t.subrange(end as int, end as int) =~= Seq::<char>::empty());
    assert(t.take(end as int) =~= t);
    while start > 0 && cs[start - 1] != '/'
        invariant
            start <= end <= cs@.len(),
            t == cs@.take(end as int),
            file_name_tail(t) == file_name_tail(t.take(start as int)) + t.subrange(start as int, end as int),
        decreases start,
    {
        assert(t.take(start as int).drop_last() =~= t.take(start - 1));
        assert(t.take(start as int).last() == cs@[start - 1]);
        assert(seq![cs@[start - 1]] + t.subrange(start as int, end as int) =~= t.subrange(start - 1, end as int));
        assert(file_name_tail(t.take(start - 1)).push(cs@[start - 1]) + t.subrange(start as int, end as int)
            =~= file_name_tail(t.take(start - 1)) + t.subrange(start - 1, end as int));
        start = start - 1;
    }
    if start > 0 {
        assert(t.take(start as int).last() == cs@[start - 1]);
    }
    assert(file_name_tail(t.take(start as int)) =~= Seq::<char>::empty());
    assert(t.subrange(start as int, end as int) =~= cs@.subrange(start as int, end as int));
    start
}

fn extension_is_ro(cs: &Vec<char>, start: usize, end: usize) -> (r: bool)
    requires
        start <= end <= cs@.len(),
    ensures
        r == (extension_of(cs@.subrange(start as int, end as int)) == Some("ro"@)),
{
    let ghost name = cs@.subrange(start as int, end as int);
    let mut j = end;
    assert(name.take((j - start) as int) =~= name);
    assert(name.skip((j - start) as int) =~= Seq::<char>::empty());
    assert(name + Seq::<char>::empty() =~= name);
    while j - start > 1 && cs[j - 1] != '.'
        invariant
            start <= j <= end,
            end <= cs@.len(),
            name == cs@.subrange(start as int, end as int),
            extension_of(name) == match extension_of(name.take((j - start) as int)) {
                Some(e) => Some(e + name.skip((j - start) as int)),
                None => None,
            },
        decreases j,
    {
        let ghost k = (j - start) as int;
        assert(name.take(k).drop_last() =~= name.take(k - 1));
        assert(name.take(k).last() == cs@[j - 1]);
        assert(seq![cs@[j - 1]] + name.skip(k) =~= name.skip(k - 1));
        proof {
            match extension_of(name.take(k - 1)) {
                Some(e) => {
                    assert(e.push(cs@[j - 1]) + name.skip(k) =~= e + name.skip(k - 1));
                },
                None => {},
            }
        }
        j = j - 1;
    }
    if j - start > 1 {
        let ghost k = (j - start) as int;
        assert(name.take(k).last() == '.');
        let ext = crate::text::string_of(cs, j, end);
        assert(ext@ =~= name.skip(k));
        assert(Seq::<char>::empty() + name.skip(k) =~= name.skip(k));
        str_eq(ext.as_str(), "ro")
    } else {
        false
    }
}

/// Whether a path names a Robine source file: its extension is `ro`.
pub fn is_source_path(path: &str) -> (r: bool)
    ensures
        r == spec_is_source_path(path@),
{
    let cs = chars_of(path);
    let end = trimmed_len(&cs);
    let start = name_start(&cs, end);
    let ghost name = cs@.subrange(start as int, end as int);
    assert(file_name(path@) == name);
    proof {
        reveal_strlit("..");
    }
    if end - start == 2 && cs[start] == '.' && cs[start + 1] == '.' {
        assert(name =~= ".."@);
        return false;
    }
    assert(name != ".."@) by {
        if name == ".."@ {
            assert(name.len() == 2 && name[0] == '.' && name[1] == '.');
        }
    }
    extension_is_ro(&cs, start, end)
}

/// Whether a path is relative to the project: not empty, not absolute and
/// without a `..` part.
pub fn safe_relative_path(path: &str) -> (r: bool)
    ensures
        r == spec_safe_relative_path(path@),
{
    let cs = chars_of(path);
    if cs.len() == 0 || cs[0] == '/' {
        return false;
    }
    let mut i: usize = 0;
    while i < cs.len()
        invariant
            cs@ == path@,
            i <= cs@.len(),
            forall|k: int| 0 <= k < i ==> !#[trigger] parent_part_at(path@, k),
        decreases cs@.len() - i,
    {
        if i + 1 < cs.len() && cs[i] == '.' && cs[i + 1] == '.' && (i == 0 || cs[i - 1] == '/') && (cs.len() - i == 2
            || cs[i + 2] == '/') {
            assert(parent_part_at(path@, i as int));
            return false;
        }
        i = i + 1;
    }
    assert forall|k: int| 0 <= k < path@.len() implies !#[trigger] parent_part_at(path@, k) by {}
    true
}

// ---------------------------------------------------------------------------
// The manifest.

/// Whether `semver` reads `text` as a version (`semver::Version::parse`).
pub uninterp spec fn semver_accepts(text: Seq<char>) -> bool;

/// Asks `semver::Version::parse` whether `text` is a SemVer version. The
/// contract names the verdict and states only what the crate documents
/// plainly: the empty text is no version.
#[verifier::external_body]
fn version_is_semver(text: &str) -> (r: bool)
    ensures
        r == semver_accepts(text@),
        text@.len() == 0 ==> !r,
{
    semver::Version::parse(text).is_ok()
}

/// One diagnostic when `cond` holds, none otherwise.
pub open spec fn when(cond: bool, d: DiagnosticV) -> Seq<DiagnosticV> {
    if cond {
        seq![d]
    } else {
        Seq::empty()
    }
}

/// The empty byte range.
pub open spec fn no_span() -> Span {
    Span { start: 0, end: 0 }
}

/// The errors of a manifest's own values, in order: version, syntax profile,
/// source extension, domain, application profile.
pub open spec fn manifest_diagnostics(m: ManifestV) -> Seq<DiagnosticV> {
    when(
        !semver_accepts(m.version),
        err_v("RBN5006"@, "version de package "@ + quoted(m.version) + " invalide; SemVer attendu"@, no_span()),
    ) + when(
        m.syntax_profile != SYNTAX_PROFILE@,
        err_v(
            "RBN5000"@,
            "profil syntaxique "@ + quoted(m.syntax_profile) + " non pris en charge; attendu "@ + quoted(SYNTAX_PROFILE@),
            no_span(),
        ),
    ) + when(
        !spec_is_source_path(m.app.source),
        err_v(
            "RBN5008"@,
            "extension source invalide pour "@ + quoted(m.app.source) + "; attendu `."@ + SOURCE_EXTENSION@ + "`"@,
            no_span(),
        ),
    ) + when(
        m.app.domain != "normal"@,
        err_v(
            "RBN5005"@,
            "le bootstrap prend uniquement en charge le domaine `normal`, reçu "@ + quoted(m.app.domain),
            no_span(),
        ),
    ) + when(
        m.app.profile != "app.sync-v0"@,
        err_v(
            "RBN5007"@,
            "profil d’application "@ + quoted(m.app.profile) + " non pris en charge; attendu `app.sync-v0`"@,
            no_span(),
        ),
    )
}

fn then(a: String, b: &str) -> (r: String)
    ensures
        r@ == a@ + b@,
{
    let mut a = a;
    crate::text::append_str(&mut a, b);
    a
}

fn quote(t: &str) -> (r: String)
    ensures
        r@ == quoted(t@),
{
    then(then("`".to_owned(), t), "`")
}

fn push_when(out: &mut Vec<Diagnostic>, cond: bool, code: &'static str, message: String)
    ensures
        crate::diagnostic::diagnostics_view(final(out)@) == crate::diagnostic::diagnostics_view(old(out)@) + when(
            cond,
            err_v(code@, message@, no_span()),
        ),
{
    let ghost before = out@;
    if cond {
        let d = Diagnostic::error(code, message, Span::new(0, 0));
        out.push(d);
        assert(crate::diagnostic::diagnostics_view(out@) =~= crate::diagnostic::diagnostics_view(before) + seq![d@]);
    } else {
        assert(crate::diagnostic::diagnostics_view(out@) =~= crate::diagnostic::diagnostics_view(before) + Seq::<
            DiagnosticV,
        >::empty());
    }
}

/// The errors of a manifest's own values.
pub fn validate_manifest(manifest: &Manifest) -> (ds: Vec<Diagnostic>)
    ensures
        crate::diagnostic::diagnostics_view(ds@) == manifest_diagnostics(manifest@),
{
    let mut ds: Vec<Diagnostic> = Vec::new();
    assert(crate::diagnostic::diagnostics_view(ds@) =~= Seq::<DiagnosticV>::empty());
    let m = &manifest.package;
    let app = &manifest.target.app;
    push_when(
        &mut ds,
        !version_is_semver(m.version.as_str()),
        "RBN5006",
        then(then("version de package ".to_owned(), quote(m.version.as_str()).as_str()), " invalide; SemVer attendu"),
    );
    push_when(
        &mut ds,
        !str_eq(m.syntax_profile.as_str(), SYNTAX_PROFILE),
        "RBN5000",
        then(
            then(then("profil syntaxique ".to_owned(), quote(m.syntax_profile.as_str()).as_str()), " non pris en charge; attendu "),
            quote(SYNTAX_PROFILE).as_str(),
        ),
    );
    push_when(
        &mut ds,
        !is_source_path(app.source.as_str()),
        "RBN5008",
        then(
            then(
                then(then("extension source invalide pour ".to_owned(), quote(app.source.as_str()).as_str()), "; attendu `."),
                SOURCE_EXTENSION,
            ),
            "`",
        ),
    );
    push_when(
        &mut ds,
        !str_eq(app.domain.as_str(), "normal"),
        "RBN5005",
        then(
            "le bootstrap prend uniquement en charge le domaine `normal`, reçu ".to_owned(),
            quote(app.domain.as_str()).as_str(),
        ),
    );
    push_when(
        &mut ds,
        !str_eq(app.profile.as_str(), "app.sync-v0"),
        "RBN5007",
        then(
            then("profil d’application ".to_owned(), quote(app.profile.as_str()).as_str()),
            " non pris en charge; attendu `app.sync-v0`",
        ),
    );
    assert(crate::diagnostic::diagnostics_view(ds@) =~= manifest_diagnostics(manifest@));
    ds
}

// ---------------------------------------------------------------------------
// Foreign calls.

/// Whether a foreign declaration is the one contract the bootstrap supports.
pub open spec fn foreign_contract_ok(d: ForeignV) -> bool {
    &&& d.library == "robine-rust-bridge-demo"@
    &&& d.abi == "C"@
    &&& d.symbol == "robine_demo_grapheme_count"@
    &&& d.parameters == seq!["Text.borrowed"@]
    &&& d.result == "Int"@
    &&& d.panic == "sentinel"@
    &&& d.effects.len() == 0
}

/// The first foreign declaration named `name`.
pub open spec fn find_foreign(decls: Seq<(Seq<char>, ForeignV)>, name: Seq<char>) -> Option<ForeignV>
    decreases decls.len(),
{
    if decls.len() == 0 {
        None
    } else if decls[0].0 == name {
        Some(decls[0].1)
    } else {
        find_foreign(decls.drop_first(), name)
    }
}

/// The foreign calls of the modules `ms[..k]`, as one set.
pub open spec fn all_foreign_calls(ms: Seq<ProjectModuleV>, k: int) -> Seq<Seq<char>>
    decreases k,
{
    if k <= 0 || k > ms.len() {
        Seq::empty()
    } else {
        set_union(all_foreign_calls(ms, k - 1), ms[k - 1].analysis.foreign_calls)
    }
}

/// The errors of the foreign calls `calls` against the declarations `decls`.
pub open spec fn foreign_diagnostics(calls: Seq<Seq<char>>, decls: Seq<(Seq<char>, ForeignV)>) -> Seq<DiagnosticV>
    decreases calls.len(),
{
    if calls.len() == 0 {
        Seq::empty()
    } else {
        let c = calls.last();
        foreign_diagnostics(calls.drop_last(), decls) + match find_foreign(decls, c) {
            None => seq![err_v("RBN4201"@, "appel étranger "@ + quoted(c) + " absent du manifeste"@, no_span())],
            Some(d) => when(
                !foreign_contract_ok(d),
                err_v("RBN4202"@, "contrat ABI incomplet ou incompatible pour "@ + quoted(c), no_span()),
            ),
        }
    }
}

fn contract_ok(d: &ForeignFunction) -> (r: bool)
    ensures
        r == foreign_contract_ok(d@),
{
    let params_ok = d.parameters.len() == 1 && str_eq(d.parameters[0].as_str(), "Text.borrowed");
    proof {
        let tv = texts(d.parameters@);
        assert(tv.len() == d.parameters@.len());
        if tv == seq!["Text.borrowed"@] {
            assert(seq!["Text.borrowed"@].len() == 1);
            assert(tv[0] == d.parameters@[0]@);
            assert(seq!["Text.borrowed"@][0] == "Text.borrowed"@);
        }
        if params_ok {
            assert(tv =~= seq!["Text.borrowed"@]);
        }
    }
    str_eq(d.library.as_str(), "robine-rust-bridge-demo") && str_eq(d.abi.as_str(), "C") && str_eq(
        d.symbol.as_str(),
        "robine_demo_grapheme_count",
    ) && params_ok && str_eq(d.result.as_str(), "Int") && str_eq(d.panic.as_str(), "sentinel") && d.effects.len()
        == 0
}

fn find_foreign_decl(decls: &Vec<(String, ForeignFunction)>, name: &str) -> (r: Option<usize>)
    ensures
        r matches Some(i) ==> i < decls@.len() && find_foreign(
            decls@.map_values(|e: (String, ForeignFunction)| (e.0@, e.1@)),
            name@,
        ) == Some(decls@[i as int].1@),
        r is None ==> find_foreign(decls@.map_values(|e: (String, ForeignFunction)| (e.0@, e.1@)), name@) is None,
{
    let ghost dv = decls@.map_values(|e: (String, ForeignFunction)| (e.0@, e.1@));
    let mut i: usize = 0;
    assert(dv.skip(0) =~= dv);
    while i < decls.len()
        invariant
            i <= decls@.len(),
            dv == decls@.map_values(|e: (String, ForeignFunction)| (e.0@, e.1@)),
            find_foreign(dv, name@) == find_foreign(dv.skip(i as int), name@),
        decreases decls@.len() - i,
    {
        assert(dv.skip(i as int)[0] == dv[i as int]);
        assert(dv.skip(i as int).drop_first() =~= dv.skip(i + 1));
        if str_eq(decls[i].0.as_str(), name) {
            return Some(i);
        }
        i = i + 1;
    }
    assert(dv.skip(i as int) =~= Seq::<(Seq<char>, ForeignV)>::empty());
    None
}

/// The values of some project modules.
pub open spec fn modules_view(ms: Seq<ProjectModule>) -> Seq<ProjectModuleV> {
    ms.map_values(|m: ProjectModule| m@)
}

/// The errors of the foreign calls of some modules against a manifest.
pub fn validate_foreign_calls(modules: &Vec<ProjectModule>, manifest: &Manifest) -> (ds: Vec<Diagnostic>)
    ensures
        crate::diagnostic::diagnostics_view(ds@) == foreign_diagnostics(
            all_foreign_calls(modules@.map_values(|m: ProjectModule| m@), modules@.len() as int),
            manifest@.foreign,
        ),
{
    let ghost mv = modules_view(modules@);
    let mut calls: Vec<String> = Vec::new();
    let mut k: usize = 0;
    assert(texts(calls@) =~= Seq::<Seq<char>>::empty());
    while k < modules.len()
        invariant
            k <= modules@.len(),
            mv == modules_view(modules@),
            texts(calls@) == all_foreign_calls(mv, k as int),
        decreases modules@.len() - k,
    {
        assert(mv[k as int] == modules@[k as int]@);
        text_set_union(&mut calls, &modules[k].analysis.foreign_calls);
        k = k + 1;
    }
    let ghost cv = texts(calls@);
    let mut ds: Vec<Diagnostic> = Vec::new();
    let mut i: usize = 0;
    assert(cv.take(0) =~= Seq::<Seq<char>>::empty());
    assert(crate::diagnostic::diagnostics_view(ds@) =~= Seq::<DiagnosticV>::empty());
    while i < calls.len()
        invariant
            i <= calls@.len(),
            cv == texts(calls@),
            crate::diagnostic::diagnostics_view(ds@) == foreign_diagnostics(cv.take(i as int), manifest@.foreign),
        decreases calls@.len() - i,
    {
        let c = calls[i].as_str();
        assert(cv.take(i + 1).drop_last() =~= cv.take(i as int));
        assert(cv.take(i + 1).last() == c@);
        match find_foreign_decl(&manifest.foreign, c) {
            None => {
                let m = then(then("appel étranger ".to_owned(), quote(c).as_str()), " absent du manifeste");
                let ghost before = ds@;
                let d = Diagnostic::error("RBN4201", m, Span::new(0, 0));
                ds.push(d);
                assert(crate::diagnostic::diagnostics_view(ds@) =~= crate::diagnostic::diagnostics_view(before) + seq![d@]);
            },
            Some(j) => {
                let ok = contract_ok(&manifest.foreign[j].1);
                push_when(&mut ds, !ok, "RBN4202", then("contrat ABI incomplet ou incompatible pour ".to_owned(), quote(c).as_str()));
            },
        }
        i = i + 1;
    }
    assert(cv.take(calls@.len() as int) =~= cv);
    ds
}

// ---------------------------------------------------------------------------
// The application root.

/// The index of the last dot of a text.
pub open spec fn last_dot(s: Seq<char>) -> Option<int>
    decreases s.len(),
{
    if s.len() == 0 {
        None
    } else if s.last() == '.' {
        Some(s.len() - 1)
    } else {
        last_dot(s.drop_last())
    }
}

/// The first module from index `k` whose program is named `module`.
pub open spec fn find_owner(ms: Seq<ProjectModuleV>, module: Seq<char>, k: int) -> Option<int>
    decreases ms.len() - k,
{
    if k < 0 || k >= ms.len() {
        None
    } else if ms[k].analysis.program matches Some(p) && p.module == module {
        Some(k)
    } else {
        find_owner(ms, module, k + 1)
    }
}

/// The first summary from index `k` named `name`.
pub open spec fn find_function(fs: Seq<SummaryV>, name: Seq<char>, k: int) -> Option<int>
    decreases fs.len() - k,
{
    if k < 0 || k >= fs.len() {
        None
    } else if fs[k].name == name {
        Some(k)
    } else {
        find_function(fs, name, k + 1)
    }
}

/// The same diagnostics, each about the file at `path`.
pub open spec fn about(path: Seq<char>, ds: Seq<DiagnosticV>) -> Seq<ProjectDiagnosticV> {
    ds.map_values(|d: DiagnosticV| ProjectDiagnosticV { path, diagnostic: d })
}

/// Whether a root takes one `Console` and returns `Unit`.
pub open spec fn root_signature_ok(f: SummaryV) -> bool {
    f.params.len() == 1 && f.params[0].1 == TypeV::Console && f.return_type == TypeV::Unit
}

/// The message of a root with the wrong signature.
pub open spec fn root_signature_message() -> Seq<char> {
    "la racine `app.sync-v0` doit recevoir une capacité `Console` et retourner `Unit`"@
}

/// The message of a root that writes to the console without the capability.
pub open spec fn console_capability_message() -> Seq<char> {
    "l’effet `Console.Write` exige la capacité manifeste `console.write`"@
}

/// The errors about the application root that the manifest names
/// (`module.function`, split at the last dot).
pub open spec fn entry_diagnostics(ms: Seq<ProjectModuleV>, app: AppTargetV, manifest_path: Seq<char>) -> Seq<
    ProjectDiagnosticV,
> {
    let missing = err_v("RBN5001"@, "racine "@ + quoted(app.entry) + " introuvable"@, no_span());
    match last_dot(app.entry) {
        None => about(manifest_path, seq![missing]),
        Some(d) => match find_owner(ms, app.entry.take(d), 0) {
            None => about(manifest_path, seq![missing]),
            Some(o) => {
                let owner = ms[o];
                match find_function(owner.analysis.functions, app.entry.skip(d + 1), 0) {
                    None => about(
                        owner.path,
                        seq![
                            err_v(
                                "RBN5001"@,
                                "racine "@ + quoted(app.entry) + " introuvable"@,
                                match owner.analysis.program {
                                    Some(p) => p.module_span,
                                    None => no_span(),
                                },
                            ),
                        ],
                    ),
                    Some(fi) => {
                        let f = owner.analysis.functions[fi];
                        about(
                            owner.path,
                            when(!root_signature_ok(f), err_v("RBN5002"@, root_signature_message(), f.span)) + when(
                                f.required_effects.contains("Console.Write"@) && !app.capabilities.contains(
                                    "console.write"@,
                                ),
                                err_v("RBN4101"@, console_capability_message(), f.span),
                            ),
                        )
                    },
                }
            },
        },
    }
}

fn diag_about(path: &str, d: Diagnostic) -> (r: ProjectDiagnostic)
    ensures
        r@ == (ProjectDiagnosticV { path: path@, diagnostic: d@ }),
{
    ProjectDiagnostic { path: path.to_owned(), diagnostic: d }
}

fn all_about(path: &str, ds: Vec<Diagnostic>) -> (r: Vec<ProjectDiagnostic>)
    ensures
        project_diags_view(r@) == about(path@, crate::diagnostic::diagnostics_view(ds@)),
{
    let ghost dv = crate::diagnostic::diagnostics_view(ds@);
    let mut r: Vec<ProjectDiagnostic> = Vec::new();
    let mut i: usize = 0;
    assert(project_diags_view(r@) =~= about(path@, dv.take(0)));
    while i < ds.len()
        invariant
            i <= ds@.len(),
            dv == crate::diagnostic::diagnostics_view(ds@),
            project_diags_view(r@) == about(path@, dv.take(i as int)),
        decreases ds@.len() - i,
    {
        let ghost before = r@;
        let pd = diag_about(path, ds[i].duplicate());
        r.push(pd);
        assert(dv.take(i + 1) =~= dv.take(i as int).push(dv[i as int]));
        assert(project_diags_view(r@) =~= project_diags_view(before).push(pd@));
        assert(about(path@, dv.take(i + 1)) =~= about(path@, dv.take(i as int)).push(pd@));
        i = i + 1;
    }
    assert(dv.take(ds@.len() as int) =~= dv);
    r
}

fn find_owner_exec(modules: &Vec<ProjectModule>, module: &str) -> (r: Option<usize>)
    ensures
        r matches Some(o) ==> o < modules@.len() && find_owner(modules_view(modules@), module@, 0) == Some(o as int),
        r is None ==> find_owner(modules_view(modules@), module@, 0) is None,
{
    let ghost mv = modules_view(modules@);
    let mut k: usize = 0;
    while k < modules.len()
        invariant
            k <= modules@.len(),
            mv == modules_view(modules@),
            find_owner(mv, module@, 0) == find_owner(mv, module@, k as int),
        decreases modules@.len() - k,
    {
        assert(mv[k as int] == modules@[k as int]@);
        match &modules[k].analysis.program {
            Some(p) => {
                if str_eq(p.module.as_str(), module) {
                    return Some(k);
                }
            },
            None => {},
        }
        k = k + 1;
    }
    None
}

fn find_function_exec(fs: &Vec<crate::semantic::FunctionSummary>, name: &str) -> (r: Option<usize>)
    ensures
        r matches Some(i) ==> i < fs@.len() && find_function(crate::semantic::summaries_view(fs@), name@, 0) == Some(i as int),
        r is None ==> find_function(crate::semantic::summaries_view(fs@), name@, 0) is None,
{
    let ghost sv = crate::semantic::summaries_view(fs@);
    let mut k: usize = 0;
    while k < fs.len()
        invariant
            k <= fs@.len(),
            sv == crate::semantic::summaries_view(fs@),
            find_function(sv, name@, 0) == find_function(sv, name@, k as int),
        decreases fs@.len() - k,
    {
        assert(sv[k as int] == fs@[k as int]@);
        if str_eq(fs[k].name.as_str(), name) {
            return Some(k);
        }
        k = k + 1;
    }
    None
}

/// The errors about the application root that the manifest names.
pub fn validate_application_entry(modules: &Vec<ProjectModule>, target: &AppTarget, manifest_path: &str) -> (r: Vec<
    ProjectDiagnostic,
>)
    ensures
        project_diags_view(r@) == entry_diagnostics(modules_view(modules@), target@, manifest_path@),
{
    let ghost mv = modules_view(modules@);
    let entry = target.entry.as_str();
    let missing = then(then("racine ".to_owned(), quote(entry).as_str()), " introuvable");
    let cs = chars_of(entry);
    let mut d = cs.len();
    assert(cs@.take(d as int) =~= cs@);
    while d > 0 && cs[d - 1] != '.'
        invariant
            d <= cs@.len(),
            cs@ == entry@,
            last_dot(entry@) == last_dot(entry@.take(d as int)),
        decreases d,
    {
        assert(entry@.take(d as int).drop_last() =~= entry@.take(d - 1));
        assert(entry@.take(d as int).last() == cs@[d - 1]);
        d = d - 1;
    }
    if d == 0 {
        assert(entry@.take(0) =~= Seq::<char>::empty());
        let ds = vec![Diagnostic::error("RBN5001", missing, Span::new(0, 0))];
        assert(crate::diagnostic::diagnostics_view(ds@) =~= seq![ds@[0]@]);
        return all_about(manifest_path, ds);
    }
    assert(entry@.take(d as int).last() == '.');
    let dot = d - 1;
    let module_name = crate::text::string_of(&cs, 0, dot);
    let function_name = crate::text::string_of(&cs, d, cs.len());
    assert(module_name@ =~= entry@.take(dot as int));
    assert(function_name@ =~= entry@.skip(dot + 1));
    let o = match find_owner_exec(modules, module_name.as_str()) {
        None => {
            let ds = vec![Diagnostic::error("RBN5001", missing, Span::new(0, 0))];
            assert(crate::diagnostic::diagnostics_view(ds@) =~= seq![ds@[0]@]);
            return all_about(manifest_path, ds);
        },
        Some(o) => o,
    };
    let owner = &modules[o];
    assert(mv[o as int] == owner@);
    let fi = match find_function_exec(&owner.analysis.functions, function_name.as_str()) {
        None => {
            let span = match &owner.analysis.program {
                Some(p) => p.module_span,
                None => Span::new(0, 0),
            };
            let ds = vec![Diagnostic::error("RBN5001", missing, span)];
            assert(crate::diagnostic::diagnostics_view(ds@) =~= seq![ds@[0]@]);
            return all_about(owner.path.as_str(), ds);
        },
        Some(fi) => fi,
    };
    let f = &owner.analysis.functions[fi];
    assert(crate::semantic::summaries_view(owner.analysis.functions@)[fi as int] == f@);
    let signature_ok = f.params.len() == 1 && f.params[0].1.same(&Type::Console) && f.return_type.same(&Type::Unit);
    proof {
        if f.params@.len() == 1 {
            assert(f@.params[0] == (f.params@[0].0@, f.params@[0].1@));
        }
    }
    let mut ds: Vec<Diagnostic> = Vec::new();
    assert(crate::diagnostic::diagnostics_view(ds@) =~= Seq::<DiagnosticV>::empty());
    push_when_at(
        &mut ds,
        !signature_ok,
        "RBN5002",
        "la racine `app.sync-v0` doit recevoir une capacité `Console` et retourner `Unit`".to_owned(),
        f.span,
    );
    let writes = text_set_contains(&f.required_effects, "Console.Write");
    let allowed = text_set_contains(&target.capabilities, "console.write");
    push_when_at(
        &mut ds,
        writes && !allowed,
        "RBN4101",
        "l’effet `Console.Write` exige la capacité manifeste `console.write`".to_owned(),
        f.span,
    );
    assert(crate::diagnostic::diagnostics_view(ds@) =~= Seq::<DiagnosticV>::empty() + when(
        !root_signature_ok(f@),
        err_v("RBN5002"@, root_signature_message(), f.span),
    ) + when(
        f@.required_effects.contains("Console.Write"@) && !target@.capabilities.contains("console.write"@),
        err_v("RBN4101"@, console_capability_message(), f.span),
    ));
    all_about(owner.path.as_str(), ds)
}

fn push_when_at(out: &mut Vec<Diagnostic>, cond: bool, code: &'static str, message: String, span: Span)
    ensures
        crate::diagnostic::diagnostics_view(final(out)@) == crate::diagnostic::diagnostics_view(old(out)@) + when(
            cond,
            err_v(code@, message@, span),
        ),
{
    let ghost before = out@;
    if cond {
        let d = Diagnostic::error(code, message, span);
        out.push(d);
        assert(crate::diagnostic::diagnostics_view(out@) =~= crate::diagnostic::diagnostics_view(before) + seq![d@]);
    } else {
        assert(crate::diagnostic::diagnostics_view(out@) =~= crate::diagnostic::diagnostics_view(before) + Seq::<
            DiagnosticV,
        >::empty());
    }
}

// ---------------------------------------------------------------------------
// The project.

/// The analysis of each source of a project, in the order of the sources.
pub open spec fn project_modules(p: LoadedProjectV) -> Seq<ProjectModuleV> {
    Seq::new(
        p.sources.len(),
        |i: int|
            ProjectModuleV {
                path: p.sources[i].path,
                relative_path: p.sources[i].relative_path,
                analysis: spec_analyze(p.sources[i].source),
            },
    )
}

/// What `analyze_project` answers: each module's analysis, then the errors of
/// the manifest, of the foreign calls and of the application root.
pub open spec fn spec_analyze_project(p: LoadedProjectV) -> ProjectAnalysisV {
    let modules = project_modules(p);
    ProjectAnalysisV {
        modules,
        diagnostics: about(p.manifest_path, manifest_diagnostics(p.manifest)) + about(
            p.manifest_path,
            foreign_diagnostics(all_foreign_calls(modules, modules.len() as int), p.manifest.foreign),
        ) + entry_diagnostics(modules, p.manifest.app, p.manifest_path),
    }
}

fn analyze_sources(project: &LoadedProject) -> (modules: Vec<ProjectModule>)
    requires
        forall|i: int| 0 <= i < project.sources@.len() ==> byte_len(#[trigger] project.sources@[i].source@) <= isize::MAX,
    ensures
        modules_view(modules@) == project_modules(project@),
{
    let ghost pv = project@;
    let mut modules: Vec<ProjectModule> = Vec::new();
    let mut k: usize = 0;
    while k < project.sources.len()
        invariant
            k <= project.sources@.len(),
            pv == project@,
            forall|i: int| 0 <= i < project.sources@.len() ==> byte_len(#[trigger] project.sources@[i].source@) <= isize::MAX,
            modules_view(modules@) == project_modules(pv).take(k as int),
        decreases project.sources@.len() - k,
    {
        let file = &project.sources[k];
        assert(pv.sources[k as int] == file@);
        let analysis = analyze(file.source.as_str());
        let m = ProjectModule { path: file.path.clone(), relative_path: file.relative_path.clone(), analysis };
        let ghost before = modules@;
        modules.push(m);
        assert(modules_view(modules@) =~= modules_view(before).push(m@));
        assert(project_modules(pv).take(k + 1) =~= project_modules(pv).take(k as int).push(project_modules(pv)[k as int]));
        k = k + 1;
    }
    assert(project_modules(pv).take(project.sources@.len() as int) =~= project_modules(pv));
    modules
}

/// Analyzes every source of a project and checks what spans them.
pub fn analyze_project(project: &LoadedProject) -> (r: ProjectAnalysis)
    requires
        forall|i: int| 0 <= i < project.sources@.len() ==> byte_len(#[trigger] project.sources@[i].source@) <= isize::MAX,
    ensures
        r@ == spec_analyze_project(project@),
{
    let modules = analyze_sources(project);
    let ghost mv = modules_view(modules@);
    let mut diagnostics = all_about(project.manifest_path.as_str(), validate_manifest(&project.manifest));
    let mut foreign = all_about(project.manifest_path.as_str(), validate_foreign_calls(&modules, &project.manifest));
    let mut entry = validate_application_entry(&modules, &project.manifest.target.app, project.manifest_path.as_str());
    let ghost d1 = diagnostics@;
    let ghost fv = foreign@;
    let ghost ev = entry@;
    diagnostics.append(&mut foreign);
    diagnostics.append(&mut entry);
    assert(project_diags_view(diagnostics@) =~= project_diags_view(d1) + project_diags_view(fv) + project_diags_view(ev));
    let r = ProjectAnalysis { modules, diagnostics };
    assert(r@.modules == mv);
    r
}

/// The diagnostics of the modules `ms[..k]`, each about its module's file.
pub open spec fn module_diagnostics(ms: Seq<ProjectModuleV>, k: int) -> Seq<ProjectDiagnosticV>
    decreases k,
{
    if k <= 0 || k > ms.len() {
        Seq::empty()
    } else {
        module_diagnostics(ms, k - 1) + about(ms[k - 1].path, ms[k - 1].analysis.diagnostics)
    }
}

impl ProjectAnalysis {
    /// Whether every module is valid and the project checks found nothing.
    pub fn is_valid(&self) -> (r: bool)
        ensures
            r == ((forall|i: int|
                0 <= i < self@.modules.len() ==> (#[trigger] self@.modules[i]).analysis.diagnostics.len() == 0
                    && self@.modules[i].analysis.phase == crate::semantic::Phase::Typed) && self@.diagnostics.len() == 0),
    {
        let ghost mv = self@.modules;
        let mut k: usize = 0;
        while k < self.modules.len()
            invariant
                k <= self.modules@.len(),
                mv == self@.modules,
                forall|i: int| 0 <= i < k ==> (#[trigger] mv[i]).analysis.diagnostics.len() == 0
                    && mv[i].analysis.phase == crate::semantic::Phase::Typed,
            decreases self.modules@.len() - k,
        {
            assert(mv[k as int] == self.modules@[k as int]@);
            if !self.modules[k].analysis.is_valid() {
                return false;
            }
            k = k + 1;
        }
        self.diagnostics.len() == 0
    }

    /// Every diagnostic: those of each module, about its file, then those of
    /// the project checks.
    pub fn all_diagnostics(&self) -> (r: Vec<ProjectDiagnostic>)
        ensures
            project_diags_view(r@) == module_diagnostics(self@.modules, self@.modules.len() as int) + self@.diagnostics,
    {
        let ghost mv = self@.modules;
        let mut r: Vec<ProjectDiagnostic> = Vec::new();
        let mut k: usize = 0;
        assert(project_diags_view(r@) =~= Seq::<ProjectDiagnosticV>::empty());
        while k < self.modules.len()
            invariant
                k <= self.modules@.len(),
                mv == self@.modules,
                project_diags_view(r@) == module_diagnostics(mv, k as int),
            decreases self.modules@.len() - k,
        {
            let m = &self.modules[k];
            assert(mv[k as int] == m@);
            let ghost before = r@;
            let mut part = all_about(m.path.as_str(), crate::diagnostic::duplicate_all(&m.analysis.diagnostics));
            let ghost pv = part@;
            r.append(&mut part);
            assert(project_diags_view(r@) =~= project_diags_view(before) + project_diags_view(pv));
            k = k + 1;
        }
        let ghost before = r@;
        let mut i: usize = 0;
        while i < self.diagnostics.len()
            invariant
                i <= self.diagnostics@.len(),
                project_diags_view(r@) == project_diags_view(before) + project_diags_view(self.diagnostics@).take(i as int),
            decreases self.diagnostics@.len() - i,
        {
            let d = &self.diagnostics[i];
            let ghost prev = r@;
            let copy = ProjectDiagnostic { path: d.path.clone(), diagnostic: d.diagnostic.duplicate() };
            r.push(copy);
            assert(project_diags_view(r@) =~= project_diags_view(prev).push(copy@));
            assert(project_diags_view(self.diagnostics@).take(i + 1) =~= project_diags_view(self.diagnostics@).take(i as int).push(
                d@,
            ));
            i = i + 1;
        }
        assert(project_diags_view(self.diagnostics@).take(self.diagnostics@.len() as int) =~= project_diags_view(
            self.diagnostics@,
        ));
        r
    }

    /// A copy of the analysis of each module, in order.
    pub fn analyses(&self) -> (r: Vec<Analysis>)
        ensures
            r@.len() == self@.modules.len(),
            forall|i: int| 0 <= i < r@.len() ==> (#[trigger] r@[i])@ == self@.modules[i].analysis,
    {
        let mut r: Vec<Analysis> = Vec::new();
        let mut k: usize = 0;
        while k < self.modules.len()
            invariant
                k <= self.modules@.len(),
                r@.len() == k,
                forall|i: int| 0 <= i < k ==> (#[trigger] r@[i])@ == self@.modules[i].analysis,
            decreases self.modules@.len() - k,
        {
            assert(self@.modules[k as int] == self.modules@[k as int]@);
            r.push(self.modules[k].analysis.duplicate());
            k = k + 1;
        }
        r
    }
}

/// The text of the file at `path`: the manifest, or the first source file
/// with that path.
pub open spec fn spec_source_for_path(p: LoadedProjectV, path: Seq<char>) -> Option<Seq<char>> {
    if path == p.manifest_path {
        Some(p.manifest_source)
    } else {
        first_source(p.sources, path, 0)
    }
}

/// The text of the first source from index `k` whose path is `path`.
pub open spec fn first_source(sources: Seq<SourceFileV>, path: Seq<char>, k: int) -> Option<Seq<char>>
    decreases sources.len() - k,
{
    if k < 0 || k >= sources.len() {
        None
    } else if sources[k].path == path {
        Some(sources[k].source)
    } else {
        first_source(sources, path, k + 1)
    }
}

impl LoadedProject {
    /// The text of the file at `path`, if it is the manifest or a source.
    pub fn source_for_path(&self, path: &str) -> (r: Option<&str>)
        ensures
            match spec_source_for_path(self@, path@) {
                Some(t) => r matches Some(s) && s@ == t,
                None => r is None,
            },
    {
        if str_eq(path, self.manifest_path.as_str()) {
            return Some(self.manifest_source.as_str());
        }
        let ghost sv = self@.sources;
        let mut k: usize = 0;
        while k < self.sources.len()
            invariant
                k <= self.sources@.len(),
                sv == self@.sources,
                path@ != self@.manifest_path,
                first_source(sv, path@, 0) == first_source(sv, path@, k as int),
            decreases self.sources@.len() - k,
        {
            assert(sv[k as int] == self.sources@[k as int]@);
            if str_eq(self.sources[k].path.as_str(), path) {
                return Some(self.sources[k].source.as_str());
            }
            k = k + 1;
        }
        None
    }
}

} // verus!
