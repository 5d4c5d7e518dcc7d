//! Request routing: which backend a file belongs to, and the answers the build graph gives
//! directly.
use vstd::prelude::*;
use crate::cursor::{label_reference_pattern, line_of, nth_line, opt_string_view, regex_group_spans, token_label, token_label_from, capture_spans};
use crate::graph::{BazelTarget, BuildGraph, CodeLensAction, LensCommand, list_or_empty, lens_view};
use crate::label::split_label;
use crate::text::{chars_of, ends_with, has_suffix, str_equal, texts};

verus! {

/// A language family served by one backend.
#[derive(Debug, Clone, Copy, PartialEq, Eq, Structural, Hash)]
pub enum Language {
    Go,
    TypeScript,
    Python,
    Java,
    /// No backend serves it.
    Unknown,
}

/// The text after the last `.` of `s`, or all of `s` when it holds none.
pub open spec fn last_segment(s: Seq<char>) -> Seq<char>
    decreases s.len(),
{
    if s.len() == 0 {
        s
    } else if s.last() == '.' {
        Seq::empty()
    } else {
        last_segment(s.drop_last()).push(s.last())
    }
}

/// The language family of a file extension.
pub open spec fn language_of_extension(ext: Seq<char>) -> Language {
    if ext == "go"@ {
        Language::Go
    } else if ext == "ts"@ || ext == "tsx"@ || ext == "js"@ || ext == "jsx"@ {
        Language::TypeScript
    } else if ext == "py"@ {
        Language::Python
    } else if ext == "java"@ {
        Language::Java
    } else {
        Language::Unknown
    }
}

/// The language family of a file, by the extension of its path.
pub open spec fn language_of(path: Seq<char>) -> Language {
    language_of_extension(last_segment(path))
}

/// The extension of a path: what follows its last `.`.
pub fn extension_of(path: &str) -> (r: String)
    ensures
        r@ == last_segment(path@),
{
    let cs = chars_of(path);
    let mut i: usize = cs.len();
    assert(cs@.take(i as int) =~= cs@);
    while i > 0 && cs[i - 1] != '.'
        invariant
            i <= cs@.len(),
            last_segment(cs@) == last_segment(cs@.take(i as int)) + cs@.subrange(i as int, cs@.len() as int),
        decreases i,
    {
        assert(cs@.take(i as int).drop_last() =~= cs@.take(i - 1));
        assert(cs@.subrange(i - 1, cs@.len() as int) =~= seq![cs@[i - 1]] + cs@.subrange(i as int, cs@.len() as int));
        i -= 1;
    }
    if i > 0 {
        assert(cs@.take(i as int).last() == '.');
    } else {
        assert(cs@.take(0) =~= Seq::<char>::empty());
    }
    crate::text::string_of(&cs, i, cs.len())
}

/// The language family of a file, by its extension; `Unknown` when no backend serves it.
pub fn get_language_for_uri(path: &str) -> (r: Language)
    ensures
        r == language_of(path@),
{
    let ext = extension_of(path);
    let e = ext.as_str();
    if str_equal(e, "go") {
        Language::Go
    } else if str_equal(e, "ts") || str_equal(e, "tsx") || str_equal(e, "js") || str_equal(e, "jsx") {
        Language::TypeScript
    } else if str_equal(e, "py") {
        Language::Python
    } else if str_equal(e, "java") {
        Language::Java
    } else {
        Language::Unknown
    }
}

/// The name of a language family.
pub fn language_name(l: Language) -> (r: String)
    ensures
        r@ == match l {
            Language::Go => "go"@,
            Language::TypeScript => "typescript"@,
            Language::Python => "python"@,
            Language::Java => "java"@,
            Language::Unknown => "unknown"@,
        },
{
    match l {
        Language::Go => String::from_str("go"),
        Language::TypeScript => String::from_str("typescript"),
        Language::Python => String::from_str("python"),
        Language::Java => String::from_str("java"),
        Language::Unknown => String::from_str("unknown"),
    }
}

/// The backend a request on `path` goes to: its family, when a session for it started.
pub open spec fn route_of(started: Seq<Language>, path: Seq<char>) -> Option<Language> {
    let l = language_of(path);
    if l != Language::Unknown && started.contains(l) {
        Some(l)
    } else {
        None
    }
}

/// The registry of backend sessions: the families whose session started.
pub struct LanguageCoordinator {
    started: Vec<Language>,
}

impl LanguageCoordinator {
    /// The families whose session started, in order.
    pub closed spec fn started(&self) -> Seq<Language> {
        self.started@
    }

    pub fn new() -> (r: Self)
        ensures
            r.started() == Seq::<Language>::empty(),
    {
        LanguageCoordinator { started: Vec::new() }
    }

    /// Records that the session of family `l` started; a family whose start failed is
    /// never recorded and stays absent.
    pub fn register_started(&mut self, l: Language)
        ensures
            final(self).started() == (if old(self).started().contains(l) {
                old(self).started()
            } else {
                old(self).started().push(l)
            }),
    {
        if !self.is_started(l) {
            self.started.push(l);
        }
    }

    /// Forgets every session, as at shutdown.
    pub fn clear(&mut self)
        ensures
            final(self).started() == Seq::<Language>::empty(),
    {
        self.started = Vec::new();
    }

    /// Whether the session of family `l` started.
    pub fn is_started(&self, l: Language) -> (r: bool)
        ensures
            r == self.started().contains(l),
    {
        let mut i: usize = 0;
        while i < self.started.len()
            invariant
                i <= self.started@.len(),
                forall|j: int| 0 <= j < i ==> self.started@[j] != l,
            decreases self.started@.len() - i,
        {
            if self.started[i] == l {
                assert(self.started@[i as int] == l);
                return true;
            }
            i += 1;
        }
        false
    }

    /// The backend that serves requests on `path`: none for an unknown extension or a
    /// family whose session is absent.
    pub fn route(&self, path: &str) -> (r: Option<Language>)
        ensures
            r == route_of(self.started(), path@),
    {
        let l = get_language_for_uri(path);
        if l != Language::Unknown && self.is_started(l) {
            Some(l)
        } else {
            None
        }
    }
}

/// A file whose extension no backend serves is never routed to one, whatever sessions
/// started; the request then yields no result.
pub proof fn lemma_unknown_extension_not_routed(started: Seq<Language>, path: Seq<char>)
    requires
        language_of(path) == Language::Unknown,
    ensures
        route_of(started, path) is None,
{
}

/// A backend's reply, with any transport failure turned into no result.
pub fn relay_option<T, E>(reply: Result<Option<T>, E>) -> (r: Option<T>)
    ensures
        r == match reply {
            Ok(v) => v,
            Err(_) => None,
        },
{
    match reply {
        Ok(v) => v,
        Err(_) => None,
    }
}

/// A backend's list reply, with any transport failure turned into an empty list.
pub fn relay_list<T, E>(reply: Result<Vec<T>, E>) -> (r: Vec<T>)
    ensures
        r@ == match reply {
            Ok(v) => v@,
            Err(_) => Seq::<T>::empty(),
        },
{
    match reply {
        Ok(v) => v,
        Err(_) => Vec::new(),
    }
}

/// Whether a path names a build file.
pub open spec fn is_build_path(path: Seq<char>) -> bool {
    has_suffix(path, "BUILD"@) || has_suffix(path, "BUILD.bazel"@)
}

/// Whether a path names a build file: it ends with `BUILD` or `BUILD.bazel`.
pub fn is_build_file(path: &str) -> (r: bool)
    ensures
        r == is_build_path(path@),
{
    let cs = chars_of(path);
    let a = chars_of("BUILD");
    let b = chars_of("BUILD.bazel");
    ends_with(&cs, &a) || ends_with(&cs, &b)
}

/// A completion offered in build files: a rule kind and what it declares.
#[derive(Debug, Clone)]
pub struct RuleCompletion {
    pub label: String,
    pub detail: String,
}

/// The rule kinds offered as completions in build files, with their descriptions.
pub open spec fn rule_completions() -> Seq<(Seq<char>, Seq<char>)> {
    seq![
        ("cc_library"@, "C++ library rule"@),
        ("cc_binary"@, "C++ binary rule"@),
        ("cc_test"@, "C++ test rule"@),
        ("go_library"@, "Go library rule"@),
        ("go_binary"@, "Go binary rule"@),
        ("go_test"@, "Go test rule"@),
    ]
}

/// The completions offered in build files.
pub fn build_rule_completions() -> (r: Vec<RuleCompletion>)
    ensures
        r@.map_values(|c: RuleCompletion| (c.label@, c.detail@)) == rule_completions(),
{
    let mut r: Vec<RuleCompletion> = Vec::new();
    r.push(RuleCompletion { label: String::from_str("cc_library"), detail: String::from_str("C++ library rule") });
    r.push(RuleCompletion { label: String::from_str("cc_binary"), detail: String::from_str("C++ binary rule") });
    r.push(RuleCompletion { label: String::from_str("cc_test"), detail: String::from_str("C++ test rule") });
    r.push(RuleCompletion { label: String::from_str("go_library"), detail: String::from_str("Go library rule") });
    r.push(RuleCompletion { label: String::from_str("go_binary"), detail: String::from_str("Go binary rule") });
    r.push(RuleCompletion { label: String::from_str("go_test"), detail: String::from_str("Go test rule") });
    assert(r@.map_values(|c: RuleCompletion| (c.label@, c.detail@)) =~= rule_completions());
    r
}

/// The absolute label under the cursor at (`line`, `column`) of a document's text.
pub fn extract_bazel_target(text: &str, line: u32, column: u32) -> (r: Option<String>)
    ensures
        match nth_line(text@, line as nat, 0) {
            None => r is None,
            Some(l) => opt_string_view(r) == token_label_from(
                regex_group_spans(label_reference_pattern(), 0, l),
                0,
                column as int,
                None,
            ),
        },
{
    match line_of(text, line) {
        Some(l) => match capture_spans("//[a-zA-Z0-9_/:-]+", 0, l.as_str()) {
            Some(spans) => token_label(&spans, column, None),
            None => None,
        },
        None => None,
    }
}

/// The directory of package `package` under `root`.
pub open spec fn package_dir(root: Seq<char>, package: Seq<char>) -> Seq<char> {
    if package.len() == 0 {
        root
    } else {
        root + seq!['/'] + package
    }
}

/// The build files that may declare the target of a label: `BUILD`, then `BUILD.bazel`,
/// in its package's directory under `root`; none when the label is not well formed.
pub fn build_file_candidates(root: &str, label: &str) -> (r: Vec<String>)
    ensures
        crate::label::is_label(label@) ==> texts(r@) == seq![
            package_dir(root@, crate::label::label_package(label@)) + "/BUILD"@,
            package_dir(root@, crate::label::label_package(label@)) + "/BUILD.bazel"@,
        ],
        !crate::label::is_label(label@) ==> r@.len() == 0,
{
    let mut r: Vec<String> = Vec::new();
    match split_label(label) {
        Some((package, _)) => {
            proof {
                reveal_strlit("/");
            }
            let mut dir = String::from_str(root);
            if package.unicode_len() > 0 {
                dir.append("/");
                dir.append(package.as_str());
            }
            assert(dir@ =~= package_dir(root@, package@));
            let mut a = dir.clone();
            a.append("/BUILD");
            let mut b = dir;
            b.append("/BUILD.bazel");
            r.push(a);
            r.push(b);
            assert(texts(r@) =~= seq![
                package_dir(root@, crate::label::label_package(label@)) + "/BUILD"@,
                package_dir(root@, crate::label::label_package(label@)) + "/BUILD.bazel"@,
            ]);
        },
        None => {},
    }
    r
}

/// The code lenses of a source file owned by `target`: run and debug lenses when it is a
/// test target, none otherwise.
pub fn source_file_lenses(target: &Option<BazelTarget>) -> (r: Vec<CodeLensAction>)
    ensures
        lens_view(r@) == match target {
            Some(t) => if crate::graph::is_test_kind(t.kind@) {
                seq![(LensCommand::RunTest, t.label@), (LensCommand::DebugTest, t.label@)]
            } else {
                Seq::empty()
            },
            None => Seq::empty(),
        },
{
    let mut r: Vec<CodeLensAction> = Vec::new();
    match target {
        Some(t) => {
            if t.is_test() {
                r.push(CodeLensAction { command: LensCommand::RunTest, label: t.label.clone() });
                r.push(CodeLensAction { command: LensCommand::DebugTest, label: t.label.clone() });
            }
        },
        None => {},
    }
    assert(lens_view(r@) =~= match target {
        Some(t) => if crate::graph::is_test_kind(t.kind@) {
            seq![(LensCommand::RunTest, t.label@), (LensCommand::DebugTest, t.label@)]
        } else {
            Seq::empty()
        },
        None => Seq::empty(),
    });
    r
}

/// What the graph knows of a label's dependencies.
#[derive(Debug, Clone)]
pub struct TargetDependencies {
    pub target_label: String,
    pub dependencies: Vec<String>,
    pub reverse_dependencies: Vec<String>,
    pub exists: bool,
}

/// A label's dependencies (none when it is not indexed) and recorded reverse dependents.
pub fn target_dependencies(graph: &BuildGraph, label: &str) -> (r: TargetDependencies)
    ensures
        r.target_label@ == label@,
        r.exists == graph.target_map().contains_key(label@),
        texts(r.dependencies@) == (if r.exists {
            texts(graph.target_map()[label@].deps@)
        } else {
            Seq::empty()
        }),
        texts(r.reverse_dependencies@) == list_or_empty(graph.rdep_map(), label@),
{
    let target = graph.get_target(label);
    let reverse = graph.get_reverse_dependencies(label);
    let exists = target.is_some();
    let dependencies = match target {
        Some(t) => t.deps,
        None => {
            let v: Vec<String> = Vec::new();
            assert(texts(v@) =~= Seq::<Seq<char>>::empty());
            v
        },
    };
    TargetDependencies { target_label: String::from_str(label), dependencies, reverse_dependencies: reverse, exists }
}

/// The hover text for a target: its label, kind and visibility, in Markdown.
pub fn hover_text(label: &str, kind: &str, visibility: &str) -> (r: String)
    ensures
        r@ == "**Bazel Target**: `"@ + label@ + "`\n\n**Kind**: "@ + kind@ + "\n\n**Visibility**: "@ + visibility@,
{
    let mut r = String::from_str("**Bazel Target**: `");
    r.append(label);
    r.append("`\n\n**Kind**: ");
    r.append(kind);
    r.append("\n\n**Visibility**: ");
    r.append(visibility);
    r
}

} // verus!
