//! Turns the rule calls of a build file into targets.
use vstd::prelude::*;
use crate::graph::{
    insert_all, labels_of, parent_dir, parent_of, BazelTarget, BuildGraph, SourceLocation, edges_all,
    files_all,
};
use crate::label::{label_text, make_label};
use crate::syntax::{
    args_view, calls_view, copy_strings, parse_build_text, parse_file, AttrValue, CallModel, RuleCall,
    ValueModel,
};
use crate::text::{chars_of, has_prefix, starts_with, str_equal, string_of, texts};

verus! {

/// Why a build file yields no targets.
#[derive(Debug, Clone, Copy, PartialEq, Eq, Structural)]
pub enum LoadError {
    /// The text is not a sequence of rule calls.
    Malformed,
    /// No workspace root has been set.
    NoWorkspace,
}

/// Whether `kind` is a rule kind that the index records.
pub open spec fn is_rule_kind(kind: Seq<char>) -> bool {
    kind == "cc_library"@ || kind == "cc_binary"@ || kind == "cc_test"@ || kind == "go_library"@
        || kind == "go_binary"@ || kind == "go_test"@ || kind == "py_library"@ || kind
        == "py_binary"@ || kind == "py_test"@ || kind == "java_library"@ || kind == "java_binary"@
        || kind == "java_test"@
}

/// The value of the last argument called `key`.
pub open spec fn find_arg(args: Seq<(Seq<char>, ValueModel)>, key: Seq<char>) -> Option<ValueModel>
    decreases args.len(),
{
    if args.len() == 0 {
        None
    } else if args.last().0 == key {
        Some(args.last().1)
    } else {
        find_arg(args.drop_last(), key)
    }
}

/// The target name given by a call's arguments: its last `name`, if a string.
pub open spec fn target_name(args: Seq<(Seq<char>, ValueModel)>) -> Seq<char> {
    match find_arg(args, "name"@) {
        Some(ValueModel::Text(t)) => t,
        _ => Seq::empty(),
    }
}

/// The strings of the last argument called `key`, if a list.
pub open spec fn list_arg(args: Seq<(Seq<char>, ValueModel)>, key: Seq<char>) -> Seq<Seq<char>> {
    match find_arg(args, key) {
        Some(ValueModel::List(v)) => v,
        _ => Seq::empty(),
    }
}

/// The arguments other than `name`, `srcs` and `deps`.
pub open spec fn other_args(args: Seq<(Seq<char>, ValueModel)>) -> Seq<(Seq<char>, ValueModel)>
    decreases args.len(),
{
    if args.len() == 0 {
        Seq::empty()
    } else {
        let a = args.last();
        other_args(args.drop_last()) + (if a.0 == "name"@ || a.0 == "srcs"@ || a.0 == "deps"@ {
            Seq::empty()
        } else {
            seq![a]
        })
    }
}

/// A dependency as the index records it: `:name` is resolved in `package`.
pub open spec fn resolve_dep(package: Seq<char>, dep: Seq<char>) -> Seq<char> {
    if dep.len() > 0 && dep[0] == ':' {
        seq!['/', '/'] + package + dep
    } else {
        dep
    }
}

/// Whether a call declares a target: a recorded kind with a non-empty name.
pub open spec fn declares_target(c: CallModel) -> bool {
    is_rule_kind(c.0) && target_name(c.1).len() > 0
}

/// The calls that declare targets, in order.
pub open spec fn declaring_calls(calls: Seq<CallModel>) -> Seq<CallModel>
    decreases calls.len(),
{
    if calls.len() == 0 {
        Seq::empty()
    } else {
        declaring_calls(calls.drop_last()) + (if declares_target(calls.last()) {
            seq![calls.last()]
        } else {
            Seq::empty()
        })
    }
}

/// Whether `t` is the target that call `c` of build file `file` declares in `package`.
pub open spec fn is_record_of(t: BazelTarget, c: CallModel, package: Seq<char>, file: Seq<char>) -> bool {
    &&& t.label@ == label_text(package, target_name(c.1))
    &&& t.kind@ == c.0
    &&& t.package@ == package
    &&& texts(t.srcs@) == list_arg(c.1, "srcs"@)
    &&& texts(t.deps@) == list_arg(c.1, "deps"@).map_values(|d: Seq<char>| resolve_dep(package, d))
    &&& t.location.file@ == file
    &&& t.location.line == 0
    &&& t.location.character == 0
    &&& args_view(t.attributes@) == other_args(c.1)
}

/// Whether `ts` are the targets that `calls` declare, in order.
pub open spec fn records_of(ts: Seq<BazelTarget>, calls: Seq<CallModel>, package: Seq<char>, file: Seq<char>) -> bool {
    let d = declaring_calls(calls);
    ts.len() == d.len() && forall|i: int| 0 <= i < ts.len() ==> is_record_of(#[trigger] ts[i], d[i], package, file)
}

/// The package of a build file: its directory relative to the workspace root, or the root
/// package when it lies outside the root.
pub open spec fn package_of(root: Seq<char>, file: Seq<char>) -> Seq<char> {
    let dir = parent_of(file);
    if has_prefix(dir, root + seq!['/']) {
        dir.skip(root.len() as int + 1)
    } else {
        Seq::empty()
    }
}

/// Whether `kind` is a rule kind that the index records.
pub fn is_rule_kind_name(kind: &str) -> (r: bool)
    ensures
        r == is_rule_kind(kind@),
{
    str_equal(kind, "cc_library") || str_equal(kind, "cc_binary") || str_equal(kind, "cc_test")
        || str_equal(kind, "go_library") || str_equal(kind, "go_binary") || str_equal(kind, "go_test")
        || str_equal(kind, "py_library") || str_equal(kind, "py_binary") || str_equal(kind, "py_test")
        || str_equal(kind, "java_library") || str_equal(kind, "java_binary") || str_equal(
        kind,
        "java_test",
    )
}

/// The index of the last argument called `key`.
fn find_arg_index(args: &Vec<(String, AttrValue)>, key: &str) -> (r: Option<usize>)
    ensures
        r is None ==> find_arg(args_view(args@), key@) is None,
        r matches Some(i) ==> i < args@.len() && find_arg(args_view(args@), key@) == Some(args@[i as int].1@),
{
    let mut j = args.len();
    assert(args_view(args@).take(j as int) =~= args_view(args@));
    while j > 0
        invariant
            j <= args@.len(),
            find_arg(args_view(args@).take(j as int), key@) == find_arg(args_view(args@), key@),
        decreases j,
    {
        let same = str_equal(args[j - 1].0.as_str(), key);
        assert(args_view(args@).take(j as int).drop_last() =~= args_view(args@).take(j - 1));
        assert(args_view(args@).take(j as int).last() == (args@[j - 1].0@, args@[j - 1].1@));
        if same {
            return Some(j - 1);
        }
        j -= 1;
    }
    None
}

/// The target name given by a call's arguments.
fn name_of_call(args: &Vec<(String, AttrValue)>) -> (r: String)
    ensures
        r@ == target_name(args_view(args@)),
{
    proof {
        reveal_strlit("name");
    }
    match find_arg_index(args, "name") {
        Some(i) => match &args[i].1 {
            AttrValue::Text(t) => t.clone(),
            _ => String::new(),
        },
        None => String::new(),
    }
}

/// The strings of the last argument called `key`, if a list.
fn list_of_call(args: &Vec<(String, AttrValue)>, key: &str) -> (r: Vec<String>)
    ensures
        texts(r@) == list_arg(args_view(args@), key@),
{
    match find_arg_index(args, key) {
        Some(i) => match &args[i].1 {
            AttrValue::List(v) => copy_strings(v),
            _ => Vec::new(),
        },
        None => {
            let r: Vec<String> = Vec::new();
            assert(texts(r@) =~= Seq::<Seq<char>>::empty());
            r
        },
    }
}

/// A dependency as the index records it: `:name` is resolved in `package`.
pub fn resolve_dependency(package: &str, dep: &str) -> (r: String)
    ensures
        r@ == resolve_dep(package@, dep@),
{
    proof {
        reveal_strlit("//");
    }
    let cs = chars_of(dep);
    if cs.len() > 0 && cs[0] == ':' {
        let mut r = String::from_str("//");
        r.append(package);
        r.append(dep);
        r
    } else {
        String::from_str(dep)
    }
}

/// The arguments other than `name`, `srcs` and `deps`.
fn other_args_of(args: &Vec<(String, AttrValue)>) -> (r: Vec<(String, AttrValue)>)
    ensures
        args_view(r@) == other_args(args_view(args@)),
{
    proof {
        reveal_strlit("name");
        reveal_strlit("srcs");
        reveal_strlit("deps");
    }
    let mut r: Vec<(String, AttrValue)> = Vec::new();
    let mut i: usize = 0;
    assert(args_view(r@) =~= other_args(args_view(args@).take(0)));
    while i < args.len()
        invariant
            i <= args@.len(),
            args_view(r@) == other_args(args_view(args@).take(i as int)),
        decreases args@.len() - i,
    {
        let name = &args[i].0;
        let skip = str_equal(name.as_str(), "name") || str_equal(name.as_str(), "srcs") || str_equal(
            name.as_str(),
            "deps",
        );
        assert(args_view(args@).take(i + 1).drop_last() =~= args_view(args@).take(i as int));
        assert(args_view(args@).take(i + 1).last() == (args@[i as int].0@, args@[i as int].1@));
        if !skip {
            let ghost before = args_view(r@);
            r.push((name.clone(), args[i].1.duplicate()));
            assert(args_view(r@) =~= before.push((args@[i as int].0@, args@[i as int].1@)));
        } else {
            assert(args_view(r@) =~= other_args(args_view(args@).take(i + 1)));
        }
        i += 1;
    }
    assert(args_view(args@).take(i as int) =~= args_view(args@));
    r
}

/// The target that a call declaring one declares in `package` of build file `file`.
fn record_of_call(c: &RuleCall, package: &str, file: &str) -> (r: BazelTarget)
    ensures
        is_record_of(r, c@, package@, file@),
{
    proof {
        reveal_strlit("srcs");
        reveal_strlit("deps");
    }
    let name = name_of_call(&c.args);
    let srcs = list_of_call(&c.args, "srcs");
    let written = list_of_call(&c.args, "deps");
    let mut deps: Vec<String> = Vec::new();
    let mut i: usize = 0;
    while i < written.len()
        invariant
            i <= written@.len(),
            deps@.len() == i,
            forall|j: int| 0 <= j < i ==> deps@[j]@ == resolve_dep(package@, written@[j]@),
        decreases written@.len() - i,
    {
        deps.push(resolve_dependency(package, written[i].as_str()));
        i += 1;
    }
    assert(texts(deps@) =~= texts(written@).map_values(|d: Seq<char>| resolve_dep(package@, d)));
    BazelTarget {
        label: make_label(package, name.as_str()),
        kind: c.kind.clone(),
        package: String::from_str(package),
        srcs,
        deps,
        location: SourceLocation { file: String::from_str(file), line: 0, character: 0 },
        attributes: other_args_of(&c.args),
    }
}

/// The targets that `calls` of build file `file` declare in `package`, in order: one for
/// each call of a recorded kind with a non-empty name.
pub fn targets_of_calls(calls: &Vec<RuleCall>, package: &str, file: &str) -> (r: Vec<BazelTarget>)
    ensures
        records_of(r@, calls_view(calls@), package@, file@),
{
    let mut r: Vec<BazelTarget> = Vec::new();
    let mut i: usize = 0;
    while i < calls.len()
        invariant
            i <= calls@.len(),
            records_of(r@, calls_view(calls@).take(i as int), package@, file@),
        decreases calls@.len() - i,
    {
        let c = &calls[i];
        let ghost prev = declaring_calls(calls_view(calls@).take(i as int));
        assert(calls_view(calls@).take(i + 1).drop_last() =~= calls_view(calls@).take(i as int));
        assert(calls_view(calls@).take(i + 1).last() == c@);
        let keep = is_rule_kind_name(c.kind.as_str()) && {
            let name = name_of_call(&c.args);
            name.unicode_len() > 0
        };
        if keep {
            let t = record_of_call(c, package, file);
            r.push(t);
            assert(declaring_calls(calls_view(calls@).take(i + 1)) =~= prev.push(c@));
        } else {
            assert(declaring_calls(calls_view(calls@).take(i + 1)) =~= prev);
        }
        i += 1;
    }
    assert(calls_view(calls@).take(i as int) =~= calls_view(calls@));
    r
}

/// The package of build file `file` in the workspace at `root`.
pub fn package_of_file(root: &str, file: &str) -> (r: String)
    ensures
        r@ == package_of(root@, file@),
{
    proof {
        reveal_strlit("/");
    }
    let dir = chars_of(parent_dir(file).as_str());
    let mut prefix = String::from_str(root);
    prefix.append("/");
    let pre = chars_of(prefix.as_str());
    assert(pre@ =~= root@ + seq!['/']);
    if starts_with(&dir, &pre) {
        let r = string_of(&dir, pre.len(), dir.len());
        assert(r@ =~= dir@.skip(root@.len() as int + 1));
        r
    } else {
        String::new()
    }
}

/// The targets of a build file of the workspace at `root`, or why there are none.
pub fn parse_build_file(root: &str, file: &str, text: &str) -> (r: Result<Vec<BazelTarget>, LoadError>)
    ensures
        r is Err <==> parse_file(text@) is None,
        r is Err ==> r == Err::<Vec<BazelTarget>, LoadError>(LoadError::Malformed),
        r matches Ok(ts) ==> records_of(ts@, parse_file(text@).unwrap(), package_of(root@, file@), file@),
{
    match parse_build_text(text) {
        Some(calls) => {
            let package = package_of_file(root, file);
            Ok(targets_of_calls(&calls, package.as_str(), file))
        },
        None => Err(LoadError::Malformed),
    }
}

impl BuildGraph {
    /// Reads one build file again: its targets replace those of the same labels, and no
    /// other label changes. Labels that the file no longer declares stay.
    pub fn update_build_file(&mut self, file: &str, text: &str) -> (r: Result<usize, LoadError>)
        requires
            old(self).wf(),
        ensures
            final(self).wf(),
            old(self).root() is None ==> r == Err::<usize, LoadError>(LoadError::NoWorkspace) && *final(self) == *old(self),
            old(self).root() is Some && parse_file(text@) is None ==> r == Err::<usize, LoadError>(LoadError::Malformed)
                && *final(self) == *old(self),
            old(self).root() is Some && parse_file(text@) is Some ==> r is Ok && exists|ts: Seq<BazelTarget>|
                #![trigger insert_all(old(self).target_map(), ts)]
                records_of(ts, parse_file(text@).unwrap(), package_of(old(self).root().unwrap(), file@), file@)
                    && r == Ok::<usize, LoadError>(ts.len() as usize)
                    && final(self).target_map() == insert_all(old(self).target_map(), ts)
                    && final(self).rdep_map() == edges_all(old(self).rdep_map(), ts)
                    && final(self).file_map() == files_all(old(self).file_map(), ts)
                    && final(self).root() == old(self).root(),
    {
        let root = match self.workspace_root() {
            Some(root) => root,
            None => {
                return Err(LoadError::NoWorkspace);
            },
        };
        match parse_build_file(root.as_str(), file, text) {
            Ok(ts) => {
                let n = ts.len();
                let ghost tv = ts@;
                self.load_targets(ts);
                assert(insert_all(old(self).target_map(), tv) == self.target_map());
                Ok(n)
            },
            Err(e) => Err(e),
        }
    }
}

/// The labels of the targets that `calls` declare in `package`.
pub open spec fn declared_labels(calls: Seq<CallModel>, package: Seq<char>) -> Set<Seq<char>> {
    Set::new(|l: Seq<char>| exists|i: int|
        0 <= i < declaring_calls(calls).len() && l == label_text(package, target_name(declaring_calls(calls)[i].1)))
}

/// Each call of a recorded kind with a non-empty name yields exactly one target, labelled
/// `//package:name` (`//:name` in the root package); so reading the same build file twice
/// gives the same labels, and the index built from it holds exactly those labels.
pub proof fn lemma_declared_labels(
    ts: Seq<BazelTarget>,
    calls: Seq<CallModel>,
    package: Seq<char>,
    file: Seq<char>,
)
    requires
        records_of(ts, calls, package, file),
    ensures
        ts.len() == declaring_calls(calls).len(),
        forall|i: int| 0 <= i < ts.len() ==> #[trigger] ts[i].label@ == label_text(package, target_name(declaring_calls(calls)[i].1)),
        labels_of(ts) == declared_labels(calls, package),
        insert_all(Map::empty(), ts).dom() == declared_labels(calls, package),
{
    assert forall|l: Seq<char>| labels_of(ts).contains(l) <==> declared_labels(calls, package).contains(l) by {
        if labels_of(ts).contains(l) {
            let i = choose|i: int| 0 <= i < ts.len() && ts[i].label@ == l;
            assert(is_record_of(ts[i], declaring_calls(calls)[i], package, file));
        }
        if declared_labels(calls, package).contains(l) {
            let i = choose|i: int| 0 <= i < declaring_calls(calls).len() && l == label_text(package, target_name(declaring_calls(calls)[i].1));
            assert(is_record_of(ts[i], declaring_calls(calls)[i], package, file));
        }
    }
    assert(labels_of(ts) =~= declared_labels(calls, package));
    crate::graph::lemma_insert_all_domain(Map::empty(), ts);
    assert(Map::<Seq<char>, BazelTarget>::empty().dom().union(labels_of(ts)) =~= labels_of(ts));
}

/// The targets of several build files, one file after another.
pub open spec fn flatten_targets(fs: Seq<Seq<BazelTarget>>) -> Seq<BazelTarget>
    decreases fs.len(),
{
    if fs.len() == 0 {
        Seq::empty()
    } else {
        flatten_targets(fs.drop_last()) + fs.last()
    }
}

proof fn lemma_labels_of_concat(a: Seq<BazelTarget>, b: Seq<BazelTarget>)
    ensures
        labels_of(a + b) == labels_of(a).union(labels_of(b)),
{
    assert forall|l: Seq<char>| labels_of(a + b).contains(l) <==> labels_of(a).union(labels_of(b)).contains(l) by {
        if labels_of(a + b).contains(l) {
            let i = choose|i: int| 0 <= i < (a + b).len() && (a + b)[i].label@ == l;
            if i < a.len() {
                assert(a[i].label@ == l);
            } else {
                assert(b[i - a.len()].label@ == l);
            }
        }
        if labels_of(a).contains(l) {
            let i = choose|i: int| 0 <= i < a.len() && a[i].label@ == l;
            assert((a + b)[i].label@ == l);
        }
        if labels_of(b).contains(l) {
            let i = choose|i: int| 0 <= i < b.len() && b[i].label@ == l;
            assert((a + b)[a.len() + i].label@ == l);
        }
    }
    assert(labels_of(a + b) =~= labels_of(a).union(labels_of(b)));
}

proof fn lemma_flatten_labels(fs1: Seq<Seq<BazelTarget>>, fs2: Seq<Seq<BazelTarget>>)
    requires
        fs1.len() == fs2.len(),
        forall|i: int| 0 <= i < fs1.len() ==> labels_of(#[trigger] fs1[i]) == labels_of(fs2[i]),
    ensures
        labels_of(flatten_targets(fs1)) == labels_of(flatten_targets(fs2)),
    decreases fs1.len(),
{
    if fs1.len() > 0 {
        lemma_flatten_labels(fs1.drop_last(), fs2.drop_last());
        lemma_labels_of_concat(flatten_targets(fs1.drop_last()), fs1.last());
        lemma_labels_of_concat(flatten_targets(fs2.drop_last()), fs2.last());
        assert(labels_of(fs1[fs1.len() - 1]) == labels_of(fs2[fs2.len() - 1]));
    }
}

/// Scanning a workspace again, where each build file declares the same labels as before
/// (as reading an unchanged file does), indexes exactly the same labels.
pub proof fn lemma_rescan_same_labels(fs1: Seq<Seq<BazelTarget>>, fs2: Seq<Seq<BazelTarget>>)
    requires
        fs1.len() == fs2.len(),
        forall|i: int| 0 <= i < fs1.len() ==> labels_of(#[trigger] fs1[i]) == labels_of(fs2[i]),
    ensures
        insert_all(Map::empty(), flatten_targets(fs1)).dom() == insert_all(Map::empty(), flatten_targets(fs2)).dom(),
{
    lemma_flatten_labels(fs1, fs2);
    crate::graph::lemma_insert_all_domain(Map::empty(), flatten_targets(fs1));
    crate::graph::lemma_insert_all_domain(Map::empty(), flatten_targets(fs2));
    assert(Map::<Seq<char>, BazelTarget>::empty().dom().union(labels_of(flatten_targets(fs1))) =~= labels_of(
        flatten_targets(fs1),
    ));
    assert(Map::<Seq<char>, BazelTarget>::empty().dom().union(labels_of(flatten_targets(fs2))) =~= labels_of(
        flatten_targets(fs2),
    ));
}

/// The labels that build files declare, one file after another: file `i` holds the calls
/// `calls[i]` in package `packages[i]`.
pub open spec fn workspace_labels(calls: Seq<Seq<CallModel>>, packages: Seq<Seq<char>>) -> Set<Seq<char>>
    decreases calls.len(),
{
    if calls.len() == 0 || packages.len() == 0 {
        Set::empty()
    } else {
        workspace_labels(calls.drop_last(), packages.drop_last()).union(
            declared_labels(calls.last(), packages.last()),
        )
    }
}

/// Scanning build files, file `i` holding the calls `calls[i]` in package `packages[i]`,
/// indexes exactly the labels `//package:name` of their calls of a recorded kind with a
/// non-empty name, and nothing the index held before.
pub proof fn lemma_scan_labels(
    fs: Seq<Seq<BazelTarget>>,
    calls: Seq<Seq<CallModel>>,
    packages: Seq<Seq<char>>,
    files: Seq<Seq<char>>,
)
    requires
        fs.len() == calls.len(),
        fs.len() == packages.len(),
        fs.len() == files.len(),
        forall|i: int| 0 <= i < fs.len() ==> records_of(#[trigger] fs[i], calls[i], packages[i], files[i]),
    ensures
        insert_all(Map::empty(), flatten_targets(fs)).dom() == workspace_labels(calls, packages),
    decreases fs.len(),
{
    lemma_flatten_is_workspace(fs, calls, packages, files);
    crate::graph::lemma_insert_all_domain(Map::empty(), flatten_targets(fs));
    assert(Map::<Seq<char>, BazelTarget>::empty().dom().union(labels_of(flatten_targets(fs))) =~= labels_of(
        flatten_targets(fs),
    ));
}

proof fn lemma_flatten_is_workspace(
    fs: Seq<Seq<BazelTarget>>,
    calls: Seq<Seq<CallModel>>,
    packages: Seq<Seq<char>>,
    files: Seq<Seq<char>>,
)
    requires
        fs.len() == calls.len(),
        fs.len() == packages.len(),
        fs.len() == files.len(),
        forall|i: int| 0 <= i < fs.len() ==> records_of(#[trigger] fs[i], calls[i], packages[i], files[i]),
    ensures
        labels_of(flatten_targets(fs)) == workspace_labels(calls, packages),
    decreases fs.len(),
{
    if fs.len() == 0 {
        assert(labels_of(flatten_targets(fs)) =~= Set::<Seq<char>>::empty());
    } else {
        let n = fs.len() - 1;
        assert forall|i: int| 0 <= i < fs.drop_last().len() implies records_of(
            #[trigger] fs.drop_last()[i],
            calls.drop_last()[i],
            packages.drop_last()[i],
            files.drop_last()[i],
        ) by {
            assert(records_of(fs[i], calls[i], packages[i], files[i]));
        }
        lemma_flatten_is_workspace(fs.drop_last(), calls.drop_last(), packages.drop_last(), files.drop_last());
        assert(records_of(fs[n], calls[n], packages[n], files[n]));
        lemma_declared_labels(fs[n], calls[n], packages[n], files[n]);
        lemma_labels_of_concat(flatten_targets(fs.drop_last()), fs.last());
    }
}

/// The `/`-separated segments of a path from position `i`, each ending before the next
/// `/` or at the end.
pub open spec fn segments_from(s: Seq<char>, i: int) -> Seq<Seq<char>>
    decreases s.len() - i,
{
    if i < 0 || i > s.len() {
        Seq::empty()
    } else {
        match crate::syntax::quote_close(s, i, '/') {
            Some(e) => if e < i || e >= s.len() {
                Seq::empty()
            } else {
                seq![s.subrange(i, e)] + segments_from(s, e + 1)
            },
            None => seq![s.subrange(i, s.len() as int)],
        }
    }
}

/// Whether a path segment is a build-output directory: `bazel-*` or `.bazel`.
pub open spec fn is_output_segment(seg: Seq<char>) -> bool {
    has_prefix(seg, "bazel-"@) || seg == ".bazel"@
}

/// Whether a path is a build file that a scan reads: its last segment is `BUILD` or
/// `BUILD.bazel`, and none of its segments is a build-output directory.
pub open spec fn is_scanned_build_path(path: Seq<char>) -> bool {
    let segs = segments_from(path, 0);
    &&& segs.len() > 0
    &&& (segs.last() == "BUILD"@ || segs.last() == "BUILD.bazel"@)
    &&& forall|k: int| 0 <= k < segs.len() ==> !is_output_segment(#[trigger] segs[k])
}

/// Whether a path segment is a build-output directory.
fn output_segment(cs: &Vec<char>, a: usize, b: usize) -> (r: bool)
    requires
        a <= b <= cs@.len(),
    ensures
        r == is_output_segment(cs@.subrange(a as int, b as int)),
{
    let seg = string_of(cs, a, b);
    let sc = chars_of(seg.as_str());
    let prefix = chars_of("bazel-");
    starts_with(&sc, &prefix) || str_equal(seg.as_str(), ".bazel")
}

/// Whether a scan reads the file at `path`: a `BUILD` or `BUILD.bazel` file outside any
/// build-output directory (`bazel-*` or `.bazel`).
pub fn is_scanned_build_file(path: &str) -> (r: bool)
    ensures
        r == is_scanned_build_path(path@),
{
    let cs = chars_of(path);
    let ghost all = segments_from(cs@, 0);
    let mut i: usize = 0;
    let mut ok = true;
    let ghost mut done: Seq<Seq<char>> = Seq::empty();
    loop
        invariant
            i <= cs@.len(),
            cs@ == path@,
            all == segments_from(cs@, 0),
            all == done + segments_from(cs@, i as int),
            ok == forall|k: int| 0 <= k < done.len() ==> !is_output_segment(#[trigger] done[k]),
        decreases cs@.len() - i,
    {
        let mut e = i;
        while e < cs.len() && cs[e] != '/'
            invariant
                i <= e <= cs@.len(),
                crate::syntax::quote_close(cs@, e as int, '/') == crate::syntax::quote_close(cs@, i as int, '/'),
            decreases cs@.len() - e,
        {
            e += 1;
        }
        let bad = output_segment(&cs, i, e);
        let ghost seg = cs@.subrange(i as int, e as int);
        let ghost prev = done;
        proof {
            done = done.push(seg);
        }
        if bad {
            ok = false;
            assert(!(forall|k: int| 0 <= k < done.len() ==> !is_output_segment(#[trigger] done[k]))) by {
                assert(done[done.len() - 1] == seg);
            }
        } else {
            assert((forall|k: int| 0 <= k < done.len() ==> !is_output_segment(#[trigger] done[k])) == ok) by {
                if ok {
                    assert forall|k: int| 0 <= k < done.len() implies !is_output_segment(#[trigger] done[k]) by {
                        if k < prev.len() {
                            assert(done[k] == prev[k]);
                        }
                    }
                } else {
                    let k = choose|k: int| 0 <= k < prev.len() && is_output_segment(#[trigger] prev[k]);
                    assert(done[k] == prev[k]);
                }
            }
        }
        if e == cs.len() {
            assert(segments_from(cs@, i as int) =~= seq![seg]);
            assert(all =~= done);
            assert(all.last() == seg);
            let name = string_of(&cs, i, e);
            let is_build = str_equal(name.as_str(), "BUILD") || str_equal(name.as_str(), "BUILD.bazel");
            return ok && is_build;
        }
        assert(segments_from(cs@, i as int) =~= seq![seg] + segments_from(cs@, e + 1));
        assert(all =~= done + segments_from(cs@, e + 1));
        i = e + 1;
    }
}

} // verus!
