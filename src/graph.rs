//! The build graph: targets by label, owning targets by source file, and reverse
//! dependency edges.
use vstd::prelude::*;
use crate::syntax::AttrValue;
use crate::store::{
    list_at, list_entries, list_targets, new_list_map, new_target_map, push_to_list, put_target,
    count_targets, find_target, target_entries, ListMap, TargetMap,
};
use crate::text::{chars_of, ends_with, str_equal, string_of, texts};

verus! {

/// Where a target is declared: its build file and a position in it.
#[derive(Debug, Clone)]
pub struct SourceLocation {
    pub file: String,
    pub line: u32,
    pub character: u32,
}

impl SourceLocation {
    /// A copy of this location.
    pub fn duplicate(&self) -> (r: SourceLocation)
        ensures
            r == *self,
    {
        SourceLocation { file: self.file.clone(), line: self.line, character: self.character }
    }
}

/// One target of the build graph.
#[derive(Debug, Clone)]
pub struct BazelTarget {
    pub label: String,
    pub kind: String,
    pub package: String,
    pub srcs: Vec<String>,
    pub deps: Vec<String>,
    pub location: SourceLocation,
    /// The arguments other than `name`, `srcs` and `deps`, as written.
    pub attributes: Vec<(String, AttrValue)>,
}

/// The suffix that marks a test rule kind.
pub open spec fn test_suffix() -> Seq<char> {
    seq!['_', 't', 'e', 's', 't']
}

/// Whether a rule kind names a test rule.
pub open spec fn is_test_kind(kind: Seq<char>) -> bool {
    crate::text::has_suffix(kind, test_suffix())
}

impl BazelTarget {
    /// Whether this is a test target: its kind ends with `_test`.
    pub fn is_test(&self) -> (r: bool)
        ensures
            r == is_test_kind(self.kind@),
    {
        proof {
            reveal_strlit("_test");
        }
        let kind = chars_of(self.kind.as_str());
        let suffix = chars_of("_test");
        assert(suffix@ =~= test_suffix());
        ends_with(&kind, &suffix)
    }
}

/// The directory part of a path: what precedes its last `/`, or nothing.
pub open spec fn parent_of(path: Seq<char>) -> Seq<char>
    decreases path.len(),
{
    if path.len() == 0 {
        path
    } else if path.last() == '/' {
        path.drop_last()
    } else {
        parent_of(path.drop_last())
    }
}

/// The path of source `src` of a target declared in directory `dir`.
pub open spec fn source_path(dir: Seq<char>, src: Seq<char>) -> Seq<char> {
    if dir.len() == 0 {
        src
    } else {
        dir + seq!['/'] + src
    }
}

/// Appends `v` to the list under `k`, which starts empty.
pub open spec fn push_one(
    m: Map<Seq<char>, Seq<Seq<char>>>,
    k: Seq<char>,
    v: Seq<char>,
) -> Map<Seq<char>, Seq<Seq<char>>> {
    m.insert(k, (if m.contains_key(k) { m[k] } else { Seq::empty() }).push(v))
}

/// Appends `v` to the list under each of `ks`, in order.
pub open spec fn push_each(
    m: Map<Seq<char>, Seq<Seq<char>>>,
    ks: Seq<Seq<char>>,
    v: Seq<char>,
) -> Map<Seq<char>, Seq<Seq<char>>>
    decreases ks.len(),
{
    if ks.len() == 0 {
        m
    } else {
        push_one(push_each(m, ks.drop_last(), v), ks.last(), v)
    }
}

/// The source paths of a target, as the file index keys them.
pub open spec fn source_paths(t: BazelTarget) -> Seq<Seq<char>> {
    texts(t.srcs@).map_values(|s: Seq<char>| source_path(parent_of(t.location.file@), s))
}

/// The targets map after inserting each of `ts` under its label, in order.
pub open spec fn insert_all(m: Map<Seq<char>, BazelTarget>, ts: Seq<BazelTarget>) -> Map<
    Seq<char>,
    BazelTarget,
>
    decreases ts.len(),
{
    if ts.len() == 0 {
        m
    } else {
        insert_all(m, ts.drop_last()).insert(ts.last().label@, ts.last())
    }
}

/// The reverse-dependency map after recording the edges of each of `ts`, in order.
pub open spec fn edges_all(m: Map<Seq<char>, Seq<Seq<char>>>, ts: Seq<BazelTarget>) -> Map<
    Seq<char>,
    Seq<Seq<char>>,
>
    decreases ts.len(),
{
    if ts.len() == 0 {
        m
    } else {
        push_each(edges_all(m, ts.drop_last()), texts(ts.last().deps@), ts.last().label@)
    }
}

/// The file index after recording the sources of each of `ts`, in order.
pub open spec fn files_all(m: Map<Seq<char>, Seq<Seq<char>>>, ts: Seq<BazelTarget>) -> Map<
    Seq<char>,
    Seq<Seq<char>>,
>
    decreases ts.len(),
{
    if ts.len() == 0 {
        m
    } else {
        push_each(files_all(m, ts.drop_last()), source_paths(ts.last()), ts.last().label@)
    }
}

/// The labels of a sequence of targets.
pub open spec fn labels_of(ts: Seq<BazelTarget>) -> Set<Seq<char>> {
    Set::new(|l: Seq<char>| exists|i: int| 0 <= i < ts.len() && ts[i].label@ == l)
}

/// The directory part of a path.
pub fn parent_dir(path: &str) -> (r: String)
    ensures
        r@ == parent_of(path@),
{
    let cs = chars_of(path);
    let mut i: usize = cs.len();
    assert(cs@.take(i as int) =~= cs@);
    while i > 0 && cs[i - 1] != '/'
        invariant
            i <= cs@.len(),
            parent_of(cs@) == parent_of(cs@.take(i as int)),
        decreases i,
    {
        assert(cs@.take(i as int).drop_last() =~= cs@.take(i - 1));
        i -= 1;
    }
    if i == 0 {
        assert(cs@.take(0) =~= Seq::<char>::empty());
        return string_of(&cs, 0, 0);
    }
    assert(cs@.take(i as int).drop_last() =~= cs@.take(i - 1));
    assert(cs@.subrange(0, i - 1) =~= cs@.take(i - 1));
    string_of(&cs, 0, i - 1)
}

/// The path of source `src` of a target declared in directory `dir`.
pub fn join_source_path(dir: &str, src: &str) -> (r: String)
    ensures
        r@ == source_path(dir@, src@),
{
    proof {
        reveal_strlit("/");
    }
    if dir.unicode_len() == 0 {
        return String::from_str(src);
    }
    let mut p = String::from_str(dir);
    p.append("/");
    p.append(src);
    p
}

proof fn lemma_push_each_contains(
    m: Map<Seq<char>, Seq<Seq<char>>>,
    ks: Seq<Seq<char>>,
    v: Seq<char>,
    j: int,
)
    requires
        0 <= j < ks.len(),
    ensures
        push_each(m, ks, v).contains_key(ks[j]),
        push_each(m, ks, v)[ks[j]].contains(v),
    decreases ks.len(),
{
    let p = push_each(m, ks.drop_last(), v);
    let l = (if p.contains_key(ks.last()) { p[ks.last()] } else { Seq::empty() }).push(v);
    if j == ks.len() - 1 {
        assert(l[l.len() - 1] == v);
    } else {
        lemma_push_each_contains(m, ks.drop_last(), v, j);
        let k = ks[j];
        if k == ks.last() {
            let i = choose|i: int| 0 <= i < p[k].len() && p[k][i] == v;
            assert(l[i] == v);
        }
    }
}

proof fn lemma_push_each_origin(
    m: Map<Seq<char>, Seq<Seq<char>>>,
    ks: Seq<Seq<char>>,
    v: Seq<char>,
    l: Seq<char>,
    i: int,
)
    requires
        push_each(m, ks, v).contains_key(l),
        0 <= i < push_each(m, ks, v)[l].len(),
    ensures
        (m.contains_key(l) && i < m[l].len() && push_each(m, ks, v)[l][i] == m[l][i]) || (
        push_each(m, ks, v)[l][i] == v && ks.contains(l)),
    decreases ks.len(),
{
    if ks.len() > 0 {
        let p = push_each(m, ks.drop_last(), v);
        if l == ks.last() {
            assert(ks[ks.len() - 1] == l);
            if p.contains_key(l) && i < p[l].len() {
                lemma_push_each_origin(m, ks.drop_last(), v, l, i);
                if !(m.contains_key(l) && i < m[l].len() && p[l][i] == m[l][i]) {
                    let x = choose|x: int| 0 <= x < ks.drop_last().len() && ks.drop_last()[x] == l;
                    assert(ks[x] == l);
                }
            }
        } else {
            lemma_push_each_origin(m, ks.drop_last(), v, l, i);
            if !(m.contains_key(l) && i < m[l].len() && p[l][i] == m[l][i]) {
                let x = choose|x: int| 0 <= x < ks.drop_last().len() && ks.drop_last()[x] == l;
                assert(ks[x] == l);
            }
        }
    }
}

proof fn lemma_push_each_keeps(
    m: Map<Seq<char>, Seq<Seq<char>>>,
    ks: Seq<Seq<char>>,
    v: Seq<char>,
    k: Seq<char>,
    x: Seq<char>,
)
    requires
        m.contains_key(k),
        m[k].contains(x),
    ensures
        push_each(m, ks, v).contains_key(k),
        push_each(m, ks, v)[k].contains(x),
    decreases ks.len(),
{
    if ks.len() > 0 {
        lemma_push_each_keeps(m, ks.drop_last(), v, k, x);
        let p = push_each(m, ks.drop_last(), v);
        if k == ks.last() {
            let i = choose|i: int| 0 <= i < p[k].len() && p[k][i] == x;
            assert(p[k].push(v)[i] == x);
        }
    }
}

proof fn lemma_empty_when_no_keys<V>(m: Map<Seq<char>, V>)
    requires
        m.dom().finite(),
        m.dom().len() == 0,
    ensures
        m =~= Map::empty(),
{
    assert forall|k: Seq<char>| !m.contains_key(k) by {
        if m.contains_key(k) {
            vstd::set::axiom_set_contains_len(m.dom(), k);
        }
    }
}

/// What a code lens asks the editor to run on a target.
#[derive(Debug, Clone, Copy, PartialEq, Eq, Structural)]
pub enum LensCommand {
    Build,
    Test,
    RunTest,
    DebugTest,
}

/// A code lens: a command on one target.
#[derive(Debug, Clone)]
pub struct CodeLensAction {
    pub command: LensCommand,
    pub label: String,
}

/// The command and label text of each lens.
pub open spec fn lens_view(v: Seq<CodeLensAction>) -> Seq<(LensCommand, Seq<char>)> {
    v.map_values(|a: CodeLensAction| (a.command, a.label@))
}

/// The lenses of a build file's targets, in order: a build lens for each, followed by a
/// test lens for each test target.
pub open spec fn lenses_of(ts: Seq<BazelTarget>) -> Seq<(LensCommand, Seq<char>)>
    decreases ts.len(),
{
    if ts.len() == 0 {
        Seq::empty()
    } else {
        let t = ts.last();
        let own = if is_test_kind(t.kind@) {
            seq![(LensCommand::Build, t.label@), (LensCommand::Test, t.label@)]
        } else {
            seq![(LensCommand::Build, t.label@)]
        };
        lenses_of(ts.drop_last()) + own
    }
}

/// Whether `ts` lists the targets of `m` once each, in some order.
pub open spec fn is_listing(m: Map<Seq<char>, BazelTarget>, ts: Seq<BazelTarget>) -> bool {
    &&& forall|i: int|
        0 <= i < ts.len() ==> #[trigger] m.contains_key(ts[i].label@) && m[ts[i].label@] == ts[i]
    &&& forall|k: Seq<char>| #[trigger] m.contains_key(k) ==> exists|i: int| 0 <= i < ts.len() && ts[i].label@ == k
    &&& forall|i: int, j: int| 0 <= i < j < ts.len() ==> ts[i].label@ != ts[j].label@
}

/// The targets of `m` declared in `file`.
pub open spec fn declared_in(m: Map<Seq<char>, BazelTarget>, file: Seq<char>) -> Map<Seq<char>, BazelTarget> {
    m.restrict(Set::new(|k: Seq<char>| m.contains_key(k) && m[k].location.file@ == file))
}

/// The declaration sites of the stored targets among `ds`, in order.
pub open spec fn dependent_sites(m: Map<Seq<char>, BazelTarget>, ds: Seq<Seq<char>>) -> Seq<SourceLocation>
    decreases ds.len(),
{
    if ds.len() == 0 {
        Seq::empty()
    } else {
        dependent_sites(m, ds.drop_last()) + (if m.contains_key(ds.last()) {
            seq![m[ds.last()].location]
        } else {
            Seq::empty()
        })
    }
}

/// The declaration sites of the targets among `ts` that list `label` among their sources.
pub open spec fn source_sites(ts: Seq<BazelTarget>, label: Seq<char>) -> Seq<SourceLocation>
    decreases ts.len(),
{
    if ts.len() == 0 {
        Seq::empty()
    } else {
        source_sites(ts.drop_last(), label) + (if texts(ts.last().srcs@).contains(label) {
            seq![ts.last().location]
        } else {
            Seq::empty()
        })
    }
}

/// The code lenses of the given targets: build for each, and test for test targets.
pub fn code_lenses_for_targets(ts: &Vec<BazelTarget>) -> (r: Vec<CodeLensAction>)
    ensures
        lens_view(r@) == lenses_of(ts@),
{
    let mut r: Vec<CodeLensAction> = Vec::new();
    let mut i: usize = 0;
    while i < ts.len()
        invariant
            i <= ts@.len(),
            lens_view(r@) == lenses_of(ts@.take(i as int)),
        decreases ts@.len() - i,
    {
        let t = &ts[i];
        r.push(CodeLensAction { command: LensCommand::Build, label: t.label.clone() });
        if t.is_test() {
            r.push(CodeLensAction { command: LensCommand::Test, label: t.label.clone() });
        }
        proof {
            assert(ts@.take(i + 1).drop_last() =~= ts@.take(i as int));
            assert(ts@.take(i + 1).last() == ts@[i as int]);
            assert(lens_view(r@) =~= lenses_of(ts@.take(i + 1)));
        }
        i += 1;
    }
    assert(ts@.take(i as int) =~= ts@);
    r
}

/// The index of build targets.
pub struct BuildGraph {
    targets: TargetMap,
    file_to_targets: ListMap,
    workspace_root: Option<String>,
    reverse_deps: ListMap,
}

impl BuildGraph {
    /// The targets, by label.
    pub closed spec fn target_map(&self) -> Map<Seq<char>, BazelTarget> {
        target_entries(self.targets)
    }

    /// The labels owning each source file, first the primary one.
    pub closed spec fn file_map(&self) -> Map<Seq<char>, Seq<Seq<char>>> {
        list_entries(self.file_to_targets)
    }

    /// For each label, the labels of the targets that were recorded as depending on it.
    pub closed spec fn rdep_map(&self) -> Map<Seq<char>, Seq<Seq<char>>> {
        list_entries(self.reverse_deps)
    }

    /// The workspace root, once set.
    pub closed spec fn root(&self) -> Option<Seq<char>> {
        match self.workspace_root {
            Some(r) => Some(r@),
            None => None,
        }
    }

    /// Each target is stored under its own label, and each dependency of a stored target
    /// has that target among its reverse dependents.
    pub open spec fn wf(&self) -> bool {
        &&& forall|k: Seq<char>| #[trigger]
            self.target_map().contains_key(k) ==> self.target_map()[k].label@ == k
        &&& forall|d: Seq<char>, j: int|
            #![trigger self.target_map()[d].deps@[j]]
            self.target_map().contains_key(d) && 0 <= j < self.target_map()[d].deps@.len()
                ==> self.rdep_map().contains_key(self.target_map()[d].deps@[j]@)
                && self.rdep_map()[self.target_map()[d].deps@[j]@].contains(d)
    }

    /// Every recorded reverse edge still matches a dependency of a stored target: no edge
    /// was left behind by a target that a later declaration replaced.
    pub open spec fn edges_exact(&self) -> bool {
        forall|l: Seq<char>, i: int|
            #![trigger self.rdep_map()[l][i]]
            self.rdep_map().contains_key(l) && 0 <= i < self.rdep_map()[l].len()
                ==> self.target_map().contains_key(self.rdep_map()[l][i])
                && texts(self.target_map()[self.rdep_map()[l][i]].deps@).contains(l)
    }

    /// An empty graph with no workspace root.
    pub fn new() -> (r: Self)
        ensures
            r.wf(),
            r.edges_exact(),
            r.target_map() =~= Map::empty(),
            r.file_map() =~= Map::empty(),
            r.rdep_map() =~= Map::empty(),
            r.root() == None::<Seq<char>>,
    {
        let r = BuildGraph {
            targets: new_target_map(),
            file_to_targets: new_list_map(),
            workspace_root: None,
            reverse_deps: new_list_map(),
        };
        proof {
            lemma_empty_when_no_keys(r.target_map());
            lemma_empty_when_no_keys(r.file_map());
            lemma_empty_when_no_keys(r.rdep_map());
        }
        r
    }

    /// Stores `t` under its label, records it as owner of each of its sources and as a
    /// reverse dependent of each of its dependencies.
    fn insert_target(&mut self, t: BazelTarget)
        requires
            old(self).wf(),
        ensures
            final(self).wf(),
            final(self).target_map() == old(self).target_map().insert(t.label@, t),
            final(self).rdep_map() == push_each(old(self).rdep_map(), texts(t.deps@), t.label@),
            final(self).file_map() == push_each(old(self).file_map(), source_paths(t), t.label@),
            final(self).root() == old(self).root(),
            old(self).edges_exact() && !old(self).target_map().contains_key(t.label@)
                ==> final(self).edges_exact(),
    {
        let dir = parent_dir(t.location.file.as_str());
        let mut i: usize = 0;
        while i < t.srcs.len()
            invariant
                i <= t.srcs@.len(),
                dir@ == parent_of(t.location.file@),
                self.target_map() == old(self).target_map(),
                self.rdep_map() == old(self).rdep_map(),
                self.root() == old(self).root(),
                self.file_map() == push_each(
                    old(self).file_map(),
                    source_paths(t).take(i as int),
                    t.label@,
                ),
            decreases t.srcs@.len() - i,
        {
            let p = join_source_path(dir.as_str(), t.srcs[i].as_str());
            push_to_list(&mut self.file_to_targets, p, t.label.clone());
            assert(source_paths(t).take(i + 1).drop_last() =~= source_paths(t).take(i as int));
            i += 1;
        }
        assert(source_paths(t).take(i as int) =~= source_paths(t));
        let mut j: usize = 0;
        while j < t.deps.len()
            invariant
                j <= t.deps@.len(),
                self.target_map() == old(self).target_map(),
                self.root() == old(self).root(),
                self.file_map() == push_each(old(self).file_map(), source_paths(t), t.label@),
                self.rdep_map() == push_each(old(self).rdep_map(), texts(t.deps@).take(j as int), t.label@),
            decreases t.deps@.len() - j,
        {
            push_to_list(&mut self.reverse_deps, t.deps[j].clone(), t.label.clone());
            assert(texts(t.deps@).take(j + 1).drop_last() =~= texts(t.deps@).take(j as int));
            j += 1;
        }
        assert(texts(t.deps@).take(j as int) =~= texts(t.deps@));
        let ghost old_rdeps = old(self).rdep_map();
        let ghost old_targets = old(self).target_map();
        let ghost label = t.label@;
        let key = t.label.clone();
        put_target(&mut self.targets, key, t);
        proof {
            assert forall|d: Seq<char>, j: int|
                #![trigger self.target_map()[d].deps@[j]]
                self.target_map().contains_key(d) && 0 <= j < self.target_map()[d].deps@.len()
                    implies self.rdep_map().contains_key(self.target_map()[d].deps@[j]@)
                    && self.rdep_map()[self.target_map()[d].deps@[j]@].contains(d) by {
                if d == label {
                    assert(texts(t.deps@)[j] == t.deps@[j]@);
                    lemma_push_each_contains(old_rdeps, texts(t.deps@), label, j);
                } else {
                    assert(old_targets[d].deps@[j] == self.target_map()[d].deps@[j]);
                    lemma_push_each_keeps(old_rdeps, texts(t.deps@), label, old_targets[d].deps@[j]@, d);
                }
            }
            if old(self).edges_exact() && !old_targets.contains_key(label) {
                assert forall|l: Seq<char>, i: int|
                    #![trigger self.rdep_map()[l][i]]
                    self.rdep_map().contains_key(l) && 0 <= i < self.rdep_map()[l].len()
                        implies self.target_map().contains_key(self.rdep_map()[l][i])
                        && texts(self.target_map()[self.rdep_map()[l][i]].deps@).contains(l) by {
                    lemma_push_each_origin(old_rdeps, texts(t.deps@), label, l, i);
                    let x = self.rdep_map()[l][i];
                    if old_rdeps.contains_key(l) && i < old_rdeps[l].len() && x == old_rdeps[l][i] {
                        assert(old_targets.contains_key(x));
                    }
                }
            }
        }
    }

    /// Stores the targets read from one build file, in order: each replaces any target of
    /// the same label, and its sources and dependency edges are recorded. Labels that the
    /// file declared before and no longer declares stay as they were.
    pub fn load_targets(&mut self, targets: Vec<BazelTarget>)
        requires
            old(self).wf(),
        ensures
            final(self).wf(),
            final(self).target_map() == insert_all(old(self).target_map(), targets@),
            final(self).rdep_map() == edges_all(old(self).rdep_map(), targets@),
            final(self).file_map() == files_all(old(self).file_map(), targets@),
            final(self).root() == old(self).root(),
            old(self).edges_exact() && distinct_fresh(old(self).target_map(), targets@)
                ==> final(self).edges_exact(),
    {
        let ghost all = targets@;
        let ghost mut k: int = 0;
        let mut rest = targets;
        while rest.len() > 0
            invariant
                self.wf(),
                0 <= k <= all.len(),
                rest@ == all.skip(k),
                self.target_map() == insert_all(old(self).target_map(), all.take(k)),
                self.rdep_map() == edges_all(old(self).rdep_map(), all.take(k)),
                self.file_map() == files_all(old(self).file_map(), all.take(k)),
                self.root() == old(self).root(),
                old(self).edges_exact() && distinct_fresh(old(self).target_map(), all)
                    ==> self.edges_exact(),
            decreases rest@.len(),
        {
            let t = rest.remove(0);
            proof {
                assert(all.take(k + 1).drop_last() =~= all.take(k));
                assert(all.take(k + 1).last() == t);
                assert(all.skip(k + 1) =~= rest@);
                if old(self).edges_exact() && distinct_fresh(old(self).target_map(), all) {
                    lemma_insert_all_domain(old(self).target_map(), all.take(k));
                    if labels_of(all.take(k)).contains(t.label@) {
                        let x = choose|x: int| 0 <= x < all.take(k).len() && all.take(k)[x].label@ == t.label@;
                        assert(all[x].label@ == all[k].label@);
                    }
                }
            }
            self.insert_target(t);
            proof {
                k = k + 1;
            }
        }
        assert(all.take(k) =~= all);
    }

    /// Replaces the whole index by the given targets and sets the workspace root; returns
    /// the number of targets indexed.
    pub fn scan_workspace(&mut self, root: String, targets: Vec<BazelTarget>) -> (r: usize)
        ensures
            final(self).wf(),
            final(self).root() == Some(root@),
            final(self).target_map() == insert_all(Map::empty(), targets@),
            final(self).rdep_map() == edges_all(Map::empty(), targets@),
            final(self).file_map() == files_all(Map::empty(), targets@),
            r == final(self).target_map().len(),
            distinct_fresh(Map::empty(), targets@) ==> final(self).edges_exact(),
    {
        let mut fresh = BuildGraph::new();
        fresh.workspace_root = Some(root);
        fresh.load_targets(targets);
        *self = fresh;
        count_targets(&self.targets)
    }

    /// The workspace root; the graph cannot be refreshed before it is set.
    pub fn workspace_root(&self) -> (r: Option<String>)
        ensures
            r matches Some(s) ==> self.root() == Some(s@),
            r is None ==> self.root() is None,
    {
        match &self.workspace_root {
            Some(s) => Some(s.clone()),
            None => None,
        }
    }

    /// The target of the given label.
    pub fn get_target(&self, label: &str) -> (r: Option<BazelTarget>)
        ensures
            r == (if self.target_map().contains_key(label@) {
                Some(self.target_map()[label@])
            } else {
                None
            }),
    {
        find_target(&self.targets, label)
    }

    /// The labels of the targets recorded as depending on `label`.
    pub fn get_reverse_dependencies(&self, label: &str) -> (r: Vec<String>)
        ensures
            texts(r@) == list_or_empty(self.rdep_map(), label@),
    {
        list_at(&self.reverse_deps, label)
    }

    /// The primary target owning a source file: the first that listed it.
    pub fn get_target_for_file(&self, file: &str) -> (r: Option<BazelTarget>)
        ensures
            r == primary_target(self.target_map(), self.file_map(), file@),
    {
        let owners = list_at(&self.file_to_targets, file);
        if owners.len() == 0 {
            return None;
        }
        assert(texts(owners@)[0] == owners@[0]@);
        find_target(&self.targets, owners[0].as_str())
    }

    /// The stored targets (only those declared in `file`, when one is given), each once,
    /// in an order that the store does not fix.
    fn collect_targets(&self, file: Option<&str>) -> (r: Vec<BazelTarget>)
        requires
            self.wf(),
        ensures
            is_listing(
                match file {
                    Some(f) => declared_in(self.target_map(), f@),
                    None => self.target_map(),
                },
                r@,
            ),
    {
        let ghost m = match file {
            Some(f) => declared_in(self.target_map(), f@),
            None => self.target_map(),
        };
        let ghost tm = self.target_map();
        let mut pairs = list_targets(&self.targets);
        let ghost all = pairs@;
        let mut r: Vec<BazelTarget> = Vec::new();
        let ghost mut picked: Seq<int> = Seq::empty();
        while pairs.len() > 0
            invariant
                self.wf(),
                tm == self.target_map(),
                m == match file {
                    Some(f) => declared_in(tm, f@),
                    None => tm,
                },
                pairs@ == all.take(pairs@.len() as int),
                pairs@.len() <= all.len(),
                forall|i: int|
                    0 <= i < all.len() ==> #[trigger] tm.contains_key(all[i].0@) && tm[all[i].0@]
                        == all[i].1,
                forall|k: Seq<char>| #[trigger] tm.contains_key(k) ==> exists|i: int|
                    0 <= i < all.len() && all[i].0@ == k,
                forall|i: int, j: int| 0 <= i < j < all.len() ==> all[i].0@ != all[j].0@,
                r@.len() == picked.len(),
                forall|q: int| 0 <= q < picked.len() ==> pairs@.len() <= #[trigger] picked[q] < all.len()
                    && r@[q] == all[picked[q]].1,
                forall|p: int, q: int| 0 <= p < q < picked.len() ==> picked[p] > picked[q],
                forall|i: int| pairs@.len() <= i < all.len() && m.contains_key(#[trigger] all[i].0@)
                    ==> exists|q: int| 0 <= q < picked.len() && picked[q] == i,
                forall|q: int| 0 <= q < picked.len() ==> m.contains_key(#[trigger] all[picked[q]].0@),
            decreases pairs@.len(),
        {
            let (key, t) = pairs.pop().unwrap();
            let ghost i = pairs@.len() as int;
            assert(all[i] == (key, t));
            let keep = match file {
                Some(f) => str_equal(t.location.file.as_str(), f),
                None => true,
            };
            let ghost old_picked = picked;
            proof {
                if m.contains_key(key@) {
                    assert(tm[all[i].0@] == t);
                }
            }
            if keep {
                r.push(t);
                proof {
                    picked = picked.push(i);
                    assert(tm.contains_key(all[i].0@));
                    assert(m.contains_key(all[i].0@));
                }
            }
            proof {
                assert forall|q: int| 0 <= q < picked.len() implies m.contains_key(#[trigger] all[picked[q]].0@) by {
                    if q < old_picked.len() {
                        assert(picked[q] == old_picked[q]);
                    }
                }
                assert forall|i2: int| pairs@.len() <= i2 < all.len() && m.contains_key(#[trigger] all[i2].0@)
                    implies exists|q: int| 0 <= q < picked.len() && picked[q] == i2 by {
                    if i2 == i {
                        assert(picked[picked.len() - 1] == i);
                    } else {
                        let q = choose|q: int| 0 <= q < old_picked.len() && old_picked[q] == i2;
                        assert(picked[q] == i2);
                    }
                }
            }
            assert(pairs@ =~= all.take(pairs@.len() as int));
        }
        proof {
            assert forall|q: int| 0 <= q < r@.len() implies #[trigger] m.contains_key(r@[q].label@)
                && m[r@[q].label@] == r@[q] by {
                let i = picked[q];
                assert(tm[all[i].0@].label@ == all[i].0@);
            }
            assert forall|k: Seq<char>| #[trigger] m.contains_key(k) implies exists|q: int|
                0 <= q < r@.len() && r@[q].label@ == k by {
                let i = choose|i: int| 0 <= i < all.len() && all[i].0@ == k;
                let q = choose|q: int| 0 <= q < picked.len() && picked[q] == i;
                assert(tm[all[i].0@].label@ == all[i].0@);
            }
            assert forall|p: int, q: int| 0 <= p < q < r@.len() implies r@[p].label@ != r@[q].label@ by {
                let a = picked[p];
                let b = picked[q];
                assert(tm[all[a].0@].label@ == all[a].0@);
                assert(tm[all[b].0@].label@ == all[b].0@);
            }
        }
        r
    }

    /// Every stored target once, in an order that the store does not fix.
    pub fn get_all_targets(&self) -> (r: Vec<BazelTarget>)
        requires
            self.wf(),
        ensures
            is_listing(self.target_map(), r@),
    {
        self.collect_targets(None)
    }

    /// The targets declared in `file`, in an order that the store does not fix.
    pub fn get_targets_in_file(&self, file: &str) -> (r: Vec<BazelTarget>)
        requires
            self.wf(),
        ensures
            is_listing(declared_in(self.target_map(), file@), r@),
    {
        self.collect_targets(Some(file))
    }

    /// The code lenses of a build file: for each target declared in it a build lens, and a
    /// test lens after it for a test target.
    pub fn get_code_lenses(&self, file: &str) -> (r: Vec<CodeLensAction>)
        requires
            self.wf(),
        ensures
            exists|ts: Seq<BazelTarget>|
                is_listing(declared_in(self.target_map(), file@), ts) && lens_view(r@) == lenses_of(ts),
    {
        let ts = self.get_targets_in_file(file);
        code_lenses_for_targets(&ts)
    }

    /// Where `label` is referred to: the declaration sites of its recorded reverse
    /// dependents that are stored, then those of the targets that list it among their
    /// sources.
    pub fn find_references(&self, label: &str) -> (r: Vec<SourceLocation>)
        requires
            self.wf(),
        ensures
            exists|ts: Seq<BazelTarget>|
                is_listing(self.target_map(), ts) && r@ == dependent_sites(
                    self.target_map(),
                    list_or_empty(self.rdep_map(), label@),
                ) + source_sites(ts, label@),
    {
        let ghost tm = self.target_map();
        let dependents = list_at(&self.reverse_deps, label);
        let mut r: Vec<SourceLocation> = Vec::new();
        let mut i: usize = 0;
        while i < dependents.len()
            invariant
                i <= dependents@.len(),
                tm == self.target_map(),
                r@ == dependent_sites(tm, texts(dependents@).take(i as int)),
            decreases dependents@.len() - i,
        {
            let found = find_target(&self.targets, dependents[i].as_str());
            proof {
                assert(texts(dependents@).take(i + 1).drop_last() =~= texts(dependents@).take(i as int));
                assert(texts(dependents@).take(i + 1).last() == dependents@[i as int]@);
            }
            match found {
                Some(t) => {
                    r.push(t.location);
                },
                None => {},
            }
            proof {
                assert(r@ =~= dependent_sites(tm, texts(dependents@).take(i + 1)));
            }
            i += 1;
        }
        assert(texts(dependents@).take(i as int) =~= texts(dependents@));
        let ghost head = r@;
        let ts = self.get_all_targets();
        let mut j: usize = 0;
        while j < ts.len()
            invariant
                j <= ts@.len(),
                r@ == head + source_sites(ts@.take(j as int), label@),
            decreases ts@.len() - j,
        {
            let t = &ts[j];
            let mut k: usize = 0;
            let mut listed = false;
            while k < t.srcs.len()
                invariant
                    k <= t.srcs@.len(),
                    listed == texts(t.srcs@).take(k as int).contains(label@),
                decreases t.srcs@.len() - k,
            {
                let same = str_equal(t.srcs[k].as_str(), label);
                proof {
                    let a = texts(t.srcs@).take(k as int);
                    let b = texts(t.srcs@).take(k + 1);
                    assert(b =~= a.push(t.srcs@[k as int]@));
                    if a.contains(label@) {
                        let x = choose|x: int| 0 <= x < a.len() && a[x] == label@;
                        assert(b[x] == label@);
                    }
                    if b.contains(label@) && !same {
                        let x = choose|x: int| 0 <= x < b.len() && b[x] == label@;
                        assert(a[x] == label@);
                    }
                    if same {
                        assert(b[k as int] == label@);
                    }
                }
                listed = listed || same;
                k += 1;
            }
            assert(texts(t.srcs@).take(k as int) =~= texts(t.srcs@));
            if listed {
                r.push(t.location.duplicate());
            }
            proof {
                assert(ts@.take(j + 1).drop_last() =~= ts@.take(j as int));
                assert(ts@.take(j + 1).last() == ts@[j as int]);
                assert(r@ =~= head + source_sites(ts@.take(j + 1), label@));
            }
            j += 1;
        }
        assert(ts@.take(j as int) =~= ts@);
        r
    }
}

/// Whether the targets carry distinct labels, none of them stored in `m`.
pub open spec fn distinct_fresh(m: Map<Seq<char>, BazelTarget>, ts: Seq<BazelTarget>) -> bool {
    &&& forall|i: int, j: int| 0 <= i < j < ts.len() ==> ts[i].label@ != ts[j].label@
    &&& forall|i: int| 0 <= i < ts.len() ==> !m.contains_key(#[trigger] ts[i].label@)
}

/// In a graph where no edge was left behind by a replaced declaration, `d` is a recorded
/// reverse dependent of `l` exactly when `d` is stored and lists `l` among its
/// dependencies. A scan of targets with distinct labels yields such a graph.
pub proof fn lemma_reverse_dependents_match(g: &BuildGraph, l: Seq<char>, d: Seq<char>)
    requires
        g.wf(),
        g.edges_exact(),
    ensures
        list_or_empty(g.rdep_map(), l).contains(d) <==> (g.target_map().contains_key(d) && texts(
            g.target_map()[d].deps@,
        ).contains(l)),
{
    if list_or_empty(g.rdep_map(), l).contains(d) {
        let i = choose|i: int| 0 <= i < g.rdep_map()[l].len() && g.rdep_map()[l][i] == d;
        assert(g.target_map().contains_key(g.rdep_map()[l][i]));
    }
    if g.target_map().contains_key(d) && texts(g.target_map()[d].deps@).contains(l) {
        let j = choose|j: int| 0 <= j < texts(g.target_map()[d].deps@).len() && texts(g.target_map()[d].deps@)[j] == l;
        assert(g.target_map()[d].deps@[j]@ == l);
    }
}

/// The list under `k`, or an empty one.
pub open spec fn list_or_empty(m: Map<Seq<char>, Seq<Seq<char>>>, k: Seq<char>) -> Seq<Seq<char>> {
    if m.contains_key(k) {
        m[k]
    } else {
        Seq::empty()
    }
}

/// The target stored under the first label that owns `file`, if any.
pub open spec fn primary_target(
    targets: Map<Seq<char>, BazelTarget>,
    files: Map<Seq<char>, Seq<Seq<char>>>,
    file: Seq<char>,
) -> Option<BazelTarget> {
    let owners = list_or_empty(files, file);
    if owners.len() > 0 && targets.contains_key(owners[0]) {
        Some(targets[owners[0]])
    } else {
        None
    }
}

/// Inserting targets changes no label that none of them carries.
pub proof fn lemma_insert_all_touches_only_its_labels(
    m: Map<Seq<char>, BazelTarget>,
    ts: Seq<BazelTarget>,
    k: Seq<char>,
)
    requires
        !labels_of(ts).contains(k),
    ensures
        insert_all(m, ts).contains_key(k) == m.contains_key(k),
        m.contains_key(k) ==> insert_all(m, ts)[k] == m[k],
    decreases ts.len(),
{
    if ts.len() > 0 {
        assert(!labels_of(ts.drop_last()).contains(k)) by {
            if labels_of(ts.drop_last()).contains(k) {
                let i = choose|i: int| 0 <= i < ts.drop_last().len() && ts.drop_last()[i].label@ == k;
                assert(ts[i].label@ == k);
            }
        }
        assert(ts.last().label@ != k) by {
            assert(ts[ts.len() - 1].label@ == ts.last().label@);
        }
        lemma_insert_all_touches_only_its_labels(m, ts.drop_last(), k);
    }
}

/// After inserting targets, a label is stored if and only if it was stored before or one
/// of the targets carries it, and each target is found under its label unless a later
/// one of the same label replaced it.
pub proof fn lemma_insert_all_domain(m: Map<Seq<char>, BazelTarget>, ts: Seq<BazelTarget>)
    ensures
        insert_all(m, ts).dom() == m.dom().union(labels_of(ts)),
    decreases ts.len(),
{
    if ts.len() > 0 {
        lemma_insert_all_domain(m, ts.drop_last());
        assert forall|l: Seq<char>| labels_of(ts).contains(l) <==> (labels_of(ts.drop_last()).contains(l)
            || l == ts.last().label@) by {
            if labels_of(ts).contains(l) {
                let i = choose|i: int| 0 <= i < ts.len() && ts[i].label@ == l;
                if i < ts.len() - 1 {
                    assert(ts.drop_last()[i].label@ == l);
                }
            }
            if labels_of(ts.drop_last()).contains(l) {
                let i = choose|i: int| 0 <= i < ts.drop_last().len() && ts.drop_last()[i].label@ == l;
                assert(ts[i].label@ == l);
            }
            if l == ts.last().label@ {
                assert(ts[ts.len() - 1].label@ == l);
            }
        }
        assert(insert_all(m, ts).dom() =~= m.dom().union(labels_of(ts)));
    }
}

} // verus!
