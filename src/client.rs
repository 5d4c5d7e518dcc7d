//! What the build tool's runs yield: build and test outcomes, query results and target
//! information read from its output.
use vstd::prelude::*;
use crate::bep::{build_status_of, test_outcomes_of, BuildEventProtocolParser};
use crate::protocol::is_blank;
use crate::query::ParsedQueryResult;
use crate::syntax::quote_close;
use crate::text::{chars_of, string_of, texts};
use crate::syntax::copy_strings;
use lru::LruCache;
use std::collections::hash_map::RandomState;

verus! {

#[derive(Debug, Clone)]
pub struct BuildResult {
    pub success: bool,
}

#[derive(Debug, Clone)]
pub struct TestResult {
    pub success: bool,
}

#[derive(Debug, Clone)]
pub struct QueryResult {
    pub targets: Vec<String>,
}

#[derive(Debug, Clone)]
pub struct TargetInfo {
    pub kind: String,
    pub visibility: String,
}

#[verifier::external_type_specification]
#[verifier::external_body]
#[verifier::reject_recursive_types(K)]
#[verifier::reject_recursive_types(V)]
#[verifier::reject_recursive_types(S)]
pub struct ExLruCache<K, V, S>(LruCache<K, V, S>);

/// Query results by query text, least recently used first to leave.
pub type QueryLru = LruCache<String, QueryResult, RandomState>;

/// What a query cache holds: each query's text, mapped to the texts of its result's targets.
pub uninterp spec fn cached_targets(c: QueryLru) -> Map<Seq<char>, Seq<Seq<char>>>;

/// How many entries a query cache holds at most.
pub uninterp spec fn cache_capacity(c: QueryLru) -> nat;

/// Relies on `LruCache::with_hasher`: a new cache is empty and holds at most `cap` entries.
#[verifier::external_body]
fn new_query_lru(cap: usize) -> (r: QueryLru)
    requires
        cap > 0,
    ensures
        cached_targets(r).dom().finite(),
        cached_targets(r).dom().len() == 0,
        cache_capacity(r) == cap,
{
    LruCache::with_hasher(std::num::NonZeroUsize::new(cap).unwrap(), RandomState::new())
}

/// Relies on `LruCache::get`: the entry of the key, if any (cloned out); only the
/// entries' recency changes.
#[verifier::external_body]
fn lru_get(c: &mut QueryLru, key: &str) -> (r: Option<QueryResult>)
    ensures
        cached_targets(*final(c)) == cached_targets(*old(c)),
        cache_capacity(*final(c)) == cache_capacity(*old(c)),
        match r {
            Some(q) => cached_targets(*old(c)).contains_key(key@) && texts(q.targets@) == cached_targets(
                *old(c),
            )[key@],
            None => !cached_targets(*old(c)).contains_key(key@),
        },
{
    c.get(key).cloned()
}

/// Relies on `LruCache::put`: the key maps to the value; when the key is new and the cache
/// is full, the least recently used entry leaves; no other entry changes.
#[verifier::external_body]
fn lru_put(c: &mut QueryLru, key: String, value: QueryResult)
    ensures
        cache_capacity(*final(c)) == cache_capacity(*old(c)),
        cached_targets(*final(c)).contains_key(key@),
        cached_targets(*final(c))[key@] == texts(value.targets@),
        forall|k: Seq<char>|
            k != key@ && #[trigger] cached_targets(*final(c)).contains_key(k) ==> cached_targets(
                *old(c),
            ).contains_key(k) && cached_targets(*final(c))[k] == cached_targets(*old(c))[k],
        cached_targets(*old(c)).contains_key(key@) || cached_targets(*old(c)).len() < cache_capacity(*old(c))
            ==> forall|k: Seq<char>| #[trigger]
            cached_targets(*old(c)).contains_key(k) ==> cached_targets(*final(c)).contains_key(k),
{
    c.put(key, value);
}

/// A copy of a query result.
fn copy_result(q: &QueryResult) -> (r: QueryResult)
    ensures
        texts(r.targets@) == texts(q.targets@),
{
    QueryResult { targets: copy_strings(&q.targets) }
}

/// The targets a query's output gives: the names of its decoded targets when it decoded,
/// else its non-empty lines.
pub open spec fn query_targets_of(
    decoded: Option<Seq<Seq<char>>>,
    text: Seq<char>,
) -> Seq<Seq<char>> {
    match decoded {
        Some(names) => names,
        None => nonempty_lines(text, 0),
    }
}

/// Recent query results, by query text.
pub struct QueryCache {
    entries: QueryLru,
}

impl QueryCache {
    /// The cached results' targets, by query text.
    pub closed spec fn entries(&self) -> Map<Seq<char>, Seq<Seq<char>>> {
        cached_targets(self.entries)
    }

    /// How many results the cache keeps at most.
    pub closed spec fn capacity(&self) -> nat {
        cache_capacity(self.entries)
    }

    pub fn new(capacity: usize) -> (r: Self)
        requires
            capacity > 0,
        ensures
            r.entries() =~= Map::empty(),
            r.capacity() == capacity,
    {
        let r = QueryCache { entries: new_query_lru(capacity) };
        proof {
            assert forall|k: Seq<char>| !r.entries().contains_key(k) by {
                if r.entries().contains_key(k) {
                    vstd::set::axiom_set_contains_len(r.entries().dom(), k);
                }
            }
        }
        r
    }

    /// The cached result of a query, if any.
    pub fn lookup(&mut self, query: &str) -> (r: Option<QueryResult>)
        ensures
            final(self).entries() == old(self).entries(),
            final(self).capacity() == old(self).capacity(),
            match r {
                Some(q) => old(self).entries().contains_key(query@) && texts(q.targets@) == old(
                    self,
                ).entries()[query@],
                None => !old(self).entries().contains_key(query@),
            },
    {
        lru_get(&mut self.entries, query)
    }

    /// The result of a query whose output was `text`, decoded as `decoded` when it could
    /// be; it is cached under the query.
    pub fn record(&mut self, query: &str, decoded: Option<ParsedQueryResult>, text: &str) -> (r: QueryResult)
        ensures
            texts(r.targets@) == query_targets_of(
                match decoded {
                    Some(p) => Some(p.targets@.map_values(|t: crate::query::ParsedTarget| t.name@)),
                    None => None,
                },
                text@,
            ),
            final(self).entries().contains_key(query@),
            final(self).entries()[query@] == texts(r.targets@),
            final(self).capacity() == old(self).capacity(),
            forall|k: Seq<char>|
                k != query@ && #[trigger] final(self).entries().contains_key(k) ==> old(self).entries().contains_key(k)
                    && final(self).entries()[k] == old(self).entries()[k],
    {
        let result = match decoded {
            Some(p) => query_target_names(&p),
            None => query_output_lines(text),
        };
        let stored = copy_result(&result);
        lru_put(&mut self.entries, String::from_str(query), stored);
        result
    }
}

/// Whether a build succeeded: as its build-finished event says, else as its exit status.
pub fn build_result(events: &BuildEventProtocolParser, exit_success: bool) -> (r: BuildResult)
    ensures
        r.success == match build_status_of(events.events()) {
            Some(b) => b,
            None => exit_success,
        },
{
    let success = match events.get_build_status() {
        Some(b) => b,
        None => exit_success,
    };
    BuildResult { success }
}

/// Whether a test run succeeded: never when its build-finished event reports failure;
/// otherwise when every reported test passed, or, when none was reported, as its exit
/// status.
pub fn test_result(events: &BuildEventProtocolParser, exit_success: bool) -> (r: TestResult)
    ensures
        r.success == if build_status_of(events.events()) == Some(false) {
            false
        } else if test_outcomes_of(events.events()).len() == 0 {
            exit_success
        } else {
            forall|i: int| 0 <= i < test_outcomes_of(events.events()).len() ==> #[trigger] test_outcomes_of(events.events())[i].1
        },
{
    if events.get_build_status() == Some(false) {
        return TestResult { success: false };
    }
    let results = events.get_test_results();
    let ghost outs = test_outcomes_of(events.events());
    assert(results@.len() == outs.len());
    if results.len() == 0 {
        return TestResult { success: exit_success };
    }
    let mut i: usize = 0;
    while i < results.len()
        invariant
            i <= results@.len(),
            results@.map_values(|o: (String, bool)| (o.0@, o.1)) == outs,
            outs == test_outcomes_of(events.events()),
            forall|j: int| 0 <= j < i ==> #[trigger] outs[j].1,
        decreases results@.len() - i,
    {
        assert(outs[i as int].1 == results@[i as int].1);
        if !results[i].1 {
            assert(!outs[i as int].1);
            return TestResult { success: false };
        }
        i += 1;
    }
    TestResult { success: true }
}

/// The names of a query result's targets, in order.
pub fn query_target_names(parsed: &ParsedQueryResult) -> (r: QueryResult)
    ensures
        texts(r.targets@) == parsed.targets@.map_values(|t: crate::query::ParsedTarget| t.name@),
{
    let mut names: Vec<String> = Vec::new();
    let mut i: usize = 0;
    while i < parsed.targets.len()
        invariant
            i <= parsed.targets@.len(),
            names@.len() == i,
            forall|j: int| 0 <= j < i ==> names@[j]@ == parsed.targets@[j].name@,
        decreases parsed.targets@.len() - i,
    {
        names.push(parsed.targets[i].name.clone());
        i += 1;
    }
    assert(texts(names@) =~= parsed.targets@.map_values(|t: crate::query::ParsedTarget| t.name@));
    QueryResult { targets: names }
}

/// The end of the line that starts at `i`.
pub open spec fn line_end(s: Seq<char>, i: int) -> int {
    match quote_close(s, i, '\n') {
        Some(e) => e,
        None => s.len() as int,
    }
}

/// A line without its trailing `\r`.
pub open spec fn strip_cr(l: Seq<char>) -> Seq<char> {
    if l.len() > 0 && l.last() == '\r' {
        l.drop_last()
    } else {
        l
    }
}

/// The non-empty lines of `s` from position `i`, in order.
pub open spec fn nonempty_lines(s: Seq<char>, i: int) -> Seq<Seq<char>>
    decreases s.len() - i,
{
    if i < 0 || i >= s.len() {
        Seq::empty()
    } else {
        let e = line_end(s, i);
        let l = strip_cr(s.subrange(i, e));
        let head = if l.len() > 0 { seq![l] } else { Seq::empty() };
        if e < i || e >= s.len() {
            head
        } else {
            head + nonempty_lines(s, e + 1)
        }
    }
}

fn line_end_at(cs: &Vec<char>, i: usize) -> (r: usize)
    requires
        i <= cs@.len(),
    ensures
        r as int == line_end(cs@, i as int),
        i <= r <= cs@.len(),
{
    let mut j = i;
    while j < cs.len() && cs[j] != '\n'
        invariant
            i <= j <= cs@.len(),
            quote_close(cs@, j as int, '\n') == quote_close(cs@, i as int, '\n'),
        decreases cs@.len() - j,
    {
        j += 1;
    }
    j
}

/// The non-empty lines of a plain query output, as target names.
pub fn query_output_lines(text: &str) -> (r: QueryResult)
    ensures
        texts(r.targets@) == nonempty_lines(text@, 0),
{
    let cs = chars_of(text);
    let mut names: Vec<String> = Vec::new();
    let mut i: usize = 0;
    while i < cs.len()
        invariant
            i <= cs@.len(),
            cs@ == text@,
            texts(names@) + nonempty_lines(cs@, i as int) == nonempty_lines(cs@, 0),
        decreases cs@.len() - i,
    {
        let e = line_end_at(&cs, i);
        let mut stop = e;
        if stop > i && cs[stop - 1] == '\r' {
            stop -= 1;
        }
        assert(cs@.subrange(i as int, stop as int) =~= strip_cr(cs@.subrange(i as int, e as int)));
        let ghost before = texts(names@);
        if stop > i {
            names.push(string_of(&cs, i, stop));
            assert(texts(names@) =~= before + seq![cs@.subrange(i as int, stop as int)]);
        }
        if e >= cs.len() {
            assert(nonempty_lines(cs@, e as int) =~= Seq::<Seq<char>>::empty());
            assert(texts(names@) =~= before + nonempty_lines(cs@, i as int));
            i = e;
        } else {
            assert(texts(names@) + nonempty_lines(cs@, e + 1) =~= before + nonempty_lines(cs@, i as int));
            i = e + 1;
        }
    }
    assert(nonempty_lines(cs@, i as int) =~= Seq::<Seq<char>>::empty());
    assert(texts(names@) =~= nonempty_lines(cs@, 0));
    QueryResult { targets: names }
}

/// The first position at or after `i` that is not blank.
pub open spec fn skip_blanks(s: Seq<char>, i: int) -> int
    decreases s.len() - i,
{
    if 0 <= i < s.len() && is_blank(s[i]) {
        skip_blanks(s, i + 1)
    } else {
        i
    }
}

/// The end of the run of non-blank characters from `i`.
pub open spec fn word_end(s: Seq<char>, i: int) -> int
    decreases s.len() - i,
{
    if 0 <= i < s.len() && !is_blank(s[i]) {
        word_end(s, i + 1)
    } else {
        i
    }
}

/// The kind a `label_kind` query output gives: the first word of its first line, when the
/// line has a second word.
pub open spec fn kind_of_output(s: Seq<char>) -> Option<Seq<char>> {
    if s.len() == 0 {
        None
    } else {
        let l = s.subrange(0, line_end(s, 0));
        let a = skip_blanks(l, 0);
        let b = word_end(l, a);
        let c = skip_blanks(l, b);
        if a < b && c < l.len() {
            Some(l.subrange(a, b))
        } else {
            None
        }
    }
}

fn skip_blanks_at(cs: &Vec<char>, i: usize, end: usize) -> (r: usize)
    requires
        i <= end <= cs@.len(),
    ensures
        r as int == skip_blanks(cs@.subrange(0, end as int), i as int),
        i <= r <= end,
{
    let ghost l = cs@.subrange(0, end as int);
    let mut j = i;
    while j < end && (cs[j] == ' ' || cs[j] == '\t' || cs[j] == '\n' || cs[j] == '\r' || cs[j] == '\x0b' || cs[j] == '\x0c')
        invariant
            i <= j <= end,
            end <= cs@.len(),
            l == cs@.subrange(0, end as int),
            skip_blanks(l, j as int) == skip_blanks(l, i as int),
        decreases end - j,
    {
        assert(l[j as int] == cs@[j as int]);
        j += 1;
    }
    if j < end {
        assert(l[j as int] == cs@[j as int]);
    }
    j
}

fn word_end_at(cs: &Vec<char>, i: usize, end: usize) -> (r: usize)
    requires
        i <= end <= cs@.len(),
    ensures
        r as int == word_end(cs@.subrange(0, end as int), i as int),
        i <= r <= end,
{
    let ghost l = cs@.subrange(0, end as int);
    let mut j = i;
    while j < end && !(cs[j] == ' ' || cs[j] == '\t' || cs[j] == '\n' || cs[j] == '\r' || cs[j] == '\x0b' || cs[j] == '\x0c')
        invariant
            i <= j <= end,
            end <= cs@.len(),
            l == cs@.subrange(0, end as int),
            word_end(l, j as int) == word_end(l, i as int),
        decreases end - j,
    {
        assert(l[j as int] == cs@[j as int]);
        j += 1;
    }
    if j < end {
        assert(l[j as int] == cs@[j as int]);
    }
    j
}

/// The target information that a `label_kind` query output gives: the kind is the first
/// word of the first line, which must have a second; visibility is taken as public.
pub fn target_info_from_output(text: &str) -> (r: Option<TargetInfo>)
    ensures
        match r {
            Some(info) => kind_of_output(text@) == Some(info.kind@) && info.visibility@ == "//visibility:public"@,
            None => kind_of_output(text@) is None,
        },
{
    let cs = chars_of(text);
    if cs.len() == 0 {
        return None;
    }
    let end = line_end_at(&cs, 0);
    let a = skip_blanks_at(&cs, 0, end);
    let b = word_end_at(&cs, a, end);
    let c = skip_blanks_at(&cs, b, end);
    if a < b && c < end {
        let kind = string_of(&cs, a, b);
        assert(kind@ =~= cs@.subrange(0, end as int).subrange(a as int, b as int));
        Some(TargetInfo { kind, visibility: String::from_str("//visibility:public") })
    } else {
        None
    }
}

} // verus!
