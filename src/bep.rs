//! Build events: the records of a build or test run, and what is read from them.
use vstd::prelude::*;
use crate::text::{str_equal, texts};

verus! {

#[derive(Debug, Clone)]
pub struct BuildEvent {
    pub id: BuildEventId,
    pub children: Option<Vec<BuildEventId>>,
    pub payload: Option<BuildEventPayload>,
}

#[derive(Debug, Clone)]
pub struct BuildEventId {
    pub kind: BuildEventIdKind,
}

#[derive(Debug, Clone)]
pub enum BuildEventIdKind {
    Started { started: Started },
    Progress { progress: Progress },
    TargetConfigured { target_configured: TargetConfigured },
    TargetCompleted { target_completed: TargetCompleted },
    TestResult { test_result: TestResult },
    BuildFinished { build_finished: BuildFinished },
}

#[derive(Debug, Clone)]
pub struct Started {
    pub uuid: String,
}

#[derive(Debug, Clone)]
pub struct Progress {
    pub opaque_count: i32,
}

#[derive(Debug, Clone)]
pub struct TargetConfigured {
    pub label: String,
    pub aspect: Option<String>,
}

#[derive(Debug, Clone)]
pub struct TargetCompleted {
    pub label: String,
    pub aspect: Option<String>,
    pub configuration: Option<Configuration>,
}

#[derive(Debug, Clone)]
pub struct TestResult {
    pub label: String,
    pub run: i32,
    pub shard: i32,
}

#[derive(Debug, Clone)]
pub struct BuildFinished {}

#[derive(Debug, Clone)]
pub struct Configuration {
    pub id: String,
}

#[derive(Debug, Clone)]
pub enum BuildEventPayload {
    Started { started: StartedPayload },
    Progress { progress: ProgressPayload },
    TargetConfigured { target_configured: TargetConfiguredPayload },
    TargetCompleted { target_completed: TargetCompletedPayload },
    TestResult { test_result: TestResultPayload },
    BuildFinished { finished: BuildFinishedPayload },
    BuildMetrics { build_metrics: BuildMetricsPayload },
}

#[derive(Debug, Clone)]
pub struct StartedPayload {
    pub uuid: String,
    pub build_tool_version: String,
    pub options_description: Option<String>,
    pub command: String,
    pub working_directory: String,
    pub workspace_directory: String,
    pub server_pid: i32,
}

#[derive(Debug, Clone)]
pub struct ProgressPayload {
    pub stderr: Option<String>,
    pub stdout: Option<String>,
}

#[derive(Debug, Clone)]
pub struct TargetConfiguredPayload {
    pub target_kind: String,
    pub test_size: Option<String>,
    pub tag: Vec<String>,
}

#[derive(Debug, Clone)]
pub struct TargetCompletedPayload {
    pub success: bool,
    pub output_group: Vec<OutputGroup>,
    pub target_kind: String,
    pub test_size: Option<String>,
}

#[derive(Debug, Clone)]
pub struct OutputGroup {
    pub name: String,
    pub file_sets: Vec<FileSet>,
}

#[derive(Debug, Clone)]
pub struct FileSet {
    pub files: Vec<File>,
}

#[derive(Debug, Clone)]
pub struct File {
    pub name: String,
    pub uri: String,
}

#[derive(Debug, Clone)]
pub struct TestResultPayload {
    pub status: String,
    pub cached_locally: bool,
    pub test_attempt_duration_millis: Option<i64>,
    pub test_logs: Vec<File>,
}

#[derive(Debug, Clone)]
pub struct BuildFinishedPayload {
    pub overall_success: bool,
    pub exit_code: ExitCode,
    pub finish_time_millis: i64,
}

#[derive(Debug, Clone)]
pub struct ExitCode {
    pub name: String,
    pub code: i32,
}

#[derive(Debug, Clone)]
pub struct BuildMetricsPayload {
    pub action_summary: ActionSummary,
    pub memory_metrics: MemoryMetrics,
    pub target_metrics: TargetMetrics,
    pub timing_metrics: TimingMetrics,
}

#[derive(Debug, Clone)]
pub struct ActionSummary {
    pub actions_executed: i64,
    pub actions_created: i64,
}

#[derive(Debug, Clone)]
pub struct MemoryMetrics {
    pub used_heap_size_post_build: i64,
    pub peak_post_gc_heap_size: i64,
}

#[derive(Debug, Clone)]
pub struct TargetMetrics {
    pub targets_configured: i32,
    pub targets_loaded: i32,
}

#[derive(Debug, Clone)]
pub struct TimingMetrics {
    pub wall_time_millis: i64,
    pub cpu_time_millis: i64,
    pub actions_execution_start_millis: i64,
}

/// The decimal digit of `d`.
pub open spec fn digit_char(d: nat) -> char {
    if d == 0 { '0' } else if d == 1 { '1' } else if d == 2 { '2' } else if d == 3 { '3' } else if d == 4 {
        '4'
    } else if d == 5 { '5' } else if d == 6 { '6' } else if d == 7 { '7' } else if d == 8 { '8' } else { '9' }
}

/// The decimal text of a natural number.
pub open spec fn nat_text(n: nat) -> Seq<char>
    decreases n,
{
    if n < 10 {
        seq![digit_char(n)]
    } else {
        nat_text(n / 10).push(digit_char(n % 10))
    }
}

/// The decimal text of an integer.
pub open spec fn int_text(n: int) -> Seq<char> {
    if n < 0 {
        seq!['-'] + nat_text((-n) as nat)
    } else {
        nat_text(n as nat)
    }
}

fn digit_of(d: u64) -> (r: char)
    requires
        d < 10,
    ensures
        r == digit_char(d as nat),
{
    if d == 0 { '0' } else if d == 1 { '1' } else if d == 2 { '2' } else if d == 3 { '3' } else if d == 4 {
        '4'
    } else if d == 5 { '5' } else if d == 6 { '6' } else if d == 7 { '7' } else if d == 8 { '8' } else { '9' }
}

fn push_nat_text(n: u64, out: &mut Vec<char>)
    ensures
        final(out)@ == old(out)@ + nat_text(n as nat),
    decreases n,
{
    if n < 10 {
        out.push(digit_of(n));
    } else {
        push_nat_text(n / 10, out);
        out.push(digit_of(n % 10));
        assert(final(out)@ =~= old(out)@ + nat_text(n as nat));
    }
}

/// The decimal text of `n`.
pub fn int_to_text(n: i32) -> (r: String)
    ensures
        r@ == int_text(n as int),
{
    let mut cs: Vec<char> = Vec::new();
    if n < 0 {
        cs.push('-');
        let m: u64 = (-(n as i64)) as u64;
        push_nat_text(m, &mut cs);
    } else {
        push_nat_text(n as u64, &mut cs);
    }
    assert(cs@ =~= int_text(n as int));
    crate::text::string_of(&cs, 0, cs.len())
}

/// The key under which an event is kept: its kind and what identifies it within the kind.
pub open spec fn event_key(id: BuildEventIdKind) -> Seq<char> {
    match id {
        BuildEventIdKind::Started { started } => "started:"@ + started.uuid@,
        BuildEventIdKind::Progress { progress } => "progress:"@ + int_text(progress.opaque_count as int),
        BuildEventIdKind::TargetConfigured { target_configured } => "configured:"@ + target_configured.label@,
        BuildEventIdKind::TargetCompleted { target_completed } => "completed:"@ + target_completed.label@,
        BuildEventIdKind::TestResult { test_result } => "test:"@ + test_result.label@ + ":"@ + int_text(
            test_result.run as int,
        ) + ":"@ + int_text(test_result.shard as int),
        BuildEventIdKind::BuildFinished { .. } => "finished"@,
    }
}

/// The events after recording `ev` under `key`: it replaces the event of that key where
/// there is one, and comes last otherwise.
pub open spec fn with_event(
    evs: Seq<(Seq<char>, BuildEvent)>,
    key: Seq<char>,
    ev: BuildEvent,
) -> Seq<(Seq<char>, BuildEvent)> {
    if exists|i: int| 0 <= i < evs.len() && evs[i].0 == key {
        evs.update(choose|i: int| 0 <= i < evs.len() && evs[i].0 == key, (key, ev))
    } else {
        evs.push((key, ev))
    }
}

/// The success flag of the first recorded build-finished event.
pub open spec fn build_status_of(evs: Seq<(Seq<char>, BuildEvent)>) -> Option<bool>
    decreases evs.len(),
{
    if evs.len() == 0 {
        None
    } else {
        match build_status_of(evs.drop_last()) {
            Some(b) => Some(b),
            None => match evs.last().1.payload {
                Some(BuildEventPayload::BuildFinished { finished }) => Some(finished.overall_success),
                _ => None,
            },
        }
    }
}

/// The test outcome an event reports: its label and whether it passed.
pub open spec fn test_outcome(ev: BuildEvent) -> Option<(Seq<char>, bool)> {
    match ev.payload {
        Some(BuildEventPayload::TestResult { test_result }) => match ev.id.kind {
            BuildEventIdKind::TestResult { test_result: id } => Some((id.label@, test_result.status@ == "PASSED"@)),
            _ => None,
        },
        _ => None,
    }
}

/// The test outcomes of the recorded events, in order.
pub open spec fn test_outcomes_of(evs: Seq<(Seq<char>, BuildEvent)>) -> Seq<(Seq<char>, bool)>
    decreases evs.len(),
{
    if evs.len() == 0 {
        Seq::empty()
    } else {
        test_outcomes_of(evs.drop_last()) + match test_outcome(evs.last().1) {
            Some(o) => seq![o],
            None => Seq::empty(),
        }
    }
}

/// The uris of files, in order.
pub open spec fn file_uris(fs: Seq<File>) -> Seq<Seq<char>> {
    fs.map_values(|f: File| f.uri@)
}

/// The uris of the files of file sets, in order.
pub open spec fn set_uris(sets: Seq<FileSet>) -> Seq<Seq<char>>
    decreases sets.len(),
{
    if sets.len() == 0 {
        Seq::empty()
    } else {
        set_uris(sets.drop_last()) + file_uris(sets.last().files@)
    }
}

/// The uris of the files of output groups, in order.
pub open spec fn group_uris(groups: Seq<OutputGroup>) -> Seq<Seq<char>>
    decreases groups.len(),
{
    if groups.len() == 0 {
        Seq::empty()
    } else {
        group_uris(groups.drop_last()) + set_uris(groups.last().file_sets@)
    }
}

/// The output files an event reports: the completed target's label and its file uris,
/// when there are any.
pub open spec fn output_of(ev: BuildEvent) -> Option<(Seq<char>, Seq<Seq<char>>)> {
    match ev.payload {
        Some(BuildEventPayload::TargetCompleted { target_completed }) => match ev.id.kind {
            BuildEventIdKind::TargetCompleted { target_completed: id } => {
                let uris = group_uris(target_completed.output_group@);
                if uris.len() > 0 {
                    Some((id.label@, uris))
                } else {
                    None
                }
            },
            _ => None,
        },
        _ => None,
    }
}

/// The output files of the recorded events, in order.
pub open spec fn outputs_of(evs: Seq<(Seq<char>, BuildEvent)>) -> Seq<(Seq<char>, Seq<Seq<char>>)>
    decreases evs.len(),
{
    if evs.len() == 0 {
        Seq::empty()
    } else {
        outputs_of(evs.drop_last()) + match output_of(evs.last().1) {
            Some(o) => seq![o],
            None => Seq::empty(),
        }
    }
}

/// The events of a build, each kept under its key, in the order first seen.
pub struct BuildEventProtocolParser {
    events: Vec<(String, BuildEvent)>,
}

impl BuildEventProtocolParser {
    /// The recorded events with their keys.
    pub closed spec fn events(&self) -> Seq<(Seq<char>, BuildEvent)> {
        self.events@.map_values(|e: (String, BuildEvent)| (e.0@, e.1))
    }

    /// No two events share a key.
    pub open spec fn wf(&self) -> bool {
        forall|i: int, j: int|
            0 <= i < j < self.events().len() ==> #[trigger] self.events()[i].0 != #[trigger] self.events()[j].0
    }

    pub fn new() -> (r: Self)
        ensures
            r.wf(),
            r.events() == Seq::<(Seq<char>, BuildEvent)>::empty(),
    {
        let r = BuildEventProtocolParser { events: Vec::new() };
        assert(r.events() =~= Seq::<(Seq<char>, BuildEvent)>::empty());
        r
    }

    /// The key under which an event of this id is kept.
    pub fn get_event_id_string(&self, id: &BuildEventId) -> (r: String)
        ensures
            r@ == event_key(id.kind),
    {
        match &id.kind {
            BuildEventIdKind::Started { started } => {
                let mut r = String::from_str("started:");
                r.append(started.uuid.as_str());
                r
            },
            BuildEventIdKind::Progress { progress } => {
                let mut r = String::from_str("progress:");
                r.append(int_to_text(progress.opaque_count).as_str());
                r
            },
            BuildEventIdKind::TargetConfigured { target_configured } => {
                let mut r = String::from_str("configured:");
                r.append(target_configured.label.as_str());
                r
            },
            BuildEventIdKind::TargetCompleted { target_completed } => {
                let mut r = String::from_str("completed:");
                r.append(target_completed.label.as_str());
                r
            },
            BuildEventIdKind::TestResult { test_result } => {
                let mut r = String::from_str("test:");
                r.append(test_result.label.as_str());
                r.append(":");
                r.append(int_to_text(test_result.run).as_str());
                r.append(":");
                r.append(int_to_text(test_result.shard).as_str());
                r
            },
            BuildEventIdKind::BuildFinished { .. } => String::from_str("finished"),
        }
    }

    /// Records an event under its key, replacing the event of the same key if any.
    pub fn record_event(&mut self, event: BuildEvent)
        requires
            old(self).wf(),
        ensures
            final(self).wf(),
            final(self).events() == with_event(old(self).events(), event_key(event.id.kind), event),
    {
        let key = self.get_event_id_string(&event.id);
        let ghost evs = self.events();
        let mut i: usize = 0;
        while i < self.events.len()
            invariant
                i <= self.events@.len(),
                self.wf(),
                evs == self.events(),
                evs == old(self).events(),
                key@ == event_key(event.id.kind),
                evs.len() == self.events@.len(),
                forall|j: int| 0 <= j < i ==> evs[j].0 != key@,
            decreases self.events@.len() - i,
        {
            if str_equal(self.events[i].0.as_str(), key.as_str()) {
                assert(evs[i as int].0 == key@);
                let ghost k = choose|j: int| 0 <= j < evs.len() && evs[j].0 == key@;
                assert(k == i) by {
                    if k != i {
                        if k < i {
                            assert(evs[k].0 != key@);
                        } else {
                            assert(evs[i as int].0 != evs[k].0);
                        }
                    }
                }
                let ghost kv = (key@, event);
                assert(exists|j: int| 0 <= j < evs.len() && evs[j].0 == key@);
                assert(with_event(evs, key@, event) == evs.update(i as int, kv));
                self.events.set(i, (key, event));
                assert(self.events() =~= evs.update(i as int, kv));
                assert forall|a: int, b: int| 0 <= a < b < self.events().len() implies
                    #[trigger] self.events()[a].0 != #[trigger] self.events()[b].0 by {
                    assert(self.events()[a].0 == evs[a].0);
                    assert(self.events()[b].0 == evs[b].0);
                }
                return;
            }
            i += 1;
        }
        let ghost kv = (key@, event);
        self.events.push((key, event));
        assert(self.events() =~= evs.push(kv));
        assert forall|a: int, b: int| 0 <= a < b < self.events().len() implies
            #[trigger] self.events()[a].0 != #[trigger] self.events()[b].0 by {
            if b == evs.len() {
                assert(evs[a].0 != key@);
            } else {
                assert(evs[a].0 != evs[b].0);
            }
        }
    }

    /// The success flag of the first recorded build-finished event.
    pub fn get_build_status(&self) -> (r: Option<bool>)
        ensures
            r == build_status_of(self.events()),
    {
        let mut i: usize = 0;
        while i < self.events.len()
            invariant
                i <= self.events@.len(),
                build_status_of(self.events().take(i as int)) is None,
            decreases self.events@.len() - i,
        {
            assert(self.events().take(i + 1).drop_last() =~= self.events().take(i as int));
            match &self.events[i].1.payload {
                Some(BuildEventPayload::BuildFinished { finished }) => {
                    proof {
                        lemma_status_prefix(self.events(), i as int + 1);
                    }
                    return Some(finished.overall_success);
                },
                _ => {},
            }
            i += 1;
        }
        assert(self.events().take(i as int) =~= self.events());
        None
    }

    /// The label and outcome of each recorded test result, in order.
    pub fn get_test_results(&self) -> (r: Vec<(String, bool)>)
        ensures
            r@.map_values(|o: (String, bool)| (o.0@, o.1)) == test_outcomes_of(self.events()),
    {
        proof {
            reveal_strlit("PASSED");
        }
        let mut r: Vec<(String, bool)> = Vec::new();
        let mut i: usize = 0;
        while i < self.events.len()
            invariant
                i <= self.events@.len(),
                r@.map_values(|o: (String, bool)| (o.0@, o.1)) == test_outcomes_of(self.events().take(i as int)),
            decreases self.events@.len() - i,
        {
            let ev = &self.events[i].1;
            let ghost before = r@.map_values(|o: (String, bool)| (o.0@, o.1));
            assert(self.events().take(i + 1).drop_last() =~= self.events().take(i as int));
            assert(self.events().take(i + 1).last().1 == *ev);
            match &ev.payload {
                Some(BuildEventPayload::TestResult { test_result }) => match &ev.id.kind {
                    BuildEventIdKind::TestResult { test_result: id } => {
                        let passed = str_equal(test_result.status.as_str(), "PASSED");
                        r.push((id.label.clone(), passed));
                        assert(r@.map_values(|o: (String, bool)| (o.0@, o.1)) =~= before.push((id.label@, passed)));
                    },
                    _ => {},
                },
                _ => {},
            }
            assert(r@.map_values(|o: (String, bool)| (o.0@, o.1)) =~= test_outcomes_of(self.events().take(i + 1)));
            i += 1;
        }
        assert(self.events().take(i as int) =~= self.events());
        r
    }

    /// Each completed target's label with the uris of its output files, in order; targets
    /// without output files are left out.
    pub fn get_output_files(&self) -> (r: Vec<(String, Vec<String>)>)
        ensures
            r@.map_values(|o: (String, Vec<String>)| (o.0@, texts(o.1@))) == outputs_of(self.events()),
    {
        let mut r: Vec<(String, Vec<String>)> = Vec::new();
        let mut i: usize = 0;
        while i < self.events.len()
            invariant
                i <= self.events@.len(),
                r@.map_values(|o: (String, Vec<String>)| (o.0@, texts(o.1@))) == outputs_of(self.events().take(i as int)),
            decreases self.events@.len() - i,
        {
            let ev = &self.events[i].1;
            let ghost before = r@.map_values(|o: (String, Vec<String>)| (o.0@, texts(o.1@)));
            assert(self.events().take(i + 1).drop_last() =~= self.events().take(i as int));
            assert(self.events().take(i + 1).last().1 == *ev);
            match &ev.payload {
                Some(BuildEventPayload::TargetCompleted { target_completed }) => match &ev.id.kind {
                    BuildEventIdKind::TargetCompleted { target_completed: id } => {
                        let files = uris_of_groups(&target_completed.output_group);
                        if files.len() > 0 {
                            let ghost item = (id.label@, texts(files@));
                            r.push((id.label.clone(), files));
                            assert(r@.map_values(|o: (String, Vec<String>)| (o.0@, texts(o.1@))) =~= before.push(item));
                        }
                    },
                    _ => {},
                },
                _ => {},
            }
            assert(r@.map_values(|o: (String, Vec<String>)| (o.0@, texts(o.1@))) =~= outputs_of(self.events().take(i + 1)));
            i += 1;
        }
        assert(self.events().take(i as int) =~= self.events());
        r
    }
}

proof fn lemma_status_prefix(evs: Seq<(Seq<char>, BuildEvent)>, n: int)
    requires
        0 < n <= evs.len(),
        build_status_of(evs.take(n)) is Some,
    ensures
        build_status_of(evs) == build_status_of(evs.take(n)),
    decreases evs.len(),
{
    if n < evs.len() {
        assert(evs.drop_last().take(n) =~= evs.take(n));
        lemma_status_prefix(evs.drop_last(), n);
    } else {
        assert(evs.take(n) =~= evs);
    }
}

/// The uris of the files of output groups, in order.
fn uris_of_groups(groups: &Vec<OutputGroup>) -> (r: Vec<String>)
    ensures
        texts(r@) == group_uris(groups@),
{
    let mut r: Vec<String> = Vec::new();
    let mut g: usize = 0;
    while g < groups.len()
        invariant
            g <= groups@.len(),
            texts(r@) == group_uris(groups@.take(g as int)),
        decreases groups@.len() - g,
    {
        let sets = &groups[g].file_sets;
        let ghost base = texts(r@);
        let mut s: usize = 0;
        while s < sets.len()
            invariant
                s <= sets@.len(),
                texts(r@) == base + set_uris(sets@.take(s as int)),
            decreases sets@.len() - s,
        {
            let files = &sets[s].files;
            let ghost base2 = texts(r@);
            let mut f: usize = 0;
            while f < files.len()
                invariant
                    f <= files@.len(),
                    texts(r@) == base2 + file_uris(files@.take(f as int)),
                decreases files@.len() - f,
            {
                let ghost before = texts(r@);
                r.push(files[f].uri.clone());
                assert(texts(r@) =~= before.push(files@[f as int].uri@));
                assert(file_uris(files@.take(f + 1)) =~= file_uris(files@.take(f as int)).push(files@[f as int].uri@));
                assert(texts(r@) =~= base2 + file_uris(files@.take(f + 1)));
                f += 1;
            }
            assert(files@.take(f as int) =~= files@);
            assert(sets@.take(s + 1).drop_last() =~= sets@.take(s as int));
            assert(texts(r@) =~= base + set_uris(sets@.take(s + 1)));
            s += 1;
        }
        assert(sets@.take(s as int) =~= sets@);
        assert(groups@.take(g + 1).drop_last() =~= groups@.take(g as int));
        assert(texts(r@) =~= group_uris(groups@.take(g + 1)));
        g += 1;
    }
    assert(groups@.take(g as int) =~= groups@);
    r
}

} // verus!
