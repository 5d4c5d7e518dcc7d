use bazel_lsp::bep::{
    BuildEvent, BuildEventId, BuildEventIdKind, BuildEventPayload, BuildEventProtocolParser, BuildFinished,
    BuildFinishedPayload, ExitCode, File, FileSet, OutputGroup, Progress, TargetCompleted, TargetCompletedPayload,
    TestResult, TestResultPayload,
};
use bazel_lsp::client::{build_result, test_result};

fn test_event(label: &str, run: i32, status: &str) -> BuildEvent {
    BuildEvent {
        id: BuildEventId { kind: BuildEventIdKind::TestResult { test_result: TestResult { label: label.to_string(), run, shard: 0 } } },
        children: None,
        payload: Some(BuildEventPayload::TestResult {
            test_result: TestResultPayload {
                status: status.to_string(),
                cached_locally: false,
                test_attempt_duration_millis: Some(5),
                test_logs: vec![],
            },
        }),
    }
}

fn finished(ok: bool) -> BuildEvent {
    BuildEvent {
        id: BuildEventId { kind: BuildEventIdKind::BuildFinished { build_finished: BuildFinished {} } },
        children: None,
        payload: Some(BuildEventPayload::BuildFinished {
            finished: BuildFinishedPayload {
                overall_success: ok,
                exit_code: ExitCode { name: "FAILED".to_string(), code: 1 },
                finish_time_millis: 0,
            },
        }),
    }
}

fn completed(label: &str, uris: &[&str]) -> BuildEvent {
    BuildEvent {
        id: BuildEventId {
            kind: BuildEventIdKind::TargetCompleted {
                target_completed: TargetCompleted { label: label.to_string(), aspect: None, configuration: None },
            },
        },
        children: None,
        payload: Some(BuildEventPayload::TargetCompleted {
            target_completed: TargetCompletedPayload {
                success: true,
                output_group: vec![OutputGroup {
                    name: "default".to_string(),
                    file_sets: vec![FileSet {
                        files: uris.iter().map(|u| File { name: "f".to_string(), uri: u.to_string() }).collect(),
                    }],
                }],
                target_kind: "cc_library rule".to_string(),
                test_size: None,
            },
        }),
    }
}

#[test]
fn finished_false_wins_over_passing_tests() {
    let mut p = BuildEventProtocolParser::new();
    p.record_event(test_event("//a:t", 1, "PASSED"));
    p.record_event(test_event("//b:t", 1, "PASSED"));
    p.record_event(finished(false));
    assert_eq!(p.get_build_status(), Some(false));
    assert!(p.get_test_results().iter().all(|(_, passed)| *passed));
    assert!(!build_result(&p, true).success);
    assert!(!test_result(&p, true).success);
}

#[test]
fn finished_true_leaves_test_outcomes_in_charge() {
    let mut p = BuildEventProtocolParser::new();
    p.record_event(test_event("//a:t", 1, "PASSED"));
    p.record_event(finished(true));
    assert!(test_result(&p, false).success);
    p.record_event(test_event("//b:t", 1, "FAILED"));
    assert!(!test_result(&p, true).success);
}

#[test]
fn status_falls_back_to_exit() {
    let p = BuildEventProtocolParser::new();
    assert_eq!(p.get_build_status(), None);
    assert!(build_result(&p, true).success);
    assert!(!build_result(&p, false).success);
    assert!(test_result(&p, true).success);
}

#[test]
fn test_outcomes() {
    let mut p = BuildEventProtocolParser::new();
    p.record_event(test_event("//a:t", 1, "PASSED"));
    p.record_event(test_event("//b:t", 1, "FAILED"));
    let results = p.get_test_results();
    assert_eq!(results, vec![("//a:t".to_string(), true), ("//b:t".to_string(), false)]);
    assert!(!test_result(&p, true).success);
    // The same key replaces the earlier event.
    p.record_event(test_event("//b:t", 1, "PASSED"));
    assert_eq!(p.get_test_results().len(), 2);
    assert!(test_result(&p, false).success);
    // Another run is another event.
    p.record_event(test_event("//b:t", 2, "FAILED"));
    assert_eq!(p.get_test_results().len(), 3);
}

#[test]
fn output_files() {
    let mut p = BuildEventProtocolParser::new();
    p.record_event(completed("//a:lib", &["file:///out/liba.a", "file:///out/liba.so"]));
    p.record_event(completed("//b:empty", &[]));
    assert_eq!(
        p.get_output_files(),
        vec![("//a:lib".to_string(), vec!["file:///out/liba.a".to_string(), "file:///out/liba.so".to_string()])]
    );
}

#[test]
fn event_keys() {
    let p = BuildEventProtocolParser::new();
    let id = BuildEventId { kind: BuildEventIdKind::Progress { progress: Progress { opaque_count: -42 } } };
    assert_eq!(p.get_event_id_string(&id), "progress:-42");
    let id = BuildEventId { kind: BuildEventIdKind::TestResult { test_result: TestResult { label: "//x:y".to_string(), run: 10, shard: 0 } } };
    assert_eq!(p.get_event_id_string(&id), "test://x:y:10:0");
    let id = BuildEventId { kind: BuildEventIdKind::BuildFinished { build_finished: BuildFinished {} } };
    assert_eq!(p.get_event_id_string(&id), "finished");
}
