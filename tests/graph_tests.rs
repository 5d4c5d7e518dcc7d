use bazel_lsp::graph::{BuildGraph, LensCommand};
use bazel_lsp::label::{make_label, split_label};
use bazel_lsp::loader::{is_scanned_build_file, package_of_file, parse_build_file, resolve_dependency, LoadError};
use bazel_lsp::syntax::{parse_build_text, AttrValue};

const PKG_BUILD: &str = "cc_library(name=\"foo\", srcs=[\"a.cc\"], deps=[])\ncc_test(name=\"foo_test\", srcs=[\"a_test.cc\"], deps=[\":foo\"])\n";

fn scanned() -> BuildGraph {
    let targets = parse_build_file("/ws", "/ws/pkg/BUILD", PKG_BUILD).unwrap();
    let mut g = BuildGraph::new();
    let n = g.scan_workspace("/ws".to_string(), targets);
    assert_eq!(n, 2);
    g
}

fn sorted(mut v: Vec<String>) -> Vec<String> {
    v.sort();
    v
}

#[test]
fn scenario_cc_library_and_test() {
    let g = scanned();
    assert_eq!(g.get_target("//pkg:foo").unwrap().kind, "cc_library");
    assert_eq!(g.get_target("//pkg:foo_test").unwrap().kind, "cc_test");
    assert_eq!(g.get_reverse_dependencies("//pkg:foo"), vec!["//pkg:foo_test".to_string()]);
    let lenses = g.get_code_lenses("/ws/pkg/BUILD");
    assert_eq!(lenses.len(), 3);
    let builds: Vec<String> =
        lenses.iter().filter(|l| l.command == LensCommand::Build).map(|l| l.label.clone()).collect();
    let tests: Vec<String> =
        lenses.iter().filter(|l| l.command == LensCommand::Test).map(|l| l.label.clone()).collect();
    assert_eq!(sorted(builds), vec!["//pkg:foo".to_string(), "//pkg:foo_test".to_string()]);
    assert_eq!(tests, vec!["//pkg:foo_test".to_string()]);
}

#[test]
fn each_named_rule_gives_one_label() {
    let text = "cc_binary(name = \"app\")\ngo_library(name='lib')\ngenrule(name = \"gen\")\npy_test(srcs = [\"t.py\"])\n";
    let targets = parse_build_file("/ws", "/ws/BUILD", text).unwrap();
    let labels: Vec<String> = targets.iter().map(|t| t.label.clone()).collect();
    assert_eq!(labels, vec!["//:app".to_string(), "//:lib".to_string()]);
    let mut g = BuildGraph::new();
    assert_eq!(g.scan_workspace("/ws".to_string(), targets), 2);
    let again = parse_build_file("/ws", "/ws/BUILD", text).unwrap();
    let mut h = BuildGraph::new();
    h.scan_workspace("/ws".to_string(), again);
    let a = sorted(g.get_all_targets().into_iter().map(|t| t.label).collect());
    let b = sorted(h.get_all_targets().into_iter().map(|t| t.label).collect());
    assert_eq!(a, b);
}

#[test]
fn update_touches_only_the_files_labels() {
    let mut g = scanned();
    let other = parse_build_file("/ws", "/ws/lib/BUILD", "go_library(name=\"x\", deps=[\"//pkg:foo\"])").unwrap();
    g.load_targets(other);
    let n = g.update_build_file("/ws/pkg/BUILD", "cc_library(name=\"foo\", srcs=[\"b.cc\"])").unwrap();
    assert_eq!(n, 1);
    assert_eq!(g.get_target("//pkg:foo").unwrap().srcs, vec!["b.cc".to_string()]);
    // A label the file no longer lists keeps its old record.
    assert_eq!(g.get_target("//pkg:foo_test").unwrap().kind, "cc_test");
    let x = g.get_target("//lib:x").unwrap();
    assert_eq!(x.deps, vec!["//pkg:foo".to_string()]);
    assert_eq!(x.location.file, "/ws/lib/BUILD");
}

#[test]
fn update_errors() {
    let mut g = BuildGraph::new();
    assert_eq!(g.update_build_file("/ws/BUILD", "cc_library(name=\"a\")"), Err(LoadError::NoWorkspace));
    g.scan_workspace("/ws".to_string(), Vec::new());
    assert_eq!(g.update_build_file("/ws/BUILD", "cc_library(name=\"a\""), Err(LoadError::Malformed));
    assert!(g.get_target("//:a").is_none());
    assert_eq!(g.update_build_file("/ws/BUILD", "cc_library(name=\"a\")"), Ok(1));
    assert!(g.get_target("//:a").is_some());
}

#[test]
fn reverse_dependents_match_dependencies() {
    let g = scanned();
    for t in g.get_all_targets() {
        for d in &t.deps {
            assert!(g.get_reverse_dependencies(d).contains(&t.label));
        }
    }
    assert!(g.get_reverse_dependencies("//pkg:foo_test").is_empty());
}

#[test]
fn stale_edges_stay_after_a_dependency_is_dropped() {
    let mut g = scanned();
    g.update_build_file("/ws/pkg/BUILD", "cc_test(name=\"foo_test\", srcs=[\"a_test.cc\"])").unwrap();
    assert!(g.get_target("//pkg:foo_test").unwrap().deps.is_empty());
    assert_eq!(g.get_reverse_dependencies("//pkg:foo"), vec!["//pkg:foo_test".to_string()]);
}

#[test]
fn primary_target_of_a_source_file() {
    let g = scanned();
    assert_eq!(g.get_target_for_file("/ws/pkg/a.cc").unwrap().label, "//pkg:foo");
    assert_eq!(g.get_target_for_file("/ws/pkg/a_test.cc").unwrap().label, "//pkg:foo_test");
    assert!(g.get_target_for_file("/ws/pkg/none.cc").is_none());
}

#[test]
fn references_are_dependents_and_source_mentions() {
    let text = "cc_library(name=\"foo\")\ncc_binary(name=\"bin\", srcs=[\"//pkg:foo\"])\ncc_test(name=\"t\", deps=[\":foo\"])";
    let targets = parse_build_file("/ws", "/ws/pkg/BUILD", text).unwrap();
    let mut g = BuildGraph::new();
    g.scan_workspace("/ws".to_string(), targets);
    let refs = g.find_references("//pkg:foo");
    assert_eq!(refs.len(), 2);
    assert!(refs.iter().all(|l| l.file == "/ws/pkg/BUILD" && l.line == 0 && l.character == 0));
    assert!(g.find_references("//pkg:none").is_empty());
}

#[test]
fn target_at_position() {
    let g = scanned();
    let text = "cc_test(\n    deps = [\":foo\", \"//other:bar\"],\n)\n";
    assert_eq!(g.get_target_at_position("/ws/pkg/BUILD", text, 1, 14), Some("//pkg:foo".to_string()));
    assert_eq!(g.get_target_at_position("/ws/pkg/BUILD", text, 1, 25), Some("//other:bar".to_string()));
    let fallback = g.get_target_at_position("/ws/pkg/BUILD", text, 0, 2).unwrap();
    assert!(fallback == "//pkg:foo" || fallback == "//pkg:foo_test");
    let empty = BuildGraph::new();
    assert_eq!(empty.get_target_at_position("/ws/x/BUILD", text, 1, 14), None);
    assert_eq!(empty.get_target_at_position("/ws/x/BUILD", text, 1, 25), Some("//other:bar".to_string()));
}

#[test]
fn labels_round_trip() {
    for label in ["//pkg:foo", "//:root", "//a/b/c:d-e"] {
        let (p, n) = split_label(label).unwrap();
        assert_eq!(make_label(&p, &n), label);
    }
    assert_eq!(make_label("", "x"), "//:x");
    assert_eq!(split_label("//:x"), Some((String::new(), "x".to_string())));
    assert_eq!(split_label(":x"), None);
    assert_eq!(split_label("//a:b:c"), None);
    assert_eq!(split_label("//ab"), None);
}

#[test]
fn packages_and_dependencies() {
    assert_eq!(package_of_file("/ws", "/ws/a/b/BUILD"), "a/b");
    assert_eq!(package_of_file("/ws", "/ws/BUILD"), "");
    assert_eq!(package_of_file("/ws", "/elsewhere/BUILD"), "");
    assert_eq!(resolve_dependency("a/b", ":x"), "//a/b:x");
    assert_eq!(resolve_dependency("", ":x"), "//:x");
    assert_eq!(resolve_dependency("a", "//c:d"), "//c:d");
}

#[test]
fn build_text_syntax() {
    let calls = parse_build_text("# comment\nload(\"//x:y.bzl\", \"z\")\ncc_library(\n  name = \"a\", # trailing\n  srcs = glob([\"*.cc\"]),\n  copts = [\"-O2\", [\"n\"]],\n  linkstatic = True,\n)\n").unwrap();
    assert_eq!(calls.len(), 2);
    assert_eq!(calls[0].kind, "load");
    assert_eq!(calls[0].args[0].0, "");
    assert_eq!(calls[1].args.len(), 4);
    match &calls[1].args[1].1 {
        AttrValue::Other(s) => assert_eq!(s, "glob([\"*.cc\"])"),
        _ => panic!("expected unstructured value"),
    }
    match &calls[1].args[2].1 {
        AttrValue::List(v) => assert_eq!(v, &vec!["-O2".to_string()]),
        _ => panic!("expected list"),
    }
    assert!(parse_build_text("").unwrap().is_empty());
    assert!(parse_build_text("x = 1").is_none());
    assert!(parse_build_text("cc_library(name = \"a\"").is_none());
}

#[test]
fn attributes_are_kept() {
    let ts = parse_build_file("/ws", "/ws/BUILD", "java_test(name=\"t\", size=\"small\", tags=[\"a\"])").unwrap();
    assert_eq!(ts[0].attributes.len(), 2);
    assert_eq!(ts[0].attributes[0].0, "size");
    assert!(ts[0].is_test());
    assert_eq!(ts[0].package, "");
}

#[test]
fn scan_selects_build_files() {
    assert!(is_scanned_build_file("/ws/a/BUILD"));
    assert!(is_scanned_build_file("/ws/a/BUILD.bazel"));
    assert!(is_scanned_build_file("BUILD"));
    assert!(is_scanned_build_file("/ws/mybazel-x/BUILD"));
    assert!(!is_scanned_build_file("/ws/bazel-out/a/BUILD"));
    assert!(!is_scanned_build_file("/ws/.bazel/bin/BUILD"));
    assert!(!is_scanned_build_file("/ws/a/test.bzl"));
    assert!(!is_scanned_build_file("/ws/a/BUILD/x"));
}
