use bazel_lsp::client::{query_output_lines, query_target_names, target_info_from_output, QueryCache};
use bazel_lsp::graph::{BuildGraph, LensCommand};
use bazel_lsp::loader::parse_build_file;
use bazel_lsp::query::{AttributeValue, Discriminator, QueryAttribute, QueryParser, QueryResultMessage, QueryRule, QuerySourceFile, QueryTarget};
use bazel_lsp::routing::{
    build_file_candidates, build_rule_completions, extension_of, extract_bazel_target, hover_text, relay_list,
    relay_option, source_file_lenses, target_dependencies, Language, LanguageCoordinator,
};

#[test]
fn unknown_extension_is_never_routed() {
    let mut c = LanguageCoordinator::new();
    for l in [Language::Go, Language::TypeScript, Language::Python, Language::Java, Language::Unknown] {
        c.register_started(l);
    }
    assert_eq!(c.route("/src/main.rs"), None);
    assert_eq!(c.route("/src/README"), None);
    assert_eq!(c.route("/src/a.go"), Some(Language::Go));
}

#[test]
fn absent_backend_gives_nothing() {
    let mut c = LanguageCoordinator::new();
    c.register_started(Language::Python);
    assert_eq!(c.route("/x/y.py"), Some(Language::Python));
    assert_eq!(c.route("/x/y.java"), None);
    c.clear();
    assert_eq!(c.route("/x/y.py"), None);
    assert_eq!(relay_option::<u8, String>(Err("lost".to_string())), None);
    assert_eq!(relay_option::<u8, String>(Ok(Some(3))), Some(3));
    assert!(relay_list::<u8, String>(Err("timeout".to_string())).is_empty());
}

#[test]
fn extensions() {
    assert_eq!(extension_of("/a.b/c.tsx"), "tsx");
    assert_eq!(extension_of("/a.b/c"), "b/c");
    assert_eq!(extension_of("noext"), "noext");
}

#[test]
fn reference_under_cursor() {
    let text = "import x\nload(\"//tools/build:defs.bzl\")\n";
    assert_eq!(extract_bazel_target(text, 1, 8), Some("//tools/build:defs".to_string()));
    assert_eq!(extract_bazel_target(text, 1, 1), None);
    assert_eq!(extract_bazel_target(text, 5, 1), None);
}

#[test]
fn candidate_build_files() {
    assert_eq!(
        build_file_candidates("/ws", "//a/b:c"),
        vec!["/ws/a/b/BUILD".to_string(), "/ws/a/b/BUILD.bazel".to_string()]
    );
    assert_eq!(build_file_candidates("/ws", "//:c"), vec!["/ws/BUILD".to_string(), "/ws/BUILD.bazel".to_string()]);
    assert!(build_file_candidates("/ws", "a/b").is_empty());
}

#[test]
fn lenses_and_dependencies_for_source_files() {
    let ts = parse_build_file("/ws", "/ws/p/BUILD", "go_test(name=\"t\", srcs=[\"t.go\"], deps=[\":l\"])\ngo_library(name=\"l\", srcs=[\"l.go\"])").unwrap();
    let mut g = BuildGraph::new();
    g.scan_workspace("/ws".to_string(), ts);
    let lenses = source_file_lenses(&g.get_target_for_file("/ws/p/t.go"));
    assert_eq!(lenses.len(), 2);
    assert_eq!(lenses[0].command, LensCommand::RunTest);
    assert_eq!(lenses[1].command, LensCommand::DebugTest);
    assert_eq!(lenses[1].label, "//p:t");
    assert!(source_file_lenses(&g.get_target_for_file("/ws/p/l.go")).is_empty());
    let deps = target_dependencies(&g, "//p:l");
    assert!(deps.exists);
    assert!(deps.dependencies.is_empty());
    assert_eq!(deps.reverse_dependencies, vec!["//p:t".to_string()]);
    let missing = target_dependencies(&g, "//p:none");
    assert!(!missing.exists);
}

#[test]
fn completions_and_hover() {
    let items = build_rule_completions();
    assert_eq!(items.len(), 6);
    assert_eq!(items[0].label, "cc_library");
    assert_eq!(items[5].detail, "Go test rule");
    assert_eq!(
        hover_text("//a:b", "cc_library", "//visibility:public"),
        "**Bazel Target**: `//a:b`\n\n**Kind**: cc_library\n\n**Visibility**: //visibility:public"
    );
}

#[test]
fn query_outputs() {
    let info = target_info_from_output("cc_library rule //a:b\ngo_library rule //c:d\n").unwrap();
    assert_eq!(info.kind, "cc_library");
    assert_eq!(info.visibility, "//visibility:public");
    assert!(target_info_from_output("lonely\n").is_none());
    assert!(target_info_from_output("").is_none());
    let lines = query_output_lines("//a:b\r\n\n//c:d\n");
    assert_eq!(lines.targets, vec!["//a:b".to_string(), "//c:d".to_string()]);
}

#[test]
fn query_results() {
    let msg = QueryResultMessage {
        target: vec![
            QueryTarget {
                discriminator: Discriminator::Rule,
                rule: Some(QueryRule {
                    name: "//a:b".to_string(),
                    rule_class: "cc_library".to_string(),
                    attribute: vec![
                        QueryAttribute { name: "linkstatic".to_string(), value: Some(AttributeValue::Bool(true)) },
                        QueryAttribute { name: "empty".to_string(), value: None },
                        QueryAttribute { name: "linkstatic".to_string(), value: Some(AttributeValue::Int(0)) },
                    ],
                    rule_input: vec!["//a:x.cc".to_string()],
                    rule_output: vec![],
                }),
                source_file: None,
            },
            QueryTarget { discriminator: Discriminator::SourceFile, rule: None, source_file: Some(QuerySourceFile { name: "//a:x.cc".to_string() }) },
            QueryTarget { discriminator: Discriminator::Unknown, rule: None, source_file: None },
            QueryTarget { discriminator: Discriminator::Rule, rule: None, source_file: None },
        ],
    };
    let parsed = QueryParser::new().parse_proto_output(msg);
    assert_eq!(parsed.targets.len(), 2);
    assert_eq!(parsed.targets[0].kind, "cc_library");
    assert_eq!(parsed.targets[0].attributes.len(), 1);
    assert!(matches!(parsed.targets[0].attributes[0].1, AttributeValue::Int(0)));
    assert_eq!(parsed.targets[1].kind, "source_file");
    assert_eq!(parsed.targets[1].outputs, vec!["//a:x.cc".to_string()]);
    let names = query_target_names(&parsed);
    assert_eq!(names.targets, vec!["//a:b".to_string(), "//a:x.cc".to_string()]);
}

#[test]
fn query_cache_keeps_recent_results() {

    let mut cache = QueryCache::new(1);
    assert!(cache.lookup("deps(//a:b)").is_none());
    let r = cache.record("deps(//a:b)", None, "//a:b\n//a:c\n");
    assert_eq!(r.targets, vec!["//a:b".to_string(), "//a:c".to_string()]);
    assert_eq!(cache.lookup("deps(//a:b)").unwrap().targets, r.targets);
    cache.record("deps(//x:y)", None, "//x:y\n");
    assert!(cache.lookup("deps(//a:b)").is_none());
    assert_eq!(cache.lookup("deps(//x:y)").unwrap().targets, vec!["//x:y".to_string()]);
}
