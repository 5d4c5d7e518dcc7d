use bazel_lsp::label::split_label;
use bazel_lsp::routing::{get_language_for_uri, is_build_file, language_name};

#[test]
fn test_parse_bazel_target() {
    let target = "//path/to:target";
    assert!(target.starts_with("//"));

    let parts = split_label(target).expect("a well-formed label");
    assert_eq!(parts.0, "path/to");
    assert_eq!(parts.1, "target");
}

#[test]
fn test_build_file_extensions() {
    let build_files = vec!["BUILD", "BUILD.bazel", "test.bzl"];

    for file in &build_files {
        if file == &"BUILD" || file == &"BUILD.bazel" {
            assert!(is_build_file(file));
        } else {
            assert!(!is_build_file(file));
        }
    }
}

#[test]
fn test_language_detection() {
    let test_cases = vec![
        ("file.go", "go"),
        ("file.ts", "typescript"),
        ("file.tsx", "typescript"),
        ("file.js", "typescript"),
        ("file.jsx", "typescript"),
        ("file.py", "python"),
        ("file.java", "java"),
        ("file.rs", "unknown"),
    ];

    for (filename, expected_lang) in test_cases {
        let lang = language_name(get_language_for_uri(filename));
        assert_eq!(lang, expected_lang);
    }
}
