use bexp::git::hooks::{hook_file_text, post_checkout_hook, post_merge_hook, pre_commit_hook};
use bexp::git::parse_submodule_paths;

#[test]
fn parses_submodule_paths() {
    let content = r#"[submodule "foo"]
	path = lib/foo
	url = https://github.com/example/foo.git
[submodule "bar"]
	path = vendor/bar
	url = https://github.com/example/bar.git
[submodule "missing"]
	path = does/not/exist
	url = https://github.com/example/missing.git
"#;
    assert_eq!(
        parse_submodule_paths(content),
        vec!["lib/foo".to_string(), "vendor/bar".to_string(), "does/not/exist".to_string()]
    );
}

#[test]
fn submodule_lines_need_path_equals_value() {
    let content = "path=a\n  path   =   b c  \npath =\npathx = y\n path: z\n";
    assert_eq!(parse_submodule_paths(content), vec!["a".to_string(), "b c".to_string()]);
    assert!(parse_submodule_paths("").is_empty());
}

#[test]
fn hook_scripts() {
    assert_eq!(
        pre_commit_hook("vexp"),
        "#!/bin/sh\n# Vexp: Flush WAL before commit\nif command -v vexp >/dev/null 2>&1; then\n    vexp flush-wal 2>/dev/null || true\nfi\n"
    );
    assert_eq!(
        post_merge_hook("/bin/vx"),
        "#!/bin/sh\n# Vexp: Re-index after merge\nif command -v /bin/vx >/dev/null 2>&1; then\n    /bin/vx reindex 2>/dev/null &\nfi\n"
    );
    let pc = post_checkout_hook("vexp");
    assert!(pc.starts_with("#!/bin/sh\n# Vexp: Re-index after branch switch\n"));
    assert!(pc.contains("if [ \"$3\" = \"1\" ]; then\n"));
    assert!(pc.contains("        vexp reindex 2>/dev/null &\n    fi\nfi\n"));
}

#[test]
fn hook_installation_keeps_foreign_hooks() {
    assert_eq!(hook_file_text(None, "NEW"), "NEW");
    assert_eq!(hook_file_text(Some("old # Vexp: x"), "NEW"), "NEW");
    assert_eq!(hook_file_text(Some("#!/bin/sh\necho hi\n\n  "), "NEW"), "#!/bin/sh\necho hi\n\nNEW");
}
