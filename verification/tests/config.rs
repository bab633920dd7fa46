use bexp::config::{bexpConfig, default_excludes};
use bexp::indexer::scanner::Scanner;
use bexp::types::DetailLevel;
use bexp::indexer::scanner::{language_for_path, path_extension};
use bexp::types::Language;

#[test]
fn is_excluded_checks_path_components() {
    let config = bexpConfig::default();

    assert!(config.is_excluded("src/node_modules/pkg/index.ts"));
    assert!(config.is_excluded(".bexp/index.db"));
    assert!(!config.is_excluded("src/.github/workflows/ci.yml"));
    assert!(!config.is_excluded("src/module/git_utils.rs"));
}

#[test]
fn defaults_match_documented_values() {
    let config = bexpConfig::default();
    assert_eq!(config.token_budget, 8000);
    assert_eq!(config.default_skeleton_level, DetailLevel::Standard);
    assert!(config.exclude_patterns.iter().any(|p| p == "node_modules"));
    assert!(config.exclude_patterns.iter().any(|p| p == ".bexp"));
    assert_eq!(config.db_path, ".bexp/index.db");
    assert_eq!(config.max_file_size, 1_000_000);
    assert_eq!(config.watcher_debounce_ms, 500);
    assert_eq!(config.memory_budget_pct, 10);
    assert_eq!(config.session_compress_after_hours, 2);
    assert_eq!(config.observation_ttl_days, 90);
    assert!(!config.lsp_resolution);
    assert!(config.lsp_servers.is_empty());
    assert!(config.workspace_group.is_empty());
    assert_eq!(default_excludes().len(), 12);
}

#[test]
fn db_path_joins_workspace_root() {
    let config = bexpConfig::default();
    assert_eq!(config.db_path("/work/space"), "/work/space/.bexp/index.db");
}

#[test]
fn is_excluded_empty_path() {
    let config = bexpConfig::default();
    assert!(!config.is_excluded(""));
    assert!(config.is_excluded("target"));
    assert!(!config.is_excluded("targets/x"));
}

#[test]
fn scanner_excludes_relative_to_root() {
    let config = bexpConfig::default();
    let scanner = Scanner::new(&config);
    assert!(scanner.is_excluded("/ws/node_modules/x.js", "/ws"));
    assert!(!scanner.is_excluded("/ws/src/x.js", "/ws"));
    assert!(!scanner.is_excluded("/other/node_modules/x.js", "/ws"));
}

#[test]
fn dotenv_file_names() {
    assert!(Scanner::is_dotenv_file(".env"));
    assert!(Scanner::is_dotenv_file("config/.env.local"));
    assert!(!Scanner::is_dotenv_file(".envrc"));
    assert!(!Scanner::is_dotenv_file("env"));
    assert!(Scanner::is_dotenv_file(".env."));
}

#[test]
fn path_extensions() {
    assert_eq!(path_extension("src/main.rs"), Some("rs".to_string()));
    assert_eq!(path_extension("a/b.tar.gz"), Some("gz".to_string()));
    assert_eq!(path_extension("a/.bashrc"), None);
    assert_eq!(path_extension("a/Makefile"), None);
    assert_eq!(path_extension("a/file."), Some("".to_string()));
    assert_eq!(path_extension("a/.."), None);
    assert_eq!(path_extension(""), None);
}

#[test]
fn scanner_accepts_files() {
    let config = bexpConfig::default();
    let scanner = Scanner::new(&config);
    assert!(scanner.accepts("/w/src/lib.rs", Some(10)));
    assert!(scanner.accepts("/w/src/lib.rs", None));
    assert!(!scanner.accepts("/w/src/lib.rs", Some(2_000_000)));
    assert!(!scanner.accepts("/w/README.md", Some(10)));
    assert!(scanner.accepts("/w/.env", Some(10)));
    assert!(!scanner.accepts("/w/.env", None));
    assert!(scanner.accepts("/w/.env.local", Some(1_000_000)));
    assert!(!scanner.accepts("/w/.env.local", Some(1_000_001)));
}

#[test]
fn languages_of_paths() {
    assert_eq!(language_for_path("src/app.tsx"), Some(Language::TypeScript));
    assert_eq!(language_for_path(".env"), Some(Language::Dotenv));
    assert_eq!(language_for_path("cfg/.env.local"), None);
    assert_eq!(language_for_path("Makefile"), None);
}
