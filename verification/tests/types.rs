use bexp::types::{DetailLevel, EdgeKind, Language, NodeKind};

#[test]
fn languages_from_extensions() {
    assert_eq!(Language::from_extension("ts"), Some(Language::TypeScript));
    assert_eq!(Language::from_extension("tsx"), Some(Language::TypeScript));
    assert_eq!(Language::from_extension("mjs"), Some(Language::JavaScript));
    assert_eq!(Language::from_extension("pyi"), Some(Language::Python));
    assert_eq!(Language::from_extension("rs"), Some(Language::Rust));
    assert_eq!(Language::from_extension("htm"), Some(Language::Html));
    assert_eq!(Language::from_extension("h"), Some(Language::C));
    assert_eq!(Language::from_extension("hpp"), Some(Language::Cpp));
    assert_eq!(Language::from_extension("RS"), None);
    assert_eq!(Language::from_extension(""), None);
    assert_eq!(Language::from_extension("env"), None);
    assert_eq!(Language::Dotenv.as_str(), "dotenv");
}

#[test]
fn kind_names_round_trip() {
    for k in [
        NodeKind::Function,
        NodeKind::Method,
        NodeKind::Class,
        NodeKind::Struct,
        NodeKind::Enum,
        NodeKind::EnumVariant,
        NodeKind::Interface,
        NodeKind::Trait,
        NodeKind::Impl,
        NodeKind::TypeAlias,
        NodeKind::Constant,
        NodeKind::Variable,
        NodeKind::Module,
        NodeKind::Import,
        NodeKind::EnvVar,
        NodeKind::ApiEndpoint,
        NodeKind::External,
    ] {
        assert_eq!(NodeKind::parse(k.as_str()), Some(k));
    }
    for k in [
        EdgeKind::Calls,
        EdgeKind::Imports,
        EdgeKind::Implements,
        EdgeKind::Extends,
        EdgeKind::TypeRef,
        EdgeKind::Contains,
        EdgeKind::ReadsEnv,
        EdgeKind::DefinesApi,
    ] {
        assert_eq!(EdgeKind::parse(k.as_str()), Some(k));
    }
    assert_eq!(NodeKind::parse("type_alias"), Some(NodeKind::TypeAlias));
    assert_eq!(EdgeKind::parse("type_ref"), Some(EdgeKind::TypeRef));
    assert_eq!(NodeKind::parse("Function"), None);
    assert_eq!(EdgeKind::parse("call"), None);
    assert_eq!(DetailLevel::Minimal.as_str(), "minimal");
}
