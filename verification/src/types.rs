//! Shared vocabulary of the index: languages, symbol kinds, relationship kinds,
//! query intents and skeleton detail levels.
use vstd::prelude::*;

use crate::text::{chars_of, eq_str};

verus! {

/// What a query is after, as detected from its wording.
#[derive(Debug, Clone, Copy, PartialEq, Eq, Structural)]
pub enum Intent {
    Debug,
    BlastRadius,
    Modify,
    Explore,
}

impl Intent {
    pub open spec fn name_view(self) -> Seq<char> {
        match self {
            Intent::Debug => "debug"@,
            Intent::BlastRadius => "blast_radius"@,
            Intent::Modify => "modify"@,
            Intent::Explore => "explore"@,
        }
    }

    /// The stable lowercase name of the intent.
    pub fn as_str(&self) -> (r: &'static str)
        ensures
            r@ == self.name_view(),
    {
        match self {
            Intent::Debug => "debug",
            Intent::BlastRadius => "blast_radius",
            Intent::Modify => "modify",
            Intent::Explore => "explore",
        }
    }
    /// The intent whose name is `s`, if any (used for explicit overrides).
    pub fn parse(s: &str) -> (r: Option<Intent>)
        ensures
            r matches Some(k) ==> k.name_view() == s@,
            r is None ==> forall|k: Intent| k.name_view() != s@,
    {
        let v = chars_of(s);
        proof {
            reveal_strlit("debug");
            reveal_strlit("blast_radius");
            reveal_strlit("modify");
            reveal_strlit("explore");
        }
        if eq_str(&v, "debug") {
            Some(Intent::Debug)
        } else if eq_str(&v, "blast_radius") {
            Some(Intent::BlastRadius)
        } else if eq_str(&v, "modify") {
            Some(Intent::Modify)
        } else if eq_str(&v, "explore") {
            Some(Intent::Explore)
        } else {
            None
        }
    }
}

/// How much of a file a skeleton keeps.
#[derive(Debug, Clone, Copy, PartialEq, Eq, Structural)]
pub enum DetailLevel {
    Minimal,
    Standard,
    Detailed,
}

impl DetailLevel {
    pub open spec fn name_view(self) -> Seq<char> {
        match self {
            DetailLevel::Minimal => "minimal"@,
            DetailLevel::Standard => "standard"@,
            DetailLevel::Detailed => "detailed"@,
        }
    }

    /// The stable lowercase name of the level.
    pub fn as_str(&self) -> (r: &'static str)
        ensures
            r@ == self.name_view(),
    {
        match self {
            DetailLevel::Minimal => "minimal",
            DetailLevel::Standard => "standard",
            DetailLevel::Detailed => "detailed",
        }
    }
}

/// Source languages the indexer understands.
#[derive(Debug, Clone, Copy, PartialEq, Eq, Structural)]
pub enum Language {
    TypeScript,
    JavaScript,
    Python,
    Rust,
    Html,
    C,
    Cpp,
    Dotenv,
}

/// The language a file extension (without the dot) belongs to.
pub open spec fn language_of_extension(ext: Seq<char>) -> Option<Language> {
    if ext == "ts"@ || ext == "tsx"@ || ext == "mts"@ || ext == "cts"@ {
        Some(Language::TypeScript)
    } else if ext == "js"@ || ext == "jsx"@ || ext == "mjs"@ || ext == "cjs"@ {
        Some(Language::JavaScript)
    } else if ext == "py"@ || ext == "pyi"@ {
        Some(Language::Python)
    } else if ext == "rs"@ {
        Some(Language::Rust)
    } else if ext == "html"@ || ext == "htm"@ {
        Some(Language::Html)
    } else if ext == "c"@ || ext == "h"@ {
        Some(Language::C)
    } else if ext == "cpp"@ || ext == "cc"@ || ext == "cxx"@ || ext == "hpp"@ || ext == "hh"@
        || ext == "hxx"@ {
        Some(Language::Cpp)
    } else {
        None
    }
}

impl Language {
    pub open spec fn name_view(self) -> Seq<char> {
        match self {
            Language::TypeScript => "typescript"@,
            Language::JavaScript => "javascript"@,
            Language::Python => "python"@,
            Language::Rust => "rust"@,
            Language::Html => "html"@,
            Language::C => "c"@,
            Language::Cpp => "cpp"@,
            Language::Dotenv => "dotenv"@,
        }
    }

    /// The stable lowercase name of the language.
    pub fn as_str(&self) -> (r: &'static str)
        ensures
            r@ == self.name_view(),
    {
        match self {
            Language::TypeScript => "typescript",
            Language::JavaScript => "javascript",
            Language::Python => "python",
            Language::Rust => "rust",
            Language::Html => "html",
            Language::C => "c",
            Language::Cpp => "cpp",
            Language::Dotenv => "dotenv",
        }
    }

    /// The language of a file extension (without the dot), if it is indexed.
    pub fn from_extension(ext: &str) -> (r: Option<Language>)
        ensures
            r == language_of_extension(ext@),
    {
        let e = chars_of(ext);
        if eq_str(&e, "ts") || eq_str(&e, "tsx") || eq_str(&e, "mts") || eq_str(&e, "cts") {
            Some(Language::TypeScript)
        } else if eq_str(&e, "js") || eq_str(&e, "jsx") || eq_str(&e, "mjs") || eq_str(&e, "cjs") {
            Some(Language::JavaScript)
        } else if eq_str(&e, "py") || eq_str(&e, "pyi") {
            Some(Language::Python)
        } else if eq_str(&e, "rs") {
            Some(Language::Rust)
        } else if eq_str(&e, "html") || eq_str(&e, "htm") {
            Some(Language::Html)
        } else if eq_str(&e, "c") || eq_str(&e, "h") {
            Some(Language::C)
        } else if eq_str(&e, "cpp") || eq_str(&e, "cc") || eq_str(&e, "cxx") || eq_str(&e, "hpp")
            || eq_str(&e, "hh") || eq_str(&e, "hxx") {
            Some(Language::Cpp)
        } else {
            None
        }
    }
}

/// Kinds of symbols the index records.
#[derive(Debug, Clone, Copy, PartialEq, Eq, Structural)]
pub enum NodeKind {
    Function,
    Method,
    Class,
    Struct,
    Enum,
    EnumVariant,
    Interface,
    Trait,
    Impl,
    TypeAlias,
    Constant,
    Variable,
    Module,
    Import,
    EnvVar,
    ApiEndpoint,
    External,
}

impl NodeKind {
    pub open spec fn name_view(self) -> Seq<char> {
        match self {
            NodeKind::Function => "function"@,
            NodeKind::Method => "method"@,
            NodeKind::Class => "class"@,
            NodeKind::Struct => "struct"@,
            NodeKind::Enum => "enum"@,
            NodeKind::EnumVariant => "enum_variant"@,
            NodeKind::Interface => "interface"@,
            NodeKind::Trait => "trait"@,
            NodeKind::Impl => "impl"@,
            NodeKind::TypeAlias => "type_alias"@,
            NodeKind::Constant => "constant"@,
            NodeKind::Variable => "variable"@,
            NodeKind::Module => "module"@,
            NodeKind::Import => "import"@,
            NodeKind::EnvVar => "env_var"@,
            NodeKind::ApiEndpoint => "api_endpoint"@,
            NodeKind::External => "external"@,
        }
    }

    /// The stable lowercase name stored in the index.
    pub fn as_str(&self) -> (r: &'static str)
        ensures
            r@ == self.name_view(),
    {
        match self {
            NodeKind::Function => "function",
            NodeKind::Method => "method",
            NodeKind::Class => "class",
            NodeKind::Struct => "struct",
            NodeKind::Enum => "enum",
            NodeKind::EnumVariant => "enum_variant",
            NodeKind::Interface => "interface",
            NodeKind::Trait => "trait",
            NodeKind::Impl => "impl",
            NodeKind::TypeAlias => "type_alias",
            NodeKind::Constant => "constant",
            NodeKind::Variable => "variable",
            NodeKind::Module => "module",
            NodeKind::Import => "import",
            NodeKind::EnvVar => "env_var",
            NodeKind::ApiEndpoint => "api_endpoint",
            NodeKind::External => "external",
        }
    }

    /// The kind whose stored name is `s`, if any.
    pub fn parse(s: &str) -> (r: Option<NodeKind>)
        ensures
            r matches Some(k) ==> k.name_view() == s@,
            r is None ==> forall|k: NodeKind| k.name_view() != s@,
    {
        let v = chars_of(s);
        let all = [
            NodeKind::Function,
            NodeKind::Method,
            NodeKind::Class,
            NodeKind::Struct,
            NodeKind::Enum,
            NodeKind::EnumVariant,
            NodeKind::Interface,
            NodeKind::Trait,
            NodeKind::Impl,
            NodeKind::TypeAlias,
            NodeKind::Constant,
            NodeKind::Variable,
            NodeKind::Module,
            NodeKind::Import,
            NodeKind::EnvVar,
            NodeKind::ApiEndpoint,
            NodeKind::External,
        ];
        let mut i: usize = 0;
        while i < 17
            invariant
                0 <= i <= 17,
                v@ == s@,
                forall|j: int| 0 <= j < i ==> (#[trigger] all@[j]).name_view() != s@,
                all@ == seq![
                    NodeKind::Function,
                    NodeKind::Method,
                    NodeKind::Class,
                    NodeKind::Struct,
                    NodeKind::Enum,
                    NodeKind::EnumVariant,
                    NodeKind::Interface,
                    NodeKind::Trait,
                    NodeKind::Impl,
                    NodeKind::TypeAlias,
                    NodeKind::Constant,
                    NodeKind::Variable,
                    NodeKind::Module,
                    NodeKind::Import,
                    NodeKind::EnvVar,
                    NodeKind::ApiEndpoint,
                    NodeKind::External,
                ],
            decreases 17 - i,
        {
            let k = all[i];
            if eq_str(&v, k.as_str()) {
                return Some(k);
            }
            i += 1;
        }
        assert forall|k: NodeKind| k.name_view() != s@ by {
            let j: int = match k {
                NodeKind::Function => 0,
                NodeKind::Method => 1,
                NodeKind::Class => 2,
                NodeKind::Struct => 3,
                NodeKind::Enum => 4,
                NodeKind::EnumVariant => 5,
                NodeKind::Interface => 6,
                NodeKind::Trait => 7,
                NodeKind::Impl => 8,
                NodeKind::TypeAlias => 9,
                NodeKind::Constant => 10,
                NodeKind::Variable => 11,
                NodeKind::Module => 12,
                NodeKind::Import => 13,
                NodeKind::EnvVar => 14,
                NodeKind::ApiEndpoint => 15,
                NodeKind::External => 16,
            };
            assert(all@[j] == k);
        }
        None
    }
}

/// Distinct symbol kinds have distinct stored names.
pub proof fn lemma_node_kind_name_injective(a: NodeKind, b: NodeKind)
    requires
        a.name_view() == b.name_view(),
    ensures
        a == b,
{
    reveal_strlit("function");
    reveal_strlit("method");
    reveal_strlit("class");
    reveal_strlit("struct");
    reveal_strlit("enum");
    reveal_strlit("enum_variant");
    reveal_strlit("interface");
    reveal_strlit("trait");
    reveal_strlit("impl");
    reveal_strlit("type_alias");
    reveal_strlit("constant");
    reveal_strlit("variable");
    reveal_strlit("module");
    reveal_strlit("import");
    reveal_strlit("env_var");
    reveal_strlit("api_endpoint");
    reveal_strlit("external");
    let x = a.name_view();
    let y = b.name_view();
    assert(x.len() == y.len());
    assert(x[0] == y[0]);
    assert(x[1] == y[1]);
}

/// Kinds of relationships between symbols.
#[derive(Debug, Clone, Copy, PartialEq, Eq, Structural)]
pub enum EdgeKind {
    Calls,
    Imports,
    Implements,
    Extends,
    TypeRef,
    Contains,
    ReadsEnv,
    DefinesApi,
}

impl EdgeKind {
    pub open spec fn name_view(self) -> Seq<char> {
        match self {
            EdgeKind::Calls => "calls"@,
            EdgeKind::Imports => "imports"@,
            EdgeKind::Implements => "implements"@,
            EdgeKind::Extends => "extends"@,
            EdgeKind::TypeRef => "type_ref"@,
            EdgeKind::Contains => "contains"@,
            EdgeKind::ReadsEnv => "reads_env"@,
            EdgeKind::DefinesApi => "defines_api"@,
        }
    }

    /// The stable lowercase name stored in the index.
    pub fn as_str(&self) -> (r: &'static str)
        ensures
            r@ == self.name_view(),
    {
        match self {
            EdgeKind::Calls => "calls",
            EdgeKind::Imports => "imports",
            EdgeKind::Implements => "implements",
            EdgeKind::Extends => "extends",
            EdgeKind::TypeRef => "type_ref",
            EdgeKind::Contains => "contains",
            EdgeKind::ReadsEnv => "reads_env",
            EdgeKind::DefinesApi => "defines_api",
        }
    }

    /// The kind whose stored name is `s`, if any.
    pub fn parse(s: &str) -> (r: Option<EdgeKind>)
        ensures
            r matches Some(k) ==> k.name_view() == s@,
            r is None ==> forall|k: EdgeKind| k.name_view() != s@,
    {
        let v = chars_of(s);
        let all = [
            EdgeKind::Calls,
            EdgeKind::Imports,
            EdgeKind::Implements,
            EdgeKind::Extends,
            EdgeKind::TypeRef,
            EdgeKind::Contains,
            EdgeKind::ReadsEnv,
            EdgeKind::DefinesApi,
        ];
        let mut i: usize = 0;
        while i < 8
            invariant
                0 <= i <= 8,
                v@ == s@,
                forall|j: int| 0 <= j < i ==> (#[trigger] all@[j]).name_view() != s@,
                all@ == seq![
                    EdgeKind::Calls,
                    EdgeKind::Imports,
                    EdgeKind::Implements,
                    EdgeKind::Extends,
                    EdgeKind::TypeRef,
                    EdgeKind::Contains,
                    EdgeKind::ReadsEnv,
                    EdgeKind::DefinesApi,
                ],
            decreases 8 - i,
        {
            let k = all[i];
            if eq_str(&v, k.as_str()) {
                return Some(k);
            }
            i += 1;
        }
        assert forall|k: EdgeKind| k.name_view() != s@ by {
            let j: int = match k {
                EdgeKind::Calls => 0,
                EdgeKind::Imports => 1,
                EdgeKind::Implements => 2,
                EdgeKind::Extends => 3,
                EdgeKind::TypeRef => 4,
                EdgeKind::Contains => 5,
                EdgeKind::ReadsEnv => 6,
                EdgeKind::DefinesApi => 7,
            };
            assert(all@[j] == k);
        }
        None
    }
}

/// Distinct relationship kinds have distinct stored names.
pub proof fn lemma_edge_kind_name_injective(a: EdgeKind, b: EdgeKind)
    requires
        a.name_view() == b.name_view(),
    ensures
        a == b,
{
    reveal_strlit("calls");
    reveal_strlit("imports");
    reveal_strlit("implements");
    reveal_strlit("extends");
    reveal_strlit("type_ref");
    reveal_strlit("contains");
    reveal_strlit("reads_env");
    reveal_strlit("defines_api");
    let x = a.name_view();
    let y = b.name_view();
    assert(x.len() == y.len());
    assert(x[0] == y[0]);
    assert(x[1] == y[1]);
}

/// The structural summary of one symbol of a file, as the index stores it.
#[derive(Debug, Clone)]
pub struct NodeSummary {
    pub kind: String,
    pub name: String,
    pub signature: Option<String>,
    pub line_start: i64,
    pub line_end: i64,
}

} // verus!
