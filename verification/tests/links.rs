use bexp::indexer::extractor::ExtractedFile;
use bexp::indexer::languages::c_lang::extract_c;
use bexp::indexer::languages::html::extract_html;
use bexp::indexer::languages::python::extract_python;
use bexp::indexer::languages::rust_lang::extract_rust;
use bexp::indexer::languages::typescript::extract_script;
use bexp::types::Language;

fn assert_linked(f: &ExtractedFile) {
    let n = f.nodes.len();
    for e in &f.edges {
        assert!(e.source_idx < n && e.target_idx < n, "edge {:?} outside {} symbols", (e.source_idx, e.target_idx), n);
    }
    for r in &f.unresolved_refs {
        assert!(r.source_idx < n, "reference from {} outside {} symbols", r.source_idx, n);
    }
}

#[test]
fn every_language_links_within_its_symbols() {
    let ts = extract_script(
        "import { a } from './a';\nexport class C extends B { m() { f(); } }\nfunction g() { h(); }\n",
        "x.ts",
        Language::TypeScript,
    )
    .unwrap();
    assert!(!ts.edges.is_empty() && !ts.unresolved_refs.is_empty());
    assert_linked(&ts);
    let py = extract_python(
        "import os\nclass A(B):\n    def m(self):\n        g()\n@app.get('/x')\ndef h():\n    os.getenv('K')\n",
        "app.py",
    )
    .unwrap();
    assert!(!py.edges.is_empty() && !py.unresolved_refs.is_empty());
    assert_linked(&py);
    let c = extract_c("#include <a.h>\nint main(void) { f(); return getenv(\"HOME\") != 0; }\n", "m.c").unwrap();
    assert!(!c.edges.is_empty() && !c.unresolved_refs.is_empty());
    assert_linked(&c);
    let rs = extract_rust(
        "use a::b;\n#[derive(Debug)]\nstruct S;\nenum E { X, Y }\nimpl T for S { fn m(&self) { f(); } }\n",
        "lib.rs",
    )
    .unwrap();
    assert!(!rs.edges.is_empty() && !rs.unresolved_refs.is_empty());
    assert_linked(&rs);
    let html = extract_html("<script src=\"a.js\"></script><link href=\"b.css\">", "i.html").unwrap();
    assert!(!html.unresolved_refs.is_empty());
    assert_linked(&html);
}
