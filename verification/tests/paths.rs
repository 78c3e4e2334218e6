use docrag::path::{accepted, document_name};

#[test]
fn the_document_name_is_the_final_segment() {
    assert_eq!(document_name("/data/docs/report.pdf"), "report.pdf");
    assert_eq!(document_name("report.pdf"), "report.pdf");
    assert_eq!(document_name("a/b/c"), "c");
    assert_eq!(document_name("a/b/"), "");
    assert_eq!(document_name(""), "");
    assert_eq!(document_name("/"), "");
    assert_eq!(document_name("dir/na\u{ef}ve caf\u{e9}.pdf"), "na\u{ef}ve caf\u{e9}.pdf");
}

#[test]
fn the_document_name_is_what_splitting_on_slashes_leaves_last() {
    for p in ["/x/y.pdf", "x", "", "a//b", "a/b/", "//", "a.b/c.d/e.f"] {
        assert_eq!(document_name(p), p.split('/').last().unwrap_or(""), "{:?}", p);
    }
}

#[test]
fn only_pdf_files_are_documents() {
    assert!(accepted("/data/report.pdf"));
    assert!(accepted("report.pdf"));
    assert!(accepted("a.b.pdf"));
    assert!(accepted("dir.txt/x.pdf"));
    assert!(!accepted("/data/report.txt"));
    assert!(!accepted("/data/report"));
    assert!(!accepted("/data/report.PDF"));
    assert!(!accepted("/data/report.pdf.bak"));
    assert!(!accepted("/data/.pdf"));
    assert!(!accepted(".pdf"));
    assert!(!accepted("pdf"));
    assert!(!accepted("dir.pdf/notes.txt"));
    assert!(!accepted("dir/report.pdf/"));
    assert!(!accepted(""));
}

#[test]
fn acceptance_agrees_with_the_extension_of_a_path() {
    for p in ["a.pdf", ".pdf", "a.b.pdf", "x/y/z.pdf", "x.pdf/y", "noext", "a.", "a.pdfx", "a.xpdf"] {
        let by_std = std::path::Path::new(p).extension().map(|e| e == "pdf").unwrap_or(false);
        assert_eq!(accepted(p), by_std, "{:?}", p);
    }
}
