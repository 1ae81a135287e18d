use notebook_rag::errors::PipelineError;
use notebook_rag::extract::FileKind;
use notebook_rag::extract::classify_extension;
use notebook_rag::extract::extension_of;
use notebook_rag::extract::prepare_chunks;

#[test]
fn extension_of_plain_names() {
    assert_eq!(extension_of("notes.txt"), "txt");
    assert_eq!(extension_of("report.PDF"), "PDF");
    assert_eq!(extension_of("archive.tar.gz"), "gz");
}

#[test]
fn extension_of_paths() {
    assert_eq!(extension_of("/home/user/docs/readme.md"), "md");
    assert_eq!(extension_of("dir.v/file"), "");
    assert_eq!(extension_of("dir/file"), "");
}

#[test]
fn extension_of_hidden_and_bare_dots() {
    assert_eq!(extension_of(".bashrc"), "");
    assert_eq!(extension_of("a/.bashrc"), "");
    assert_eq!(extension_of("file."), "");
    assert_eq!(extension_of(""), "");
}

#[test]
fn classify_supported_extensions() {
    assert!(matches!(classify_extension("pdf"), Ok(FileKind::Pdf)));
    assert!(matches!(classify_extension("PDF"), Ok(FileKind::Pdf)));
    assert!(matches!(classify_extension("Pdf"), Ok(FileKind::Pdf)));
    assert!(matches!(classify_extension("md"), Ok(FileKind::PlainText)));
    assert!(matches!(classify_extension("MD"), Ok(FileKind::PlainText)));
    assert!(matches!(classify_extension("txt"), Ok(FileKind::PlainText)));
    assert!(matches!(classify_extension("TXT"), Ok(FileKind::PlainText)));
}

#[test]
fn classify_unsupported_extensions() {
    match classify_extension("exe") {
        Err(PipelineError::UnsupportedFormat(ext)) => assert_eq!(ext, "exe"),
        other => panic!("expected UnsupportedFormat, got {:?}", other),
    }
    assert!(matches!(
        classify_extension(""),
        Err(PipelineError::UnsupportedFormat(_))
    ));
    assert!(matches!(
        classify_extension("pdfx"),
        Err(PipelineError::UnsupportedFormat(_))
    ));
    assert!(matches!(
        classify_extension("tx"),
        Err(PipelineError::UnsupportedFormat(_))
    ));
}

#[test]
fn prepare_chunks_fails_on_no_extractable_text() {
    assert!(matches!(
        prepare_chunks(""),
        Err(PipelineError::ExtractionFailure)
    ));
    assert!(matches!(
        prepare_chunks(" \n\n \n\n"),
        Err(PipelineError::ExtractionFailure)
    ));
}

#[test]
fn prepare_chunks_returns_the_chunks() {
    assert_eq!(
        prepare_chunks("A\n\nB").unwrap(),
        vec!["A".to_string(), "B".to_string()]
    );
}
