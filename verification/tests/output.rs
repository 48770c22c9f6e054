use cv_rs::output::{output_format, OutputFormat};

#[test]
fn the_extension_picks_the_format_in_any_case() {
    assert_eq!(output_format(Some("pdf")), OutputFormat::Pdf);
    assert_eq!(output_format(Some("PdF")), OutputFormat::Pdf);
    assert_eq!(output_format(Some("docx")), OutputFormat::Docx);
    assert_eq!(output_format(Some("DOCX")), OutputFormat::Docx);
}

#[test]
fn a_path_without_an_extension_is_a_pdf() {
    assert_eq!(output_format(None), OutputFormat::Pdf);
}

#[test]
fn other_extensions_are_refused() {
    assert_eq!(output_format(Some("txt")), OutputFormat::Unsupported);
    assert_eq!(output_format(Some("")), OutputFormat::Unsupported);
    assert_eq!(output_format(Some("pdfx")), OutputFormat::Unsupported);
    assert_eq!(output_format(Some("doc")), OutputFormat::Unsupported);
}
