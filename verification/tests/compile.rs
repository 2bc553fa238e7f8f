use base64::Engine;
use tectonic_wasm::compile::{
    build_compile_report, compile_latex_minimal, is_blank, process_text_scalar, process_text_simd,
    str_contains, CompileOptions,
};

fn placeholder_for(n: usize) -> Vec<u8> {
    let content = format!("BT /F1 12 Tf 72 720 Td ({} chars compiled with Tectonic WASM) Tj ET", n);
    let mut pdf = Vec::new();
    pdf.extend_from_slice(b"%PDF-1.4\n");
    pdf.extend_from_slice(b"1 0 obj\n");
    pdf.extend_from_slice(b"<< /Type /Catalog /Pages 2 0 R >>\n");
    pdf.extend_from_slice(b"endobj\n");
    pdf.extend_from_slice(b"2 0 obj\n");
    pdf.extend_from_slice(b"<< /Type /Pages /Kids [3 0 R] /Count 1 >>\n");
    pdf.extend_from_slice(b"endobj\n");
    pdf.extend_from_slice(b"3 0 obj\n");
    pdf.extend_from_slice(b"<< /Type /Page /Parent 2 0 R /MediaBox [0 0 612 792] /Resources << /Font << /F1 << /Type /Font /Subtype /Type1 /BaseFont /Helvetica >> >> >> /Contents 4 0 R >>\n");
    pdf.extend_from_slice(b"endobj\n");
    pdf.extend_from_slice(b"4 0 obj\n");
    pdf.extend_from_slice(format!("<< /Length {} >>\nstream\n", content.len()).as_bytes());
    pdf.extend_from_slice(content.as_bytes());
    pdf.extend_from_slice(b"\nendstream\nendobj\n");
    pdf.extend_from_slice(b"xref\n0 5\n0000000000 65535 f \n");
    pdf.extend_from_slice(b"trailer\n<< /Size 5 /Root 1 0 R >>\nstartxref\n0\n%%EOF\n");
    pdf
}

const VALID: &str = "\n\\documentclass{article}\n\\begin{document}\nHello, WASM!\n\\end{document}\n";

#[test]
fn test_compile_options_default() {
    let options = CompileOptions::default();
    assert_eq!(options.format, Some("latex".to_string()));
    assert_eq!(options.use_simd, Some(true));
}

#[test]
fn test_minimal_latex_compilation() {
    let latex = r#"
\documentclass{article}
\begin{document}
Hello, WASM!
\end{document}
"#;

    let options = CompileOptions::default();
    let result = compile_latex_minimal(latex, &options, false);

    assert!(result.is_ok(), "Compilation should succeed");

    let pdf_data = result.unwrap();
    assert!(!pdf_data.is_empty(), "PDF data should not be empty");
    assert!(pdf_data.starts_with(b"%PDF"), "Should be valid PDF structure");
}

#[test]
fn test_invalid_latex() {
    let latex = "This is not valid LaTeX";
    let options = CompileOptions::default();
    let result = compile_latex_minimal(latex, &options, false);

    assert!(result.is_err(), "Should fail for invalid LaTeX");
}

#[test]
fn test_empty_latex() {
    let latex = "";
    let options = CompileOptions::default();
    let result = compile_latex_minimal(latex, &options, false);

    assert!(result.is_err(), "Should fail for empty LaTeX");
}

#[test]
fn placeholder_pdf_is_byte_exact() {
    let options = CompileOptions::default();
    let pdf = compile_latex_minimal(VALID, &options, true).unwrap();
    assert_eq!(pdf, placeholder_for(VALID.len()));
    let text = String::from_utf8(pdf).unwrap();
    assert!(text.contains("(70 chars compiled with Tectonic WASM)"));
    assert!(text.contains("<< /Length 67 >>"));
}

#[test]
fn refusals_come_in_order() {
    let options = CompileOptions::default();
    assert_eq!(compile_latex_minimal(" \n\t ", &options, false), Err("Empty LaTeX source".to_string()));
    assert_eq!(
        compile_latex_minimal("\\begin{document}\\end{document}", &options, false),
        Err("Missing \\documentclass declaration".to_string())
    );
    assert_eq!(
        compile_latex_minimal("\\documentclass{a}\\end{document}", &options, false),
        Err("Missing \\begin{document}".to_string())
    );
    assert_eq!(
        compile_latex_minimal("\\documentclass{a}\\begin{document}", &options, false),
        Err("Missing \\end{document}".to_string())
    );
}

#[test]
fn unicode_whitespace_counts_as_blank() {
    assert!(is_blank("\u{2003}\u{00a0}\n"));
    assert!(!is_blank(" x "));
    assert!(is_blank(""));
}

#[test]
fn substring_search() {
    assert!(str_contains("abcdef", "cde"));
    assert!(str_contains("abc", ""));
    assert!(!str_contains("abc", "abcd"));
    assert!(!str_contains("ab", "ba"));
    assert!(str_contains("é\\documentclass", "\\documentclass"));
}

#[test]
fn report_of_a_successful_run() {
    let options = CompileOptions::default();
    let report = build_compile_report(VALID, &options, false);
    assert!(report.success);
    let expected = base64::engine::general_purpose::STANDARD.encode(placeholder_for(VALID.len()));
    assert_eq!(report.pdf_data, Some(expected));
    assert_eq!(report.error, None);
    assert_eq!(
        report.warnings,
        vec!["This is a minimal implementation".to_string(), "Full TeX engine integration coming soon".to_string()]
    );
    // SIMD asked for but not available: not used.
    assert!(!report.used_simd);
    assert_eq!(report.page_count, Some(1));
    assert_eq!(report.memory_used, Some(140));
}

#[test]
fn report_uses_simd_when_both_agree() {
    let options = CompileOptions::default();
    assert!(build_compile_report(VALID, &options, true).used_simd);
    let mut off = CompileOptions::default();
    off.use_simd = Some(false);
    assert!(!build_compile_report(VALID, &off, true).used_simd);
    let mut unset = CompileOptions::default();
    unset.use_simd = None;
    assert!(build_compile_report(VALID, &unset, true).used_simd);
    assert!(!build_compile_report(VALID, &unset, false).used_simd);
}

#[test]
fn report_of_a_refused_run() {
    let options = CompileOptions::default();
    let report = build_compile_report("plain text", &options, true);
    assert!(!report.success);
    assert_eq!(report.pdf_data, None);
    assert_eq!(report.error, Some("Missing \\documentclass declaration".to_string()));
    assert!(report.warnings.is_empty());
    assert!(!report.used_simd);
    assert_eq!(report.page_count, None);
    assert_eq!(report.memory_used, None);
}

#[test]
fn text_processing_tags() {
    assert_eq!(process_text_scalar("abc"), "[Scalar] Processed: abc");
    assert_eq!(process_text_simd("abc"), "[SIMD] Processed: abc");
    assert_eq!(process_text_scalar(""), "[Scalar] Processed: ");
}

#[test]
fn options_default_is_complete() {
    let options = CompileOptions::default();
    assert_eq!(options.incremental, Some(false));
    assert_eq!(options.track_positions, Some(false));
    assert_eq!(options.timeout_ms, Some(5000));
}

#[test]
fn blank_means_white_space_property_only() {
    assert!(is_blank(""));
    assert!(is_blank(" \t\n\r\u{0b}\u{0c}"));
    assert!(is_blank("\u{85}\u{a0}\u{1680}\u{2000}\u{200a}\u{2028}\u{2029}\u{202f}\u{205f}\u{3000}"));
    // Zero-width space and the byte-order mark are not White_Space.
    assert!(!is_blank("\u{200b}"));
    assert!(!is_blank("\u{feff}"));
    assert!(!is_blank("  x  "));
}
