//! The minimal compile pipeline: option defaults, the document checks, the
//! placeholder one-page PDF, and the report handed back to the caller.
use vstd::prelude::*;
use vstd::utf8::encode_utf8;
use vstd::string::StringSliceAdditionalSpecFns;
use vstd::string::StringExecFns;
use crate::digests::{base64_encode, base64_standard};
use crate::encoding::{decimal, push_bytes, push_decimal_utf8, push_utf8, lemma_decimal_len};
use crate::text::{char_is_whitespace, chars_of, spec_is_whitespace};

verus! {

/// Compilation options, as the caller may pass them.
#[derive(Clone, Debug)]
pub struct CompileOptions {
    /// Enable SIMD optimizations if available.
    pub use_simd: Option<bool>,
    /// Enable incremental compilation.
    pub incremental: Option<bool>,
    /// Enable character-level position tracking.
    pub track_positions: Option<bool>,
    /// LaTeX format to use.
    pub format: Option<String>,
    /// Maximum compilation time in milliseconds.
    pub timeout_ms: Option<u32>,
}

impl Default for CompileOptions {
    /// SIMD on, incremental compilation and position tracking off, the
    /// `latex` format and a five-second timeout.
    fn default() -> (r: Self)
        ensures
            r.use_simd == Some(true),
            r.incremental == Some(false),
            r.track_positions == Some(false),
            r.format matches Some(f) && f@ == "latex"@,
            r.timeout_ms == Some(5000u32),
    {
        CompileOptions {
            use_simd: Some(true),
            incremental: Some(false),
            track_positions: Some(false),
            format: Some("latex".to_owned()),
            timeout_ms: Some(5000),
        }
    }
}

/// Whether every character of `s` is white space (so that trimming leaves
/// nothing).
pub open spec fn all_whitespace(s: Seq<char>) -> bool {
    forall|i: int| 0 <= i < s.len() ==> #[trigger] spec_is_whitespace(s[i])
}

/// Whether `needle` occurs in `hay` starting at `i`.
pub open spec fn occurs_at(hay: Seq<char>, needle: Seq<char>, i: int) -> bool {
    0 <= i && i + needle.len() <= hay.len() && hay.subrange(i, i + needle.len()) == needle
}

/// Whether `needle` occurs anywhere in `hay`.
pub open spec fn contains_chars(hay: Seq<char>, needle: Seq<char>) -> bool {
    exists|i: int| occurs_at(hay, needle, i)
}

/// Whether trimming white space from both ends of `s` leaves it empty.
pub fn is_blank(s: &str) -> (r: bool)
    ensures
        r == all_whitespace(s@),
{
    let chars = chars_of(s);
    let mut i: usize = 0;
    while i < chars.len()
        invariant
            chars@ == s@,
            i <= chars@.len(),
            forall|j: int| 0 <= j < i ==> #[trigger] spec_is_whitespace(s@[j]),
        decreases chars@.len() - i,
    {
        if !char_is_whitespace(chars[i]) {
            return false;
        }
        i = i + 1;
    }
    true
}

/// Whether `needle` occurs in `hay`.
pub fn str_contains(hay: &str, needle: &str) -> (r: bool)
    ensures
        r == contains_chars(hay@, needle@),
{
    let h = chars_of(hay);
    let n = chars_of(needle);
    if n.len() == 0 {
        assert(hay@.subrange(0, 0) =~= needle@);
        assert(occurs_at(hay@, needle@, 0));
        return true;
    }
    if n.len() > h.len() {
        assert forall|i: int| !occurs_at(hay@, needle@, i) by {}
        return false;
    }
    let last = h.len() - n.len();
    let mut i: usize = 0;
    while i <= last
        invariant
            h@ == hay@,
            n@ == needle@,
            last == h@.len() - n@.len(),
            n@.len() >= 1,
            n@.len() <= h@.len(),
            h@.len() <= usize::MAX,
            i <= last + 1,
            forall|k: int| 0 <= k < i ==> !#[trigger] occurs_at(hay@, needle@, k),
        decreases last + 1 - i,
    {
        let mut j: usize = 0;
        let mut matched = true;
        while j < n.len()
            invariant
                h@ == hay@,
                n@ == needle@,
                i <= last,
                last == h@.len() - n@.len(),
                n@.len() <= h@.len(),
                h@.len() <= usize::MAX,
                j <= n@.len(),
                matched == (forall|t: int| 0 <= t < j ==> h@[i + t] == n@[t]),
            decreases n@.len() - j,
        {
            if h[i + j] != n[j] {
                matched = false;
            }
            j = j + 1;
        }
        if matched {
            assert(hay@.subrange(i as int, i + needle@.len()) =~= needle@);
            assert(occurs_at(hay@, needle@, i as int));
            return true;
        }
        proof {
            if occurs_at(hay@, needle@, i as int) {
                assert forall|t: int| 0 <= t < n@.len() implies h@[i + t] == n@[t] by {
                    assert(hay@.subrange(i as int, i + needle@.len())[t] == hay@[i + t]);
                }
            }
        }
        i = i + 1;
    }
    assert forall|k: int| !occurs_at(hay@, needle@, k) by {
        if occurs_at(hay@, needle@, k) {
            assert(0 <= k < i);
        }
    }
    false
}

/// The PDF objects in front of the page's content stream.
pub const PDF_OBJECTS: &'static str = "%PDF-1.4\n1 0 obj\n<< /Type /Catalog /Pages 2 0 R >>\nendobj\n2 0 obj\n<< /Type /Pages /Kids [3 0 R] /Count 1 >>\nendobj\n3 0 obj\n<< /Type /Page /Parent 2 0 R /MediaBox [0 0 612 792] /Resources << /Font << /F1 << /Type /Font /Subtype /Type1 /BaseFont /Helvetica >> >> >> /Contents 4 0 R >>\nendobj\n4 0 obj\n";

/// Opening of the content stream's dictionary, before its length.
pub const STREAM_LENGTH_OPEN: &'static str = "<< /Length ";

/// Close of the stream dictionary and start of the stream.
pub const STREAM_OPEN: &'static str = " >>\nstream\n";

/// End of the stream, the cross-reference table and the trailer.
pub const PDF_TRAILER: &'static str = "\nendstream\nendobj\nxref\n0 5\n0000000000 65535 f \ntrailer\n<< /Size 5 /Root 1 0 R >>\nstartxref\n0\n%%EOF\n";

/// Text operators in front of the character count on the page.
pub const CONTENT_OPEN: &'static str = "BT /F1 12 Tf 72 720 Td (";

/// Text after the character count on the page.
pub const CONTENT_CLOSE: &'static str = " chars compiled with Tectonic WASM) Tj ET";

/// The page's content stream for a source of `n` bytes.
pub open spec fn page_content(n: nat) -> Seq<u8> {
    encode_utf8(CONTENT_OPEN@) + encode_utf8(decimal(n)) + encode_utf8(CONTENT_CLOSE@)
}

/// The one-page placeholder PDF for a source of `n` bytes.
pub open spec fn placeholder_pdf(n: nat) -> Seq<u8> {
    let content = page_content(n);
    encode_utf8(PDF_OBJECTS@) + encode_utf8(STREAM_LENGTH_OPEN@) + encode_utf8(
        decimal(content.len()),
    ) + encode_utf8(STREAM_OPEN@) + content + encode_utf8(PDF_TRAILER@)
}

/// A UTF-8 encoding takes at most four bytes per character.
pub proof fn lemma_encode_utf8_len(chars: Seq<char>)
    ensures
        encode_utf8(chars).len() <= 4 * chars.len(),
    decreases chars.len(),
{
    if chars.len() > 0 {
        lemma_encode_utf8_len(chars.drop_first());
        assert(vstd::utf8::encode_scalar(chars[0] as u32).len() <= 4);
    }
}

/// The placeholder PDF stays within four kilobytes.
pub proof fn lemma_placeholder_pdf_len(n: nat)
    requires
        n <= u64::MAX,
    ensures
        placeholder_pdf(n).len() <= 4096,
{
    reveal_strlit("%PDF-1.4\n1 0 obj\n<< /Type /Catalog /Pages 2 0 R >>\nendobj\n2 0 obj\n<< /Type /Pages /Kids [3 0 R] /Count 1 >>\nendobj\n3 0 obj\n<< /Type /Page /Parent 2 0 R /MediaBox [0 0 612 792] /Resources << /Font << /F1 << /Type /Font /Subtype /Type1 /BaseFont /Helvetica >> >> >> /Contents 4 0 R >>\nendobj\n4 0 obj\n");
    reveal_strlit("<< /Length ");
    reveal_strlit(" >>\nstream\n");
    reveal_strlit("\nendstream\nendobj\nxref\n0 5\n0000000000 65535 f \ntrailer\n<< /Size 5 /Root 1 0 R >>\nstartxref\n0\n%%EOF\n");
    reveal_strlit("BT /F1 12 Tf 72 720 Td (");
    reveal_strlit(" chars compiled with Tectonic WASM) Tj ET");
    assert(PDF_OBJECTS@.len() < 400);
    assert(STREAM_LENGTH_OPEN@.len() == 11);
    assert(STREAM_OPEN@.len() == 11);
    assert(PDF_TRAILER@.len() < 200);
    assert(CONTENT_OPEN@.len() == 24);
    assert(CONTENT_CLOSE@.len() == 41);
    lemma_encode_utf8_len(PDF_OBJECTS@);
    lemma_encode_utf8_len(STREAM_LENGTH_OPEN@);
    lemma_encode_utf8_len(STREAM_OPEN@);
    lemma_encode_utf8_len(PDF_TRAILER@);
    lemma_encode_utf8_len(CONTENT_OPEN@);
    lemma_encode_utf8_len(CONTENT_CLOSE@);
    lemma_decimal_len(n);
    lemma_encode_utf8_len(decimal(n));
    let content = page_content(n);
    assert(content.len() <= 4 * 24 + 4 * 20 + 4 * 41);
    lemma_decimal_len(content.len());
    lemma_encode_utf8_len(decimal(content.len()));
}

/// Checks that the source has the shape of a LaTeX document and renders the
/// placeholder one-page PDF for it.  A blank source is refused with "Empty
/// LaTeX source"; then a source lacking `\documentclass`, `\begin{document}`
/// or `\end{document}` is refused, in that order, each with its own
/// message.
pub fn compile_latex_minimal(latex_source: &str, options: &CompileOptions, use_simd: bool) -> (r:
    Result<Vec<u8>, String>)
    ensures
        match compile_latex_minimal_result(latex_source@, latex_source.len() as nat) {
            Ok(pdf) => r matches Ok(b) && b@ == pdf,
            Err(msg) => r matches Err(e) && e@ == msg,
        },
{
    if is_blank(latex_source) {
        return Err("Empty LaTeX source".to_owned());
    }
    if !str_contains(latex_source, "\\documentclass") {
        return Err("Missing \\documentclass declaration".to_owned());
    }
    if !str_contains(latex_source, "\\begin{document}") {
        return Err("Missing \\begin{document}".to_owned());
    }
    if !str_contains(latex_source, "\\end{document}") {
        return Err("Missing \\end{document}".to_owned());
    }
    let n = latex_source.len();
    let mut content: Vec<u8> = Vec::new();
    push_utf8(&mut content, CONTENT_OPEN);
    push_decimal_utf8(&mut content, n as u64);
    push_utf8(&mut content, CONTENT_CLOSE);
    assert(content@ =~= page_content(n as nat));
    let mut pdf: Vec<u8> = Vec::new();
    push_utf8(&mut pdf, PDF_OBJECTS);
    push_utf8(&mut pdf, STREAM_LENGTH_OPEN);
    push_decimal_utf8(&mut pdf, content.len() as u64);
    push_utf8(&mut pdf, STREAM_OPEN);
    push_bytes(&mut pdf, content.as_slice());
    push_utf8(&mut pdf, PDF_TRAILER);
    assert(pdf@ =~= placeholder_pdf(n as nat));
    Ok(pdf)
}

/// What a compile run reports, apart from its duration.
pub struct CompileReport {
    /// True if compilation succeeded.
    pub success: bool,
    /// PDF output as base64 (if successful).
    pub pdf_data: Option<String>,
    /// Error message (if failed).
    pub error: Option<String>,
    /// Warning messages.
    pub warnings: Vec<String>,
    /// Whether SIMD was used.
    pub used_simd: bool,
    /// Number of pages in the output.
    pub page_count: Option<u32>,
    /// Memory usage estimate in bytes.
    pub memory_used: Option<u32>,
}

/// The first of the two warnings of a successful run.
pub const MINIMAL_WARNING: &'static str = "This is a minimal implementation";

/// The second of the two warnings of a successful run.
pub const ENGINE_WARNING: &'static str = "Full TeX engine integration coming soon";

/// Compiles `latex_source` and reports the outcome.  SIMD is used as the
/// options ask, or, where they do not say, as the machine offers it, and is
/// reported only where the machine offers it.  A successful run carries the
/// PDF in base64, the two standing warnings, one page and an estimate of
/// twice the source length (in `u32` arithmetic); a failed one carries the
/// refusal message and nothing else.
pub fn build_compile_report(latex_source: &str, options: &CompileOptions, simd_available: bool) -> (r:
    CompileReport)
    requires
        compile_latex_minimal_result(latex_source@, latex_source.len() as nat) is Ok ==> (
        latex_source.len() as nat) % 0x1_0000_0000 < 0x8000_0000,
    ensures
        ({
            let use_simd = match options.use_simd {
                Some(b) => b,
                None => simd_available,
            };
            let n = latex_source.len();
            match compile_latex_minimal_result(latex_source@, n as nat) {
                Ok(pdf) => {
                    &&& r.success
                    &&& r.pdf_data matches Some(d) && d@ == base64_standard(pdf)
                    &&& r.error is None
                    &&& r.warnings@.len() == 2
                    &&& r.warnings@[0]@ == MINIMAL_WARNING@
                    &&& r.warnings@[1]@ == ENGINE_WARNING@
                    &&& r.used_simd == (use_simd && simd_available)
                    &&& r.page_count == Some(1u32)
                    &&& r.memory_used == Some((((n as nat) % 0x1_0000_0000) * 2) as u32)
                },
                Err(msg) => {
                    &&& !r.success
                    &&& r.pdf_data is None
                    &&& r.error matches Some(e) && e@ == msg
                    &&& r.warnings@.len() == 0
                    &&& !r.used_simd
                    &&& r.page_count is None
                    &&& r.memory_used is None
                },
            }
        }),
{
    let use_simd = match options.use_simd {
        Some(b) => b,
        None => simd_available,
    };
    let result = compile_latex_minimal(latex_source, options, use_simd);
    match result {
        Ok(pdf) => {
            proof {
                lemma_placeholder_pdf_len(latex_source.len() as nat);
            }
            let encoded = base64_encode(pdf.as_slice());
            let mut warnings: Vec<String> = Vec::new();
            warnings.push(MINIMAL_WARNING.to_owned());
            warnings.push(ENGINE_WARNING.to_owned());
            let n: u64 = latex_source.len() as u64;
            let low: u32 = n as u32;
            assert(low == n % 0x1_0000_0000) by (bit_vector)
                requires
                    low == n as u32,
            ;
            CompileReport {
                success: true,
                pdf_data: Some(encoded),
                error: None,
                warnings,
                used_simd: use_simd && simd_available,
                page_count: Some(1),
                memory_used: Some(low * 2),
            }
        },
        Err(e) => CompileReport {
            success: false,
            pdf_data: None,
            error: Some(e),
            warnings: Vec::new(),
            used_simd: false,
            page_count: None,
            memory_used: None,
        },
    }
}

/// The outcome of `compile_latex_minimal` on a source with these characters
/// and this byte length: the placeholder PDF, or the refusal message.
pub open spec fn compile_latex_minimal_result(source: Seq<char>, n: nat) -> Result<Seq<u8>, Seq<char>> {
    if all_whitespace(source) {
        Err("Empty LaTeX source"@)
    } else if !contains_chars(source, "\\documentclass"@) {
        Err("Missing \\documentclass declaration"@)
    } else if !contains_chars(source, "\\begin{document}"@) {
        Err("Missing \\begin{document}"@)
    } else if !contains_chars(source, "\\end{document}"@) {
        Err("Missing \\end{document}"@)
    } else {
        Ok(placeholder_pdf(n))
    }
}

/// Text processing on the SIMD path: the text behind a `[SIMD]` tag.
pub fn process_text_simd(text: &str) -> (r: String)
    ensures
        r@ == "[SIMD] Processed: "@ + text@,
{
    let mut r = "[SIMD] Processed: ".to_owned();
    r.append(text);
    r
}

/// Text processing on the scalar path: the text behind a `[Scalar]` tag.
pub fn process_text_scalar(text: &str) -> (r: String)
    ensures
        r@ == "[Scalar] Processed: "@ + text@,
{
    let mut r = "[Scalar] Processed: ".to_owned();
    r.append(text);
    r
}

} // verus!
