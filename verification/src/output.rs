//! Which file the program writes: the output format follows the extension of
//! the output path, compared without regard to ASCII case.
use vstd::prelude::*;
use crate::text::to_chars;

verus! {

/// The formats the program can write.
#[derive(Clone, Copy, PartialEq, Eq, Debug, Structural)]
pub enum OutputFormat {
    Pdf,
    Docx,
    /// Any other extension, which is refused.
    Unsupported,
}

/// `ext` spells the same word as `lower`, letter by letter in lower or upper
/// case (`upper` is `lower` in capitals).
pub open spec fn spells(ext: Seq<char>, lower: Seq<char>, upper: Seq<char>) -> bool {
    &&& ext.len() == lower.len()
    &&& forall|i: int| 0 <= i < ext.len() ==> ext[i] == lower[i] || ext[i] == upper[i]
}

/// The format for an output path's extension; a path without one is a PDF.
pub open spec fn format_for(extension: Option<Seq<char>>) -> OutputFormat {
    let ext = match extension {
        Some(e) => e,
        None => "pdf"@,
    };
    if spells(ext, "pdf"@, "PDF"@) {
        OutputFormat::Pdf
    } else if spells(ext, "docx"@, "DOCX"@) {
        OutputFormat::Docx
    } else {
        OutputFormat::Unsupported
    }
}

fn spells_exec(ext: &str, lower: &str, upper: &str) -> (b: bool)
    requires
        lower@.len() == upper@.len(),
    ensures
        b == spells(ext@, lower@, upper@),
{
    let e = to_chars(ext);
    let l = to_chars(lower);
    let u = to_chars(upper);
    if e.len() != l.len() {
        return false;
    }
    let mut i: usize = 0;
    while i < e.len()
        invariant
            e@ == ext@,
            l@ == lower@,
            u@ == upper@,
            e@.len() == l@.len(),
            l@.len() == u@.len(),
            i <= e@.len(),
            forall|j: int| 0 <= j < i ==> e@[j] == l@[j] || e@[j] == u@[j],
        decreases e@.len() - i,
    {
        if e[i] != l[i] && e[i] != u[i] {
            return false;
        }
        i += 1;
    }
    true
}

/// The format to write for an output path whose extension is `extension`.
pub fn output_format(extension: Option<&str>) -> (r: OutputFormat)
    ensures
        r == format_for(match extension {
            Some(e) => Some(e@),
            None => None,
        }),
{
    proof {
        reveal_strlit("pdf");
        reveal_strlit("PDF");
        reveal_strlit("docx");
        reveal_strlit("DOCX");
    }
    let ext = match extension {
        Some(e) => e,
        None => "pdf",
    };
    if spells_exec(ext, "pdf", "PDF") {
        OutputFormat::Pdf
    } else if spells_exec(ext, "docx", "DOCX") {
        OutputFormat::Docx
    } else {
        OutputFormat::Unsupported
    }
}

} // verus!
verus! {

/// A character's code after ASCII lowercasing: `A` to `Z` move to `a` to `z`,
/// everything else stays.
pub open spec fn ascii_lower_code(c: char) -> u32 {
    if 65 <= c as u32 <= 90 {
        (c as u32 + 32) as u32
    } else {
        c as u32
    }
}

/// `ext`, lowercased in ASCII, is the word `word`.
pub open spec fn lowercases_to(ext: Seq<char>, word: Seq<char>) -> bool {
    &&& ext.len() == word.len()
    &&& forall|i: int| 0 <= i < ext.len() ==> ascii_lower_code(#[trigger] ext[i]) == word[i] as u32
}

/// The format follows the extension compared after ASCII lowercasing, in any
/// mix of cases: `pdf`, `PDF`, `Pdf` give a PDF, `docx`, `DOCX`, `Docx` a Word
/// document, a path without an extension a PDF, and anything else is refused.
pub proof fn law_format_ignores_ascii_case(extension: Option<Seq<char>>)
    ensures
        extension is None ==> format_for(extension) == OutputFormat::Pdf,
        extension matches Some(e) ==> (format_for(extension) == OutputFormat::Pdf <==> lowercases_to(
            e,
            "pdf"@,
        )),
        extension matches Some(e) ==> (format_for(extension) == OutputFormat::Docx <==> lowercases_to(
            e,
            "docx"@,
        )),
        extension matches Some(e) ==> (format_for(extension) == OutputFormat::Unsupported <==> !lowercases_to(
            e,
            "pdf"@,
        ) && !lowercases_to(e, "docx"@)),
{
    reveal_strlit("pdf");
    reveal_strlit("PDF");
    reveal_strlit("docx");
    reveal_strlit("DOCX");
    match extension {
        Some(e) => {
            lemma_spells_lowercase(e, "pdf"@, "PDF"@);
            lemma_spells_lowercase(e, "docx"@, "DOCX"@);
        },
        None => {
            assert(spells("pdf"@, "pdf"@, "PDF"@));
        },
    }
}

/// Spelling a lowercase word in either case is lowercasing to it.
proof fn lemma_spells_lowercase(e: Seq<char>, lower: Seq<char>, upper: Seq<char>)
    requires
        lower.len() == upper.len(),
        forall|i: int|
            0 <= i < lower.len() ==> 97 <= #[trigger] lower[i] as u32 <= 122 && upper[i] as u32 == lower[i]
                as u32 - 32,
    ensures
        spells(e, lower, upper) <==> lowercases_to(e, lower),
{
    if spells(e, lower, upper) {
        assert forall|i: int| 0 <= i < e.len() implies ascii_lower_code(#[trigger] e[i]) == lower[i] as u32 by {
            assert(e[i] == lower[i] || e[i] == upper[i]);
        }
    }
    if lowercases_to(e, lower) {
        assert forall|i: int| 0 <= i < e.len() implies e[i] == lower[i] || e[i] == upper[i] by {
            assert(ascii_lower_code(e[i]) == lower[i] as u32);
            let x = e[i] as u32;
            vstd::utf8::char_u32_cast(e[i], x);
            if 65 <= x <= 90 {
                let y = upper[i] as u32;
                assert(x == y);
                vstd::utf8::char_u32_cast(upper[i], y);
            } else {
                let y = lower[i] as u32;
                assert(x == y);
                vstd::utf8::char_u32_cast(lower[i], y);
            }
        }
    }
}

} // verus!
