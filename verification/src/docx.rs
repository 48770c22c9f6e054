//! A `.docx` backend for the same document model the PDF renderer uses.
//!
//! The output is deliberately plain. Headings carry the built-in `Heading1`…
//! `Heading3` style ids rather than being ad-hoc bold text, because that is the
//! signal a parser reads to find section boundaries. There are no tables, text
//! boxes, headers or footers: everything lives in one linear body, in reading
//! order.
use vstd::prelude::*;
use vstd::utf8::encode_utf8;
use crate::document::{
    entry_views, row_views, section_views, Block, BlockView, Entry, EntryVariant, EntryView, Section,
    SectionView,
};
use crate::package::{
    file_limit, has_duplicate_names, parts_fit, starts_with_zip_signature, write_package, PackageError,
};
use crate::plan::{section_ops, text_op, Column, Role};
use crate::schema::CVSchema;
use crate::sections::{build_sections, contact_items, contact_items_spec, sections_spec};
use crate::text::{
    concat2, decimal, decimal_string, has_prefix, is_blank, is_blank_str, join, join_seq, owned, to_uppercase,
    uppercase, views,
};

verus! {

/// What one character becomes in XML text: the five metacharacters as
/// entities, anything else as itself.
pub open spec fn escape_char(c: char) -> Seq<char> {
    if c == '&' {
        "&amp;"@
    } else if c == '<' {
        "&lt;"@
    } else if c == '>' {
        "&gt;"@
    } else if c == '"' {
        "&quot;"@
    } else if c == '\'' {
        "&apos;"@
    } else {
        seq![c]
    }
}

/// `s` with each character escaped.
pub open spec fn escape_seq(s: Seq<char>) -> Seq<char>
    decreases s.len(),
{
    if s.len() == 0 {
        Seq::empty()
    } else {
        escape_seq(s.drop_last()) + escape_char(s.last())
    }
}

/// Escape the five XML metacharacters.
pub fn escape(text: &str) -> (r: String)
    ensures
        r@ == escape_seq(text@),
{
    let mut out = String::new();
    let n = text.unicode_len();
    let mut i: usize = 0;
    while i < n
        invariant
            n == text@.len(),
            i <= n,
            out@ == escape_seq(text@.take(i as int)),
        decreases n - i,
    {
        assert(text@.take(i + 1).drop_last() =~= text@.take(i as int));
        let ch = text.get_char(i);
        if ch == '&' {
            out.append("&amp;");
        } else if ch == '<' {
            out.append("&lt;");
        } else if ch == '>' {
            out.append("&gt;");
        } else if ch == '"' {
            out.append("&quot;");
        } else if ch == '\'' {
            out.append("&apos;");
        } else {
            let one = text.substring_char(i, i + 1);
            assert(one@ =~= seq![ch]);
            out.append(one);
        }
        i += 1;
    }
    assert(text@.take(n as int) =~= text@);
    out
}

} // verus!
verus! {

/// The parts, one after another.
pub open spec fn concat_all(parts: Seq<Seq<char>>) -> Seq<char>
    decreases parts.len(),
{
    if parts.len() == 0 {
        Seq::empty()
    } else {
        concat_all(parts.drop_last()) + parts.last()
    }
}

/// A paragraph of `text` carrying the paragraph style `style`; nothing at all
/// when the text is blank.
pub open spec fn paragraph_xml(style: Seq<char>, text: Seq<char>) -> Seq<char> {
    if is_blank(text) {
        Seq::empty()
    } else {
        "<w:p><w:pPr><w:pStyle w:val=\""@ + style
            + "\"/></w:pPr><w:r><w:t xml:space=\"preserve\">"@ + escape_seq(text)
            + "</w:t></w:r></w:p>"@
    }
}

/// A paragraph carrying a named style.
pub fn paragraph(style: &str, text: &str) -> (r: String)
    ensures
        r@ == paragraph_xml(style@, text@),
{
    if is_blank_str(text) {
        return String::new();
    }
    let mut out = owned("<w:p><w:pPr><w:pStyle w:val=\"");
    out.append(style);
    out.append("\"/></w:pPr><w:r><w:t xml:space=\"preserve\">");
    let escaped = escape(text);
    out.append(escaped.as_str());
    out.append("</w:t></w:r></w:p>");
    out
}

/// One paragraph style definition; sizes are in half-points.
pub open spec fn style_xml(
    id: Seq<char>,
    name: Seq<char>,
    half_points: nat,
    bold: bool,
    outline: Option<nat>,
) -> Seq<char> {
    let bold_xml = if bold {
        "<w:b/>"@
    } else {
        Seq::empty()
    };
    let outline_xml = match outline {
        Some(level) => "<w:outlineLvl w:val=\""@ + decimal(level) + "\"/>"@,
        None => Seq::empty(),
    };
    "<w:style w:type=\"paragraph\" w:styleId=\""@ + id + "\"><w:name w:val=\""@ + name
        + "\"/><w:pPr><w:spacing w:before=\"60\" w:after=\"60\"/>"@ + outline_xml
        + "</w:pPr><w:rPr><w:rFonts w:ascii=\"Helvetica\" w:hAnsi=\"Helvetica\"/><w:sz w:val=\""@
        + decimal(half_points) + "\"/>"@ + bold_xml + "</w:rPr></w:style>"@
}

pub open spec fn opt_nat(o: Option<u32>) -> Option<nat> {
    match o {
        Some(v) => Some(v as nat),
        None => None,
    }
}

/// One style definition. Sizes are in half-points.
pub fn style(id: &str, name: &str, half_points: u32, bold: bool, outline: Option<u32>) -> (r: String)
    ensures
        r@ == style_xml(id@, name@, half_points as nat, bold, opt_nat(outline)),
{
    let mut out = owned("<w:style w:type=\"paragraph\" w:styleId=\"");
    out.append(id);
    out.append("\"><w:name w:val=\"");
    out.append(name);
    out.append("\"/><w:pPr><w:spacing w:before=\"60\" w:after=\"60\"/>");
    match outline {
        Some(level) => {
            out.append("<w:outlineLvl w:val=\"");
            let digits = decimal_string(level);
            out.append(digits.as_str());
            out.append("\"/>");
        },
        None => {
            assert(out@ + Seq::<char>::empty() =~= out@);
        },
    }
    out.append("</w:pPr><w:rPr><w:rFonts w:ascii=\"Helvetica\" w:hAnsi=\"Helvetica\"/><w:sz w:val=\"");
    let size = decimal_string(half_points);
    out.append(size.as_str());
    out.append("\"/>");
    if bold {
        out.append("<w:b/>");
    }
    out.append("</w:rPr></w:style>");
    assert(out@ =~= style_xml(id@, name@, half_points as nat, bold, opt_nat(outline)));
    out
}

/// The style sheet: `Normal`, `Title`, `Contact`, `Heading1`–`Heading3` with
/// Word's built-in names and outline levels, `Body`, `Meta` and `Bullet`.
pub open spec fn styles_xml() -> Seq<char> {
    "<?xml version=\"1.0\" encoding=\"UTF-8\" standalone=\"yes\"?>\n<w:styles xmlns:w=\"http://schemas.openxmlformats.org/wordprocessingml/2006/main\">"@
        + style_xml("Normal"@, "Normal"@, 20, false, None)
        + style_xml("Title"@, "Title"@, 48, true, None)
        + style_xml("Contact"@, "Contact"@, 20, false, None)
        + style_xml("Heading1"@, "heading 1"@, 26, true, Some(0))
        + style_xml("Heading2"@, "heading 2"@, 24, true, Some(1))
        + style_xml("Heading3"@, "heading 3"@, 22, true, Some(2))
        + style_xml("Body"@, "Body Text"@, 20, false, None)
        + style_xml("Meta"@, "Meta"@, 20, false, None)
        + style_xml("Bullet"@, "List Paragraph"@, 20, false, None) + "</w:styles>"@
}

/// The style sheet.
pub fn styles() -> (r: String)
    ensures
        r@ == styles_xml(),
{
    let mut out = owned(
        "<?xml version=\"1.0\" encoding=\"UTF-8\" standalone=\"yes\"?>\n<w:styles xmlns:w=\"http://schemas.openxmlformats.org/wordprocessingml/2006/main\">",
    );
    let s = style("Normal", "Normal", 20, false, None);
    out.append(s.as_str());
    let s = style("Title", "Title", 48, true, None);
    out.append(s.as_str());
    let s = style("Contact", "Contact", 20, false, None);
    out.append(s.as_str());
    let s = style("Heading1", "heading 1", 26, true, Some(0));
    out.append(s.as_str());
    let s = style("Heading2", "heading 2", 24, true, Some(1));
    out.append(s.as_str());
    let s = style("Heading3", "heading 3", 22, true, Some(2));
    out.append(s.as_str());
    let s = style("Body", "Body Text", 20, false, None);
    out.append(s.as_str());
    let s = style("Meta", "Meta", 20, false, None);
    out.append(s.as_str());
    let s = style("Bullet", "List Paragraph", 20, false, None);
    out.append(s.as_str());
    out.append("</w:styles>");
    out
}

} // verus!
verus! {

/// One paragraph in `style` per line, blank lines leaving nothing.
pub open spec fn styled_lines(style: Seq<char>, lines: Seq<Seq<char>>) -> Seq<char> {
    concat_all(lines.map_values(|l: Seq<char>| paragraph_xml(style, l)))
}

/// One `Bullet` paragraph per item, each led by `• `.
pub open spec fn bullet_lines(items: Seq<Seq<char>>) -> Seq<char> {
    concat_all(items.map_values(|i: Seq<char>| paragraph_xml("Bullet"@, "\u{2022} "@ + i)))
}

/// Ruled entries take `Heading2`, plain ones `Heading3`.
pub open spec fn entry_heading(variant: EntryVariant) -> Seq<char> {
    if variant == EntryVariant::Ruled {
        "Heading2"@
    } else {
        "Heading3"@
    }
}

/// One entry: its title as a heading, each meta line, the summary if any, and
/// its bullets.
pub open spec fn entry_xml(e: EntryView, heading: Seq<char>) -> Seq<char> {
    paragraph_xml(heading, e.title) + styled_lines("Meta"@, e.meta) + match e.summary {
        Some(s) => paragraph_xml("Body"@, s),
        None => Seq::empty(),
    } + bullet_lines(e.bullets)
}

/// The body of one block. Inline lists become a single line, label/value rows
/// become `Label: value` lines: no tables anywhere.
pub open spec fn block_xml(b: BlockView) -> Seq<char> {
    match b {
        BlockView::Prose { paragraphs, .. } => styled_lines("Body"@, paragraphs),
        BlockView::InlineList { items, separator, .. } => paragraph_xml(
            "Body"@,
            join_seq(items, separator),
        ),
        BlockView::BulletList { items, .. } => bullet_lines(items),
        BlockView::EntryList { entries, variant, .. } => concat_all(
            entries.map_values(|e: EntryView| entry_xml(e, entry_heading(variant))),
        ),
        BlockView::LabelValue { rows } => styled_lines(
            "Body"@,
            rows.map_values(|r: (Seq<char>, Seq<char>)| r.0 + ": "@ + r.1),
        ),
    }
}

/// A section under the given (already uppercased) heading.
pub open spec fn section_xml_spec(heading: Seq<char>, b: BlockView) -> Seq<char> {
    paragraph_xml("Heading1"@, heading) + block_xml(b)
}

fn styled_lines_exec(style: &str, lines: &Vec<String>) -> (r: String)
    ensures
        r@ == styled_lines(style@, views(lines@)),
{
    let ghost all = views(lines@).map_values(|l: Seq<char>| paragraph_xml(style@, l));
    let mut out = String::new();
    let n = lines.len();
    let mut i: usize = 0;
    while i < n
        invariant
            n == lines.len(),
            i <= n,
            all == views(lines@).map_values(|l: Seq<char>| paragraph_xml(style@, l)),
            out@ == concat_all(all.take(i as int)),
        decreases n - i,
    {
        assert(all.take(i + 1).drop_last() =~= all.take(i as int));
        let p = paragraph(style, lines[i].as_str());
        assert(all.take(i + 1).last() == p@);
        out.append(p.as_str());
        i += 1;
    }
    assert(all.take(n as int) =~= all);
    out
}

fn bullet_lines_exec(items: &Vec<String>) -> (r: String)
    ensures
        r@ == bullet_lines(views(items@)),
{
    let ghost all = views(items@).map_values(
        |i: Seq<char>| paragraph_xml("Bullet"@, "\u{2022} "@ + i),
    );
    let mut out = String::new();
    let n = items.len();
    let mut i: usize = 0;
    while i < n
        invariant
            n == items.len(),
            i <= n,
            all == views(items@).map_values(
                |i: Seq<char>| paragraph_xml("Bullet"@, "\u{2022} "@ + i),
            ),
            out@ == concat_all(all.take(i as int)),
        decreases n - i,
    {
        assert(all.take(i + 1).drop_last() =~= all.take(i as int));
        let line = concat2("\u{2022} ", items[i].as_str());
        let p = paragraph("Bullet", line.as_str());
        assert(all.take(i + 1).last() == p@);
        out.append(p.as_str());
        i += 1;
    }
    assert(all.take(n as int) =~= all);
    out
}

fn entry_xml_exec(e: &Entry, heading: &str) -> (r: String)
    ensures
        r@ == entry_xml(e@, heading@),
{
    let mut out = paragraph(heading, e.title.as_str());
    let meta = styled_lines_exec("Meta", &e.meta);
    out.append(meta.as_str());
    match &e.summary {
        Some(summary) => {
            let p = paragraph("Body", summary.as_str());
            out.append(p.as_str());
        },
        None => {
            assert(out@ + Seq::<char>::empty() =~= out@);
        },
    }
    let bullets = bullet_lines_exec(&e.bullets);
    out.append(bullets.as_str());
    out
}

/// The body of one block.
pub fn block_xml_exec(block: &Block) -> (r: String)
    ensures
        r@ == block_xml(block@),
{
    match block {
        Block::Prose { paragraphs, .. } => styled_lines_exec("Body", paragraphs),
        Block::InlineList { items, separator, .. } => {
            // One line, not one per item: a parser reads this as a list of
            // skills rather than a column of fragments.
            let line = join(items, separator.as_str());
            paragraph("Body", line.as_str())
        },
        Block::BulletList { items, .. } => bullet_lines_exec(items),
        Block::EntryList { entries, variant, .. } => {
            let heading = if *variant == EntryVariant::Ruled {
                "Heading2"
            } else {
                "Heading3"
            };
            let ghost all = entry_views(entries@).map_values(
                |e: EntryView| entry_xml(e, entry_heading(*variant)),
            );
            let mut out = String::new();
            let n = entries.len();
            let mut i: usize = 0;
            while i < n
                invariant
                    n == entries.len(),
                    i <= n,
                    heading@ == entry_heading(*variant),
                    all == entry_views(entries@).map_values(
                        |e: EntryView| entry_xml(e, entry_heading(*variant)),
                    ),
                    out@ == concat_all(all.take(i as int)),
                decreases n - i,
            {
                assert(all.take(i + 1).drop_last() =~= all.take(i as int));
                let x = entry_xml_exec(&entries[i], heading);
                assert(all.take(i + 1).last() == x@);
                out.append(x.as_str());
                i += 1;
            }
            assert(all.take(n as int) =~= all);
            out
        },
        Block::LabelValue { rows } => {
            // "Label: value" lines rather than a table: table cells are a
            // common source of parser confusion.
            let mut lines: Vec<String> = Vec::new();
            let n = rows.len();
            let mut i: usize = 0;
            while i < n
                invariant
                    n == rows.len(),
                    i <= n,
                    views(lines@) == row_views(rows@).map_values(
                        |r: (Seq<char>, Seq<char>)| r.0 + ": "@ + r.1,
                    ).take(i as int),
                decreases n - i,
            {
                let mut line = rows[i].label.clone();
                line.append(": ");
                line.append(rows[i].value.as_str());
                assert(row_views(rows@).map_values(
                    |r: (Seq<char>, Seq<char>)| r.0 + ": "@ + r.1,
                ).take(i + 1) =~= views(lines@).push(line@));
                lines.push(line);
                assert(views(lines@) =~= row_views(rows@).map_values(
                    |r: (Seq<char>, Seq<char>)| r.0 + ": "@ + r.1,
                ).take(i + 1));
                i += 1;
            }
            assert(row_views(rows@).map_values(|r: (Seq<char>, Seq<char>)| r.0 + ": "@ + r.1).take(
                n as int,
            ) =~= row_views(rows@).map_values(|r: (Seq<char>, Seq<char>)| r.0 + ": "@ + r.1));
            styled_lines_exec("Body", &lines)
        },
    }
}

/// A section given its heading text, which the caller has uppercased.
pub fn section_xml(heading: &str, block: &Block) -> (r: String)
    ensures
        r@ == section_xml_spec(heading@, block@),
{
    let mut out = paragraph("Heading1", heading);
    let body = block_xml_exec(block);
    out.append(body.as_str());
    out
}

/// A section: its title, uppercased, as a `Heading1`, then its block.
pub fn render_section(section: &Section) -> (r: String)
    ensures
        r@ == section_xml_spec(uppercase(section.title@), section.block@),
{
    let heading = to_uppercase(section.title.as_str());
    section_xml(heading.as_str(), &section.block)
}

} // verus!
verus! {

pub const CONTENT_TYPES: &'static str = "<?xml version=\"1.0\" encoding=\"UTF-8\" standalone=\"yes\"?>\n<Types xmlns=\"http://schemas.openxmlformats.org/package/2006/content-types\">\n<Default Extension=\"rels\" ContentType=\"application/vnd.openxmlformats-package.relationships+xml\"/>\n<Default Extension=\"xml\" ContentType=\"application/xml\"/>\n<Override PartName=\"/word/document.xml\" ContentType=\"application/vnd.openxmlformats-officedocument.wordprocessingml.document.main+xml\"/>\n<Override PartName=\"/word/styles.xml\" ContentType=\"application/vnd.openxmlformats-officedocument.wordprocessingml.styles+xml\"/>\n</Types>";

pub const ROOT_RELS: &'static str = "<?xml version=\"1.0\" encoding=\"UTF-8\" standalone=\"yes\"?>\n<Relationships xmlns=\"http://schemas.openxmlformats.org/package/2006/relationships\">\n<Relationship Id=\"rId1\" Type=\"http://schemas.openxmlformats.org/officeDocument/2006/relationships/officeDocument\" Target=\"word/document.xml\"/>\n</Relationships>";

pub const DOCUMENT_RELS: &'static str = "<?xml version=\"1.0\" encoding=\"UTF-8\" standalone=\"yes\"?>\n<Relationships xmlns=\"http://schemas.openxmlformats.org/package/2006/relationships\">\n<Relationship Id=\"rId1\" Type=\"http://schemas.openxmlformats.org/officeDocument/2006/relationships/styles\" Target=\"styles.xml\"/>\n</Relationships>";

pub const DOCUMENT_OPEN: &'static str = "<?xml version=\"1.0\" encoding=\"UTF-8\" standalone=\"yes\"?><w:document xmlns:w=\"http://schemas.openxmlformats.org/wordprocessingml/2006/main\"><w:body>";

/// A4 with the same 26pt margins the PDF uses, in twentieths of a point.
pub const DOCUMENT_CLOSE: &'static str = "<w:sectPr><w:pgSz w:w=\"11906\" w:h=\"16838\"/><w:pgMar w:top=\"520\" w:right=\"520\" w:bottom=\"520\" w:left=\"520\"/></w:sectPr></w:body></w:document>";

/// The XML of every section, in order, under its uppercased title.
pub open spec fn sections_xml(sections: Seq<SectionView>) -> Seq<char> {
    concat_all(
        sections.map_values(|s: SectionView| section_xml_spec(uppercase(s.title), s.block)),
    )
}

/// `word/document.xml`: the name as the title, the contact items on one line
/// joined by ` | ` (left out when there are none), then every section.
pub open spec fn body_xml(schema: CVSchema) -> Seq<char> {
    let contacts = contact_items_spec(schema.person, schema.links);
    DOCUMENT_OPEN@ + paragraph_xml("Title"@, schema.person.name@) + if contacts.len() > 0 {
        paragraph_xml("Contact"@, join_seq(contacts, " | "@))
    } else {
        Seq::empty()
    } + sections_xml(sections_spec(schema)) + DOCUMENT_CLOSE@
}

/// The document body.
pub fn build_body(schema: &CVSchema) -> (r: String)
    ensures
        r@ == body_xml(*schema),
{
    let mut out = owned(DOCUMENT_OPEN);
    let title = paragraph("Title", schema.person.name.as_str());
    out.append(title.as_str());
    let contacts = contact_items(&schema.person, &schema.links);
    if contacts.len() > 0 {
        let line = join(&contacts, " | ");
        let p = paragraph("Contact", line.as_str());
        out.append(p.as_str());
    } else {
        assert(out@ + Seq::<char>::empty() =~= out@);
    }
    let sections = build_sections(schema);
    let ghost all = section_views(sections@).map_values(
        |s: SectionView| section_xml_spec(uppercase(s.title), s.block),
    );
    let mut body = String::new();
    let n = sections.len();
    let mut i: usize = 0;
    while i < n
        invariant
            n == sections.len(),
            i <= n,
            all == section_views(sections@).map_values(
                |s: SectionView| section_xml_spec(uppercase(s.title), s.block),
            ),
            body@ == concat_all(all.take(i as int)),
        decreases n - i,
    {
        assert(all.take(i + 1).drop_last() =~= all.take(i as int));
        let x = render_section(&sections[i]);
        assert(all.take(i + 1).last() == x@);
        body.append(x.as_str());
        i += 1;
    }
    assert(all.take(n as int) =~= all);
    out.append(body.as_str());
    out.append(DOCUMENT_CLOSE);
    out
}

} // verus!
verus! {

/// The views of package parts.
pub open spec fn part_views(parts: Seq<(String, String)>) -> Seq<(Seq<char>, Seq<char>)> {
    parts.map_values(|p: (String, String)| (p.0@, p.1@))
}

/// The parts of the `.docx` package, in the order they are stored: the
/// content types, the package and document relationships, the style sheet and
/// the document body.
pub open spec fn docx_parts_spec(schema: CVSchema) -> Seq<(Seq<char>, Seq<char>)> {
    seq![
        ("[Content_Types].xml"@, CONTENT_TYPES@),
        ("_rels/.rels"@, ROOT_RELS@),
        ("word/_rels/document.xml.rels"@, DOCUMENT_RELS@),
        ("word/styles.xml"@, styles_xml()),
        ("word/document.xml"@, body_xml(schema)),
    ]
}

/// The named parts of the `.docx` package for `schema`.
pub fn docx_parts(schema: &CVSchema) -> (r: Vec<(String, String)>)
    ensures
        part_views(r@) == docx_parts_spec(*schema),
{
    let body = build_body(schema);
    let mut parts: Vec<(String, String)> = Vec::new();
    parts.push((owned("[Content_Types].xml"), owned(CONTENT_TYPES)));
    parts.push((owned("_rels/.rels"), owned(ROOT_RELS)));
    parts.push((owned("word/_rels/document.xml.rels"), owned(DOCUMENT_RELS)));
    parts.push((owned("word/styles.xml"), styles()));
    parts.push((owned("word/document.xml"), body));
    assert(part_views(parts@) =~= docx_parts_spec(*schema));
    parts
}

/// Render `schema` as the bytes of a `.docx` file: a zip archive holding
/// exactly [`docx_parts`], stored deflated with a fixed timestamp. It
/// succeeds whenever the document body is below 2 GiB as UTF-8 (every other
/// part is a few kilobytes, and the part names are distinct).
pub fn render(schema: &CVSchema) -> (r: Result<Vec<u8>, PackageError>)
    ensures
        r matches Ok(bytes) ==> starts_with_zip_signature(bytes@),
        encode_utf8(body_xml(*schema)).len() <= file_limit() ==> r is Ok,
{
    let parts = docx_parts(schema);
    assert(part_views(parts@).len() == 5);
    proof {
        if encode_utf8(body_xml(*schema)).len() <= file_limit() {
            lemma_docx_parts_fit(*schema);
            let ps = docx_parts_spec(*schema);
            assert forall|i: int| #![trigger parts@[i]] 0 <= i < parts@.len() implies parts@[i].0@.len()
                <= 16000 && encode_utf8(parts@[i].1@).len() <= file_limit() by {
                assert(part_views(parts@)[i] == ps[i]);
            }
            assert(parts_fit(parts@));
            assert forall|i: int, j: int| 0 <= i < j < parts@.len() implies #[trigger] parts@[i].0@
                != #[trigger] parts@[j].0@ by {
                assert(part_views(parts@)[i] == ps[i]);
                assert(part_views(parts@)[j] == ps[j]);
            }
            assert(!has_duplicate_names(parts@));
        }
    }
    write_package(&parts)
}

} // verus!
verus! {

/// Escaped text never holds a raw `<`, `>`, `"` or `'`: markup in the data
/// cannot open or close an element or an attribute.
pub proof fn law_escape_leaves_no_markup(s: Seq<char>)
    ensures
        forall|i: int|
            0 <= i < escape_seq(s).len() ==> {
                let c = #[trigger] escape_seq(s)[i];
                c != '<' && c != '>' && c != '"' && c != '\''
            },
    decreases s.len(),
{
    reveal_strlit("&amp;");
    reveal_strlit("&lt;");
    reveal_strlit("&gt;");
    reveal_strlit("&quot;");
    reveal_strlit("&apos;");
    if s.len() > 0 {
        law_escape_leaves_no_markup(s.drop_last());
        let e = escape_seq(s);
        let front = escape_seq(s.drop_last());
        let tail = escape_char(s.last());
        assert(e == front + tail);
        assert forall|i: int| 0 <= i < e.len() implies {
            let c = #[trigger] e[i];
            c != '<' && c != '>' && c != '"' && c != '\''
        } by {
            if i < front.len() {
                assert(e[i] == front[i]);
            } else {
                assert(e[i] == tail[i - front.len()]);
            }
        }
    }
}

} // verus!
verus! {

/// The Word document and the PDF title a section with the same text: the
/// section's title in capitals, as the `Heading1` paragraph that opens the
/// section's XML and as the first paragraph the PDF draws for it.
pub proof fn law_backends_share_section_titles(s: SectionView)
    ensures
        section_ops(s)[4] == text_op(uppercase(s.title), Role::SectionTitle, Column::Full),
        section_xml_spec(uppercase(s.title), s.block).take(
            paragraph_xml("Heading1"@, uppercase(s.title)).len() as int,
        ) == paragraph_xml("Heading1"@, uppercase(s.title)),
{
    let h = paragraph_xml("Heading1"@, uppercase(s.title));
    assert((h + block_xml(s.block)).take(h.len() as int) =~= h);
}

} // verus!
verus! {

/// A UTF-8 encoding takes at most four bytes a character.
proof fn lemma_utf8_len(s: Seq<char>)
    ensures
        encode_utf8(s).len() <= 4 * s.len(),
    decreases s.len(),
{
    if s.len() > 0 {
        lemma_utf8_len(s.drop_first());
    }
}

proof fn lemma_decimal_short(n: nat)
    requires
        n < 100,
    ensures
        decimal(n).len() <= 2,
{
    if n >= 10 {
        assert(n / 10 < 10);
        assert(decimal(n / 10).len() == 1);
    }
}

proof fn lemma_style_short(id: Seq<char>, name: Seq<char>, half_points: nat, bold: bool, outline: Option<nat>)
    requires
        id.len() <= 20,
        name.len() <= 20,
        half_points < 100,
        outline matches Some(level) ==> level < 100,
    ensures
        style_xml(id, name, half_points, bold, outline).len() <= 1000,
{
    reveal_strlit("<w:b/>");
    reveal_strlit("<w:outlineLvl w:val=\"");
    reveal_strlit("\"/>");
    reveal_strlit("<w:style w:type=\"paragraph\" w:styleId=\"");
    reveal_strlit("\"><w:name w:val=\"");
    reveal_strlit("\"/><w:pPr><w:spacing w:before=\"60\" w:after=\"60\"/>");
    reveal_strlit("</w:pPr><w:rPr><w:rFonts w:ascii=\"Helvetica\" w:hAnsi=\"Helvetica\"/><w:sz w:val=\"");
    reveal_strlit("</w:rPr></w:style>");
    lemma_decimal_short(half_points);
    match outline {
        Some(level) => lemma_decimal_short(level),
        None => {},
    }
}

/// The style sheet is a few kilobytes.
proof fn lemma_styles_short()
    ensures
        styles_xml().len() <= 20000,
{
    reveal_strlit("<?xml version=\"1.0\" encoding=\"UTF-8\" standalone=\"yes\"?>\n<w:styles xmlns:w=\"http://schemas.openxmlformats.org/wordprocessingml/2006/main\">");
    reveal_strlit("Normal");
    reveal_strlit("Title");
    reveal_strlit("Contact");
    reveal_strlit("Heading1");
    reveal_strlit("heading 1");
    reveal_strlit("Heading2");
    reveal_strlit("heading 2");
    reveal_strlit("Heading3");
    reveal_strlit("heading 3");
    reveal_strlit("Body");
    reveal_strlit("Body Text");
    reveal_strlit("Meta");
    reveal_strlit("Bullet");
    reveal_strlit("List Paragraph");
    reveal_strlit("</w:styles>");
    lemma_style_short("Normal"@, "Normal"@, 20, false, None);
    lemma_style_short("Title"@, "Title"@, 48, true, None);
    lemma_style_short("Contact"@, "Contact"@, 20, false, None);
    lemma_style_short("Heading1"@, "heading 1"@, 26, true, Some(0));
    lemma_style_short("Heading2"@, "heading 2"@, 24, true, Some(1));
    lemma_style_short("Heading3"@, "heading 3"@, 22, true, Some(2));
    lemma_style_short("Body"@, "Body Text"@, 20, false, None);
    lemma_style_short("Meta"@, "Meta"@, 20, false, None);
    lemma_style_short("Bullet"@, "List Paragraph"@, 20, false, None);
}

/// The fixed parts are a few kilobytes as UTF-8.
proof fn lemma_fixed_parts_short()
    ensures
        encode_utf8(CONTENT_TYPES@).len() <= 4000,
        encode_utf8(ROOT_RELS@).len() <= 4000,
        encode_utf8(DOCUMENT_RELS@).len() <= 4000,
        encode_utf8(styles_xml()).len() <= 80000,
{
    reveal_strlit("<?xml version=\"1.0\" encoding=\"UTF-8\" standalone=\"yes\"?>\n<Types xmlns=\"http://schemas.openxmlformats.org/package/2006/content-types\">\n<Default Extension=\"rels\" ContentType=\"application/vnd.openxmlformats-package.relationships+xml\"/>\n<Default Extension=\"xml\" ContentType=\"application/xml\"/>\n<Override PartName=\"/word/document.xml\" ContentType=\"application/vnd.openxmlformats-officedocument.wordprocessingml.document.main+xml\"/>\n<Override PartName=\"/word/styles.xml\" ContentType=\"application/vnd.openxmlformats-officedocument.wordprocessingml.styles+xml\"/>\n</Types>");
    reveal_strlit("<?xml version=\"1.0\" encoding=\"UTF-8\" standalone=\"yes\"?>\n<Relationships xmlns=\"http://schemas.openxmlformats.org/package/2006/relationships\">\n<Relationship Id=\"rId1\" Type=\"http://schemas.openxmlformats.org/officeDocument/2006/relationships/officeDocument\" Target=\"word/document.xml\"/>\n</Relationships>");
    reveal_strlit("<?xml version=\"1.0\" encoding=\"UTF-8\" standalone=\"yes\"?>\n<Relationships xmlns=\"http://schemas.openxmlformats.org/package/2006/relationships\">\n<Relationship Id=\"rId1\" Type=\"http://schemas.openxmlformats.org/officeDocument/2006/relationships/styles\" Target=\"styles.xml\"/>\n</Relationships>");
    lemma_styles_short();
    lemma_utf8_len(CONTENT_TYPES@);
    lemma_utf8_len(ROOT_RELS@);
    lemma_utf8_len(DOCUMENT_RELS@);
    lemma_utf8_len(styles_xml());
}

/// The part names are short and distinct.
proof fn lemma_part_names()
    ensures
        "[Content_Types].xml"@.len() == 19,
        "_rels/.rels"@.len() == 11,
        "word/_rels/document.xml.rels"@.len() == 28,
        "word/styles.xml"@.len() == 15,
        "word/document.xml"@.len() == 17,
{
    reveal_strlit("[Content_Types].xml");
    reveal_strlit("_rels/.rels");
    reveal_strlit("word/_rels/document.xml.rels");
    reveal_strlit("word/styles.xml");
    reveal_strlit("word/document.xml");
}

/// Every part but the document body is small, and all have short and
/// distinct names: the package can be written whenever the body fits.
#[verifier::spinoff_prover]
proof fn lemma_docx_parts_fit(schema: CVSchema)
    requires
        encode_utf8(body_xml(schema)).len() <= file_limit(),
    ensures
        forall|i: int|
            #![trigger docx_parts_spec(schema)[i]]
            0 <= i < 5 ==> docx_parts_spec(schema)[i].0.len() <= 16000 && encode_utf8(
                docx_parts_spec(schema)[i].1,
            ).len() <= file_limit(),
        forall|i: int, j: int|
            0 <= i < j < 5 ==> #[trigger] docx_parts_spec(schema)[i].0 != #[trigger] docx_parts_spec(schema)[j].0,
{
    lemma_fixed_parts_short();
    lemma_part_names();
    let ps = docx_parts_spec(schema);
    assert(ps[3].0 == "word/styles.xml"@);
    assert(ps[4].0 == "word/document.xml"@);
}

} // verus!
verus! {

/// The entity for `&`.
pub open spec fn amp_entity() -> Seq<char> {
    seq!['&', 'a', 'm', 'p', ';']
}

pub open spec fn lt_entity() -> Seq<char> {
    seq!['&', 'l', 't', ';']
}

pub open spec fn gt_entity() -> Seq<char> {
    seq!['&', 'g', 't', ';']
}

pub open spec fn quot_entity() -> Seq<char> {
    seq!['&', 'q', 'u', 'o', 't', ';']
}

pub open spec fn apos_entity() -> Seq<char> {
    seq!['&', 'a', 'p', 'o', 's', ';']
}

/// What an XML reader makes of escaped text: each of the five entities becomes
/// its character, any other character stays as it is.
pub open spec fn unescape_seq(s: Seq<char>) -> Seq<char>
    decreases s.len(),
{
    if s.len() == 0 {
        Seq::empty()
    } else if has_prefix(s, amp_entity()) {
        seq!['&'] + unescape_seq(s.skip(5))
    } else if has_prefix(s, lt_entity()) {
        seq!['<'] + unescape_seq(s.skip(4))
    } else if has_prefix(s, gt_entity()) {
        seq!['>'] + unescape_seq(s.skip(4))
    } else if has_prefix(s, quot_entity()) {
        seq!['"'] + unescape_seq(s.skip(6))
    } else if has_prefix(s, apos_entity()) {
        seq!['\''] + unescape_seq(s.skip(6))
    } else {
        seq![s[0]] + unescape_seq(s.drop_first())
    }
}

proof fn lemma_escape_front(s: Seq<char>)
    requires
        s.len() > 0,
    ensures
        escape_seq(s) == escape_char(s[0]) + escape_seq(s.drop_first()),
    decreases s.len(),
{
    if s.len() == 1 {
        assert(s.drop_last() =~= Seq::<char>::empty());
        assert(s.drop_first() =~= Seq::<char>::empty());
        assert(escape_seq(Seq::<char>::empty()) == Seq::<char>::empty());
        assert(escape_seq(s) =~= escape_char(s[0]));
    } else {
        lemma_escape_front(s.drop_last());
        assert(s.drop_last().drop_first() =~= s.drop_first().drop_last());
        assert(s.drop_last()[0] == s[0]);
        assert(s.drop_first().last() == s.last());
        assert(escape_seq(s) =~= escape_char(s[0]) + escape_seq(s.drop_first()));
    }
}

proof fn lemma_unescape_entity(e: Seq<char>, c: char, t: Seq<char>)
    requires
        e == escape_char(c),
    ensures
        unescape_seq(e + t) == seq![c] + unescape_seq(t),
{
    reveal_strlit("&amp;");
    reveal_strlit("&lt;");
    reveal_strlit("&gt;");
    reveal_strlit("&quot;");
    reveal_strlit("&apos;");
    let s = e + t;
    assert(s.skip(e.len() as int) =~= t);
    if c == '&' {
        assert(s.take(5) =~= amp_entity());
    } else if c == '<' {
        assert(s.take(4) =~= lt_entity());
        assert(s[1] != amp_entity()[1]);
    } else if c == '>' {
        assert(s.take(4) =~= gt_entity());
        assert(s[1] != amp_entity()[1]);
        assert(s[1] != lt_entity()[1]);
    } else if c == '"' {
        assert(s.take(6) =~= quot_entity());
        assert(s[1] != amp_entity()[1]);
        assert(s[1] != lt_entity()[1]);
        assert(s[1] != gt_entity()[1]);
    } else if c == '\'' {
        assert(s.take(6) =~= apos_entity());
        assert(s[2] != amp_entity()[2]);
        assert(s[1] != lt_entity()[1]);
        assert(s[1] != gt_entity()[1]);
        assert(s[1] != quot_entity()[1]);
    } else {
        assert(s[0] == c);
        assert(s[0] != amp_entity()[0]);
        assert(s.drop_first() =~= t);
    }
}

/// Escaping loses nothing: an XML reader, turning each entity back into its
/// character, reads exactly the text that was escaped.
pub proof fn law_unescape_escape(s: Seq<char>)
    ensures
        unescape_seq(escape_seq(s)) == s,
    decreases s.len(),
{
    if s.len() == 0 {
        assert(escape_seq(s) == Seq::<char>::empty());
    } else {
        lemma_escape_front(s);
        law_unescape_escape(s.drop_first());
        lemma_unescape_entity(escape_char(s[0]), s[0], escape_seq(s.drop_first()));
        assert(seq![s[0]] + s.drop_first() =~= s);
    }
}

} // verus!
verus! {

/// Escaping two texts one after the other is escaping the two joined.
pub proof fn lemma_escape_append(a: Seq<char>, b: Seq<char>)
    ensures
        escape_seq(a + b) == escape_seq(a) + escape_seq(b),
    decreases b.len(),
{
    if b.len() == 0 {
        assert(a + b =~= a);
        assert(escape_seq(a) + escape_seq(b) =~= escape_seq(a));
    } else {
        assert((a + b).drop_last() =~= a + b.drop_last());
        assert((a + b).last() == b.last());
        lemma_escape_append(a, b.drop_last());
        assert(escape_seq(a + b) =~= escape_seq(a) + (escape_seq(b.drop_last()) + escape_char(b.last())));
    }
}

/// The Word paragraph of one bullet `b`: `Bullet` style, and the text `• `
/// followed by `b` with its XML metacharacters escaped.
pub open spec fn bullet_paragraph(b: Seq<char>) -> Seq<char> {
    "<w:p><w:pPr><w:pStyle w:val=\"Bullet\"/></w:pPr><w:r><w:t xml:space=\"preserve\">\u{2022} "@
        + escape_seq(b) + "</w:t></w:r></w:p>"@
}

/// `s` begins with `head`, ends with `tail`, and the two do not overlap.
pub open spec fn framed(s: Seq<char>, head: Seq<char>, tail: Seq<char>) -> bool {
    &&& head.len() + tail.len() <= s.len()
    &&& s.take(head.len() as int) == head
    &&& s.skip(s.len() - tail.len()) == tail
}

proof fn lemma_bullet_paragraph(b: Seq<char>)
    ensures
        paragraph_xml("Bullet"@, "\u{2022} "@ + b) == bullet_paragraph(b),
{
    reveal_strlit("\u{2022} ");
    reveal_strlit("Bullet");
    reveal_strlit("<w:p><w:pPr><w:pStyle w:val=\"");
    reveal_strlit("\"/></w:pPr><w:r><w:t xml:space=\"preserve\">");
    reveal_strlit("<w:p><w:pPr><w:pStyle w:val=\"Bullet\"/></w:pPr><w:r><w:t xml:space=\"preserve\">\u{2022} ");
    let lead = "\u{2022} "@;
    let t = lead + b;
    assert(t[0] == '\u{2022}');
    assert(!is_blank(t));
    lemma_escape_append(lead, b);
    assert(lead.drop_last() =~= seq!['\u{2022}']);
    let one = seq!['\u{2022}'];
    assert(one.drop_last() =~= Seq::<char>::empty());
    assert(one.last() == '\u{2022}');
    assert(escape_seq(Seq::<char>::empty()) == Seq::<char>::empty());
    assert(escape_char('\u{2022}') == one);
    assert(escape_seq(one) == escape_seq(one.drop_last()) + escape_char(one.last()));
    assert(escape_seq(one) =~= one);
    assert(escape_seq(lead) =~= lead);
    assert(paragraph_xml("Bullet"@, t) =~= bullet_paragraph(b));
}

/// Every bullet of an entry list comes out as its own `Bullet` paragraph.
proof fn lemma_bullet_lines(items: Seq<Seq<char>>)
    ensures
        bullet_lines(items) == concat_all(items.map_values(|b: Seq<char>| bullet_paragraph(b))),
{
    let x = items.map_values(|i: Seq<char>| paragraph_xml("Bullet"@, "\u{2022} "@ + i));
    let y = items.map_values(|b: Seq<char>| bullet_paragraph(b));
    assert forall|k: int| 0 <= k < items.len() implies x[k] == y[k] by {
        lemma_bullet_paragraph(items[k]);
    }
    assert(x =~= y);
}

/// In the Word body of an entry list, each entry in turn opens with its title
/// as a heading paragraph (`Heading2` when ruled, `Heading3` otherwise) and
/// closes, after its meta lines and summary, with one `Bullet` paragraph per
/// bullet, `• ` and the bullet's escaped text, in the entry's order.
pub proof fn law_entry_bullets_close_each_entry(entries: Seq<EntryView>, variant: EntryVariant, wrap: bool)
    ensures
        exists|parts: Seq<Seq<char>>|
            parts.len() == entries.len() && block_xml(BlockView::EntryList { entries, variant, wrap })
                == concat_all(parts) && forall|i: int|
                0 <= i < parts.len() ==> framed(
                    #[trigger] parts[i],
                    paragraph_xml(entry_heading(variant), entries[i].title),
                    concat_all(entries[i].bullets.map_values(|b: Seq<char>| bullet_paragraph(b))),
                ),
{
    let parts = entries.map_values(|e: EntryView| entry_xml(e, entry_heading(variant)));
    assert forall|i: int| 0 <= i < parts.len() implies framed(
        #[trigger] parts[i],
        paragraph_xml(entry_heading(variant), entries[i].title),
        concat_all(entries[i].bullets.map_values(|b: Seq<char>| bullet_paragraph(b))),
    ) by {
        let e = entries[i];
        lemma_bullet_lines(e.bullets);
        let head = paragraph_xml(entry_heading(variant), e.title);
        let mid = styled_lines("Meta"@, e.meta) + match e.summary {
            Some(s) => paragraph_xml("Body"@, s),
            None => Seq::empty(),
        };
        let tail = bullet_lines(e.bullets);
        assert(parts[i] =~= head + mid + tail);
        assert((head + mid + tail).take(head.len() as int) =~= head);
        assert((head + mid + tail).skip((head + mid + tail).len() - tail.len()) =~= tail);
    }
}

} // verus!
