use cv_rs::docx::{build_body, docx_parts, escape, paragraph, render, render_section, style, styles};
use cv_rs::document::{Block, Section};
use cv_rs::package::{
    fill_package, fixed_stamp, io_outcome, write_package, zip_outcome, PackageError, Stamp,
};
use cv_rs::schema::{CVEducation, CVLinks, CVPerson, CVSchema};

fn example() -> CVSchema {
    CVSchema {
        person: CVPerson {
            name: "Ada Lovelace".into(),
            location: "London, UK".into(),
            email: "ada@example.com".into(),
            phone: Some("+44 20 7946 0000".into()),
        },
        links: CVLinks {
            github: "https://github.com/ada".into(),
            linkedin: "in/ada".into(),
            portfolio: "https://ada.dev".into(),
        },
        profile: "Mathematician and writer.\n\nFirst to publish an algorithm for a machine.".into(),
        core_competencies: vec!["Analysis".into(), "Notes".into(), "Bernoulli numbers".into()],
        key_achievements: vec!["Wrote Note G".into()],
        education: vec![CVEducation {
            institution: "Example University".into(),
            degree: "BSc".into(),
            field: "Mathematics".into(),
            location: "London".into(),
            start_date: "1830".into(),
            end_date: "1833".into(),
            honors: vec!["Distinction".into()],
        }],
        ..CVSchema::default()
    }
}

#[test]
fn produces_a_zip_container() {
    let bytes = render(&example()).ok().expect("render should succeed");
    assert_eq!(&bytes[..2], b"PK", "a .docx is a zip archive");
    assert!(bytes.len() > 1_000);
}

#[test]
fn body_carries_headings_and_content() {
    let body = build_body(&example());
    assert!(body.contains("Ada Lovelace"));
    assert!(body.contains(r#"<w:pStyle w:val="Heading1"/>"#));
    assert!(body.contains("PROFILE"));
    assert!(body.contains("EDUCATION"));
}

#[test]
fn escapes_xml_metacharacters() {
    let mut schema = example();
    schema.person.name = "A & B <script>".into();
    let body = build_body(&schema);
    assert!(body.contains("A &amp; B &lt;script&gt;"));
    assert!(!body.contains("<script>"));
}

#[test]
fn an_empty_schema_still_produces_a_valid_document() {
    let bytes = render(&CVSchema::default()).ok().expect("render should succeed");
    assert_eq!(&bytes[..2], b"PK");
}

#[test]
fn escape_replaces_all_five_metacharacters() {
    assert_eq!(escape(r#"<a href="x">'&'</a>"#), "&lt;a href=&quot;x&quot;&gt;&apos;&amp;&apos;&lt;/a&gt;");
    assert_eq!(escape("plain \u{2022} text"), "plain \u{2022} text");
}

#[test]
fn a_blank_paragraph_is_left_out() {
    assert_eq!(paragraph("Body", "  "), "");
    assert_eq!(
        paragraph("Body", "x<y"),
        r#"<w:p><w:pPr><w:pStyle w:val="Body"/></w:pPr><w:r><w:t xml:space="preserve">x&lt;y</w:t></w:r></w:p>"#
    );
}

#[test]
fn a_style_carries_size_boldness_and_outline_level() {
    assert_eq!(
        style("Heading1", "heading 1", 26, true, Some(0)),
        "<w:style w:type=\"paragraph\" w:styleId=\"Heading1\"><w:name w:val=\"heading 1\"/><w:pPr><w:spacing w:before=\"60\" w:after=\"60\"/><w:outlineLvl w:val=\"0\"/></w:pPr><w:rPr><w:rFonts w:ascii=\"Helvetica\" w:hAnsi=\"Helvetica\"/><w:sz w:val=\"26\"/><w:b/></w:rPr></w:style>"
    );
    assert!(style("Body", "Body Text", 20, false, None).contains("<w:sz w:val=\"20\"/></w:rPr>"));
    let sheet = styles();
    assert!(sheet.starts_with("<?xml"));
    assert!(sheet.ends_with("</w:styles>"));
    assert_eq!(sheet.matches("<w:style ").count(), 9);
}

#[test]
fn a_section_heading_is_uppercased_and_rows_become_lines() {
    let section = Section::new(
        "Technical Skills".into(),
        Block::LabelValue {
            rows: vec![cv_rs::document::LabelValueRow {
                label: "Languages".into(),
                value: "Rust".into(),
            }],
        },
    );
    let xml = render_section(&section);
    assert!(xml.contains(">TECHNICAL SKILLS<"));
    assert!(xml.contains(">Languages: Rust<"));
}

#[test]
fn bullets_and_inline_lists_render_as_paragraphs() {
    let body = build_body(&example());
    assert!(body.contains(">\u{2022} Wrote Note G<"));
    assert!(body.contains(">Analysis \u{b7} Notes \u{b7} Bernoulli numbers<"));
    assert!(body.contains("London, UK | Email: ada@example.com"));
    assert!(body.contains("Heading3"));
}

#[test]
fn the_package_holds_five_parts_in_order() {
    let parts = docx_parts(&example());
    let names: Vec<&str> = parts.iter().map(|p| p.0.as_str()).collect();
    assert_eq!(
        names,
        vec![
            "[Content_Types].xml",
            "_rels/.rels",
            "word/_rels/document.xml.rels",
            "word/styles.xml",
            "word/document.xml",
        ]
    );
    assert_eq!(parts[4].1, build_body(&example()));
    assert_eq!(parts[3].1, styles());
}

#[test]
fn the_archive_opens_with_a_local_file_header() {
    let bytes = render(&CVSchema::default()).ok().expect("render should succeed");
    assert_eq!(&bytes[..4], b"PK\x03\x04");
}

#[test]
fn a_package_refuses_a_duplicate_part_name() {
    let parts = vec![("a.xml".to_string(), "x".to_string()), ("a.xml".to_string(), "y".to_string())];
    assert!(matches!(write_package(&parts), Err(PackageError::Zip(_))));
}

#[test]
fn a_package_of_one_part_is_a_zip_archive() {
    let parts = vec![("a.xml".to_string(), "<a/>".to_string())];
    let bytes = write_package(&parts).ok().expect("one part should be written");
    assert_eq!(&bytes[..4], b"PK\x03\x04");
}

#[test]
fn an_empty_package_is_always_filled() {
    assert!(fill_package(&vec![]).is_ok());
}

#[test]
fn writer_results_become_package_results() {
    assert!(matches!(zip_outcome(Ok::<u8, zip::result::ZipError>(7)), Ok(7)));
    assert!(matches!(
        zip_outcome::<u8>(Err(zip::result::ZipError::FileNotFound)),
        Err(PackageError::Zip(zip::result::ZipError::FileNotFound))
    ));
    assert!(matches!(io_outcome(Ok::<u8, std::io::Error>(7)), Ok(7)));
    assert!(matches!(io_outcome::<u8>(Err(std::io::Error::other("full"))), Err(PackageError::Io(_))));
}

#[test]
fn distinct_small_parts_are_always_packaged() {
    let parts = vec![
        ("a.xml".to_string(), "<a/>".to_string()),
        ("b.xml".to_string(), String::new()),
        ("c/d.xml".to_string(), "\u{2022} text".to_string()),
    ];
    assert!(fill_package(&parts).is_ok());
    let bytes = write_package(&parts).ok().expect("distinct parts are written");
    assert_eq!(&bytes[..4], b"PK\x03\x04");
    assert!(write_package(&vec![]).is_ok(), "an empty archive is written too");
}

#[test]
fn entries_carry_the_start_of_the_dos_calendar() {
    assert_eq!(fixed_stamp(), Stamp { year: 1980, month: 1, day: 1, hour: 0, minute: 0, second: 0 });
}

#[test]
fn an_xml_reader_gets_the_escaped_text_back() {
    let text = "a & b <c> \"d\" 'e' &amp;";
    let escaped = escape(text);
    let read = escaped
        .replace("&lt;", "<")
        .replace("&gt;", ">")
        .replace("&quot;", "\"")
        .replace("&apos;", "'")
        .replace("&amp;", "&");
    assert_eq!(read, text);
}
