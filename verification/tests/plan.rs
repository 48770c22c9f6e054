use cv_rs::document::{Block, Entry, EntryVariant, LabelValueRow, ProseVariant, Section};
use cv_rs::layout::{finish_row, place_piece};
use cv_rs::plan::{plan_section, Column, Gap, Op, Role, Tag};
use cv_rs::text::trim_start;

fn s(text: &str) -> String {
    text.to_string()
}

fn text(t: &str, role: Role, column: Column) -> Op {
    Op::Text { text: s(t), role, column, paragraph_gap: false }
}

fn heading(title: &str) -> Vec<Op> {
    vec![
        Op::Margin(0),
        Op::KeepHeading,
        Op::Open(Tag::Sect),
        Op::Open(Tag::H2),
        text(title, Role::SectionTitle, Column::Full),
        Op::Close,
    ]
}

fn closing() -> Vec<Op> {
    vec![Op::Close, Op::Space(Gap::Section)]
}

fn depth_never_negative_and_ends_at_zero(ops: &[Op]) -> bool {
    let mut depth: i64 = 0;
    for op in ops {
        match op {
            Op::Open(_) => depth += 1,
            Op::Close => depth -= 1,
            _ => {}
        }
        if depth < 0 {
            return false;
        }
    }
    depth == 0
}

#[test]
fn prose_paragraphs_take_the_gap_between_them_only() {
    let section = Section::new(
        s("Profile"),
        Block::Prose { paragraphs: vec![s("One."), s("Two.")], variant: ProseVariant::Lead },
    );
    let mut expected = heading("PROFILE");
    expected.extend(vec![
        Op::Open(Tag::P),
        Op::Text { text: s("One."), role: Role::ProseLead, column: Column::Full, paragraph_gap: true },
        Op::Close,
        Op::Open(Tag::P),
        Op::Text { text: s("Two."), role: Role::ProseLead, column: Column::Full, paragraph_gap: false },
        Op::Close,
    ]);
    expected.extend(closing());
    assert_eq!(plan_section(&section), expected);
}

#[test]
fn a_section_margin_comes_first() {
    let section = Section::new(
        s("Profile"),
        Block::Prose { paragraphs: vec![s("Body.")], variant: ProseVariant::Body },
    )
    .with_margin_top(6);
    let ops = plan_section(&section);
    assert_eq!(ops[0], Op::Margin(6));
    assert_eq!(
        ops[7],
        Op::Text { text: s("Body."), role: Role::ProseBody, column: Column::Full, paragraph_gap: false }
    );
}

#[test]
fn inline_list_rows_are_joined_and_spaced() {
    let items: Vec<String> = ["A", "B", "C"].iter().map(|x| s(x)).collect();
    let section = Section::new(
        s("Skills"),
        Block::InlineList { items, separator: s(" · "), rows: 2 },
    );
    let mut expected = heading("SKILLS");
    expected.extend(vec![
        Op::Open(Tag::P),
        text("A · B", Role::InlineList, Column::Full),
        Op::Close,
        Op::Space(Gap::InlineList),
        Op::Open(Tag::P),
        text("C", Role::InlineList, Column::Full),
        Op::Close,
    ]);
    expected.extend(closing());
    assert_eq!(plan_section(&section), expected);
}

#[test]
fn an_empty_inline_row_draws_nothing() {
    let section = Section::new(
        s("Skills"),
        Block::InlineList { items: vec![s("")], separator: s(" · "), rows: 1 },
    );
    let mut expected = heading("SKILLS");
    expected.extend(closing());
    assert_eq!(plan_section(&section), expected);
}

#[test]
fn bullet_lists_nest_items_and_take_the_trailing_spacer() {
    let section = Section::new(
        s("Key Achievements"),
        Block::BulletList { items: vec![s("Won")], trailing_spacer: true },
    );
    let mut expected = heading("KEY ACHIEVEMENTS");
    expected.extend(vec![
        Op::Open(Tag::L),
        Op::Open(Tag::LI),
        Op::Open(Tag::LBody),
        text("\u{2022} Won", Role::Bullet, Column::Full),
        Op::Close,
        Op::Close,
        Op::Close,
        Op::Space(Gap::Achievement),
    ]);
    expected.extend(closing());
    assert_eq!(plan_section(&section), expected);
}

#[test]
fn ruled_entries_are_kept_whole_and_ruled() {
    let entry = Entry {
        title: s("Engineer"),
        meta: vec![s("Acme"), s("Berlin")],
        summary: Some(s("Built things.")),
        bullets: vec![s("Shipped")],
    };
    let section = Section::new(
        s("Experience"),
        Block::EntryList { entries: vec![entry], variant: EntryVariant::Ruled, wrap: false },
    );
    let mut expected = heading("EXPERIENCE");
    expected.extend(vec![
        Op::Open(Tag::Sect),
        Op::KeepWhole,
        Op::RuleStart,
        Op::Open(Tag::H3),
        text("Engineer", Role::EntryTitle, Column::Indented),
        Op::Close,
        Op::Open(Tag::P),
        text("Acme", Role::EntryMeta, Column::Indented),
        Op::Close,
        Op::Open(Tag::P),
        text("Berlin", Role::EntryMetaMuted, Column::Indented),
        Op::Close,
        Op::Open(Tag::P),
        text("Built things.", Role::EntrySummary, Column::Indented),
        Op::Close,
        Op::Open(Tag::L),
        Op::Open(Tag::LI),
        Op::Open(Tag::LBody),
        text("\u{2022} Shipped", Role::Bullet, Column::Indented),
        Op::Close,
        Op::Close,
        Op::Close,
        Op::RuleEnd,
        Op::Space(Gap::RuledEntry),
        Op::Close,
    ]);
    expected.extend(closing());
    assert_eq!(plan_section(&section), expected);
}

#[test]
fn plain_wrapping_entries_have_no_rule_and_no_keep() {
    let entry = Entry { title: s("BSc"), meta: vec![s("Uni")], summary: None, bullets: vec![] };
    let section = Section::new(
        s("Education"),
        Block::EntryList { entries: vec![entry], variant: EntryVariant::Plain, wrap: true },
    );
    let mut expected = heading("EDUCATION");
    expected.extend(vec![
        Op::Open(Tag::Sect),
        Op::Open(Tag::H3),
        text("BSc", Role::EntryTitleSmall, Column::Full),
        Op::Close,
        Op::Open(Tag::P),
        text("Uni", Role::EntryDetail, Column::Full),
        Op::Close,
        Op::Space(Gap::PlainEntry),
        Op::Close,
    ]);
    expected.extend(closing());
    assert_eq!(plan_section(&section), expected);
}

#[test]
fn label_value_rows_share_a_top_and_are_spaced() {
    let rows = vec![
        LabelValueRow { label: s("Languages"), value: s("Rust") },
        LabelValueRow { label: s("Tools"), value: s("Git") },
    ];
    let section = Section::new(s("Technical Skills"), Block::LabelValue { rows });
    let row = |label: &str, value: &str| {
        vec![
            Op::KeepRow(s(value)),
            Op::MarkTop,
            Op::Open(Tag::LI),
            Op::Open(Tag::Lbl),
            text(label, Role::LabelValueLabel, Column::Label),
            Op::Close,
            Op::ReturnToTop,
            Op::Open(Tag::LBody),
            text(value, Role::LabelValueValue, Column::Value),
            Op::Close,
            Op::Close,
            Op::Space(Gap::LabelValueRow),
        ]
    };
    let mut expected = heading("TECHNICAL SKILLS");
    expected.push(Op::Open(Tag::L));
    expected.extend(row("Languages:", "Rust"));
    expected.push(Op::Space(Gap::LabelValueSpacer));
    expected.extend(row("Tools:", "Git"));
    expected.push(Op::Close);
    expected.extend(closing());
    assert_eq!(plan_section(&section), expected);
}

#[test]
fn every_plan_closes_what_it_opens() {
    let sections = vec![
        Section::new(s("A"), Block::LabelValue { rows: vec![] }),
        Section::new(s("B"), Block::BulletList { items: vec![], trailing_spacer: false }),
        Section::new(
            s("C"),
            Block::EntryList {
                entries: vec![Entry::default(), Entry::default()],
                variant: EntryVariant::Ruled,
                wrap: false,
            },
        ),
    ];
    for section in &sections {
        assert!(depth_never_negative_and_ends_at_zero(&plan_section(section)));
    }
}

#[test]
fn contact_pieces_fill_lines_until_one_does_not_fit() {
    let mut lines: Vec<String> = Vec::new();
    let mut current = String::new();
    place_piece(&mut lines, &mut current, "London", false);
    assert_eq!(current, "London", "an empty line takes the piece even if it overflows");
    place_piece(&mut lines, &mut current, "  \u{2022}  Email: a@b.c", true);
    assert_eq!(current, "London  \u{2022}  Email: a@b.c");
    place_piece(&mut lines, &mut current, "  \u{2022}  GitHub: github.com/x", false);
    assert_eq!(lines, vec![s("London  \u{2022}  Email: a@b.c")]);
    assert_eq!(current, "\u{2022}  GitHub: github.com/x", "a wrapped line loses the leading space");
    finish_row(&mut lines, current);
    assert_eq!(lines.len(), 2);
    finish_row(&mut lines, String::new());
    assert_eq!(lines.len(), 2, "an empty line is dropped");
}

#[test]
fn trim_start_keeps_trailing_space() {
    assert_eq!(trim_start("  a b  "), "a b  ");
    assert_eq!(trim_start("   "), "");
    assert_eq!(trim_start(""), "");
}

fn expected_element(role: Role) -> Tag {
    match role {
        Role::SectionTitle => Tag::H2,
        Role::EntryTitle | Role::EntryTitleSmall => Tag::H3,
        Role::Bullet | Role::LabelValueValue => Tag::LBody,
        Role::LabelValueLabel => Tag::Lbl,
        _ => Tag::P,
    }
}

#[test]
fn every_paragraph_sits_in_its_element() {
    let entry = Entry {
        title: s("Engineer"),
        meta: vec![s("Acme")],
        summary: Some(s("Built.")),
        bullets: vec![s("Shipped")],
    };
    let sections = vec![
        Section::new(s("Profile"), Block::Prose { paragraphs: vec![s("a"), s("b")], variant: ProseVariant::Lead }),
        Section::new(s("Skills"), Block::InlineList { items: vec![s("x"), s("y")], separator: s(", "), rows: 2 }),
        Section::new(s("Experience"), Block::EntryList { entries: vec![entry], variant: EntryVariant::Ruled, wrap: false }),
        Section::new(
            s("Technical Skills"),
            Block::LabelValue { rows: vec![LabelValueRow { label: s("Tools"), value: s("Git") }] },
        ),
    ];
    for section in &sections {
        let mut open: Vec<Tag> = vec![];
        for op in plan_section(section) {
            match op {
                Op::Open(tag) => open.push(tag),
                Op::Close => {
                    open.pop();
                }
                Op::Text { role, .. } => assert_eq!(open.last(), Some(&expected_element(role))),
                _ => {}
            }
        }
        assert!(open.is_empty());
    }
}

#[test]
fn the_document_is_titled_after_the_person() {
    assert_eq!(cv_rs::plan::document_title("Ada Lovelace"), "Ada Lovelace's CV");
}

#[test]
fn both_backends_title_a_section_alike() {
    let section = Section::new(
        s("Technical Skills"),
        Block::BulletList { items: vec![s("x")], trailing_spacer: false },
    );
    assert_eq!(plan_section(&section)[4], text("TECHNICAL SKILLS", Role::SectionTitle, Column::Full));
    let heading = cv_rs::docx::paragraph("Heading1", "TECHNICAL SKILLS");
    assert!(cv_rs::docx::render_section(&section).starts_with(&heading));
}
