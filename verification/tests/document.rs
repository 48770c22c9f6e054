use cv_rs::document::{Block, EntryVariant, ProseVariant, Section};
use cv_rs::schema::{
    CVEarlyCareer, CVEducation, CVExperience, CVLanguage, CVLinks, CVPerson, CVProject, CVSchema,
    CVTechnicalSkills,
};
use cv_rs::sections::{
    build_sections, contact_items, education_entry, experience_entry, format_date, format_github,
    format_linkedin, format_portfolio, normalize_link, paragraphs, skill_rows,
};

fn person() -> CVPerson {
    CVPerson {
        name: "Ada Lovelace".into(),
        location: "London, UK".into(),
        email: "ada@example.com".into(),
        phone: Some("+44 20 7946 0000".into()),
    }
}

#[test]
fn normalises_link_schemes() {
    assert_eq!(normalize_link("https://github.com/x"), "github.com/x");
    assert_eq!(normalize_link("http://www.example.com"), "example.com");
    assert_eq!(normalize_link("www.example.com"), "example.com");
}

#[test]
fn formats_links_without_doubling_the_host() {
    assert_eq!(format_github("https://github.com/x"), "GitHub: github.com/x");
    assert_eq!(format_github("x"), "GitHub: github.com/x");
    assert_eq!(
        format_linkedin("www.linkedin.com/in/x"),
        "LinkedIn: linkedin.com/in/x"
    );
    assert_eq!(format_linkedin("in/x"), "LinkedIn: linkedin.com/x");
    assert_eq!(format_portfolio("https://x.dev"), "Portfolio: x.dev");
}

#[test]
fn drops_empty_contact_fields() {
    let links = CVLinks {
        github: "https://github.com/x".into(),
        linkedin: String::new(),
        portfolio: "   ".into(),
    };
    let items = contact_items(&person(), &links);
    assert_eq!(
        items,
        vec![
            "London, UK",
            "Email: ada@example.com",
            "Phone: +44 20 7946 0000",
            "GitHub: github.com/x",
        ]
    );
}

#[test]
fn omits_the_phone_line_when_there_is_no_phone() {
    let mut without = person();
    without.phone = None;
    let items = contact_items(&without, &CVLinks::default());
    assert!(
        !items.iter().any(|item| item.starts_with("Phone")),
        "a public CV must not render an empty phone line: {items:?}"
    );
}

#[test]
fn splits_paragraphs_on_blank_lines() {
    assert_eq!(paragraphs("one\n\ntwo\n\n\nthree"), vec!["one", "two", "three"]);
    assert_eq!(paragraphs("wrapped\nacross lines"), vec!["wrapped across lines"]);
    assert!(paragraphs("   \n\n  ").is_empty());
}

#[test]
fn shortens_year_month_dates_only() {
    assert_eq!(format_date("2026-04"), "2026");
    assert_eq!(format_date("Present"), "Present");
    assert_eq!(format_date("2019"), "2019");
    assert_eq!(format_date("2019-1"), "2019-1");
    assert_eq!(format_date("abcd-ef"), "abcd-ef");
}

#[test]
fn utils_shortens_year_month_dates_only() {
    assert_eq!(format_date("2026-04"), "2026");
    assert_eq!(format_date("Present"), "Present");
    assert_eq!(format_date("2019"), "2019");
    assert_eq!(format_date("2019-1"), "2019-1");
    assert_eq!(format_date("abcd-ef"), "abcd-ef");
}

#[test]
fn utils_drops_skill_categories_with_no_entries() {
    let skills = CVTechnicalSkills {
        languages: vec!["Rust".into()],
        blockchain_skills: vec![],
        ..CVTechnicalSkills::default()
    };
    let rows = skill_rows(&skills);
    assert_eq!(rows.len(), 1);
    assert_eq!(rows[0].label, "Languages");
}

#[test]
fn utils_an_empty_schema_produces_no_sections() {
    assert!(build_sections(&CVSchema::default()).is_empty());
}

#[test]
fn utils_sections_appear_in_reference_order() {
    let schema = CVSchema {
        profile: "A profile.".into(),
        core_competencies: vec!["One".into()],
        languages: vec![CVLanguage {
            name: "English".into(),
            proficiency: "Native".into(),
        }],
        ..CVSchema::default()
    };
    let sections = build_sections(&schema);
    let titles: Vec<&str> = sections.iter().map(|s| s.title.as_str()).collect();
    assert_eq!(titles, vec!["Profile", "Core Competencies", "Languages"]);
}

#[test]
fn utils_experience_meta_uses_reference_separators_and_short_dates() {
    let job = CVExperience {
        company: "Acme".into(),
        role: "Engineer".into(),
        location: "Berlin".into(),
        start_date: "2020-01".into(),
        end_date: "Present".into(),
        ..CVExperience::default()
    };
    let entry = experience_entry(&job);
    assert_eq!(entry.title, "Engineer");
    assert_eq!(
        entry.meta[0],
        "Acme \u{2014} Berlin \u{00b7} 2020\u{2013}Present"
    );
    assert!(entry.summary.is_none(), "an empty summary is omitted");
}

fn lovelace_education() -> CVEducation {
    CVEducation {
        institution: "Example University".into(),
        degree: "BSc".into(),
        field: "Mathematics".into(),
        location: "London".into(),
        start_date: "1830".into(),
        end_date: "1833".into(),
        honors: vec!["Distinction".into()],
    }
}

#[test]
fn education_carries_honors_as_bullets() {
    let entry = education_entry(&lovelace_education());
    assert_eq!(entry.meta.len(), 2);
    assert_eq!(entry.bullets, vec!["Distinction"]);
}

#[test]
fn utils_education_carries_honors_as_bullets() {
    let entry = education_entry(&lovelace_education());
    assert_eq!(entry.meta.len(), 2);
    assert_eq!(entry.bullets, vec!["Distinction"]);
}

#[test]
fn education_meta_lines_use_dash_and_middot() {
    let entry = education_entry(&lovelace_education());
    assert_eq!(entry.title, "Example University");
    assert_eq!(entry.meta[0], "BSc \u{2014} Mathematics");
    assert_eq!(entry.meta[1], "London \u{b7} 1830\u{2013}1833");
    assert!(entry.summary.is_none());
}

#[test]
fn normalising_strips_repeated_schemes_and_surrounding_space() {
    assert_eq!(normalize_link("  https://https://www.x.dev  "), "x.dev");
    assert_eq!(normalize_link("www.www.x"), "x");
    assert_eq!(normalize_link(""), "");
}

#[test]
fn a_bare_linkedin_handle_gets_the_host() {
    assert_eq!(format_linkedin("in/in/x"), "LinkedIn: linkedin.com/x");
    assert_eq!(format_linkedin("https://linkedin.com/in/x"), "LinkedIn: linkedin.com/in/x");
}

#[test]
fn contact_items_keep_reference_order_and_drop_blank_location() {
    let p = CVPerson {
        name: "Ada".into(),
        location: "  ".into(),
        email: "a@b.c".into(),
        phone: Some(" ".into()),
    };
    let links = CVLinks {
        github: "g".into(),
        linkedin: "l".into(),
        portfolio: "http://p.io".into(),
    };
    assert_eq!(
        contact_items(&p, &links),
        vec![
            "Email: a@b.c",
            "GitHub: github.com/g",
            "LinkedIn: linkedin.com/l",
            "Portfolio: p.io",
        ]
    );
}

#[test]
fn paragraphs_trim_lines_and_ignore_carriage_returns() {
    assert_eq!(paragraphs("  a  \r\n b\r\n\r\n c "), vec!["a b", "c"]);
    assert!(paragraphs("").is_empty());
}

#[test]
fn dates_need_digits_in_every_place() {
    assert_eq!(format_date("20x6-04"), "20x6-04");
    assert_eq!(format_date("2026/04"), "2026/04");
    assert_eq!(format_date("2026-0a"), "2026-0a");
    assert_eq!(format_date("1999-12"), "1999");
}

#[test]
fn skill_values_are_joined_with_commas() {
    let skills = CVTechnicalSkills {
        frameworks: vec!["Axum".into(), "Tokio".into()],
        tools: vec!["".into()],
        ..CVTechnicalSkills::default()
    };
    let rows = skill_rows(&skills);
    assert_eq!(rows.len(), 1);
    assert_eq!(rows[0].label, "Frameworks");
    assert_eq!(rows[0].value, "Axum, Tokio");
}

#[test]
fn every_section_is_built_in_order_with_its_block() {
    let schema = CVSchema {
        person: person(),
        links: CVLinks::default(),
        profile: "First.\n\nSecond.".into(),
        core_competencies: vec!["A".into(), "B".into(), "C".into()],
        technical_focus_areas: vec!["F".into()],
        key_achievements: vec!["K".into()],
        tech_leadership: vec!["T".into()],
        selected_projects: vec![CVProject {
            name: "P".into(),
            description: "D".into(),
            date_range: "2020".into(),
        }],
        early_career: Some(CVEarlyCareer {
            date_range: "1999".into(),
            summary: "S".into(),
        }),
        experience: vec![CVExperience {
            company: "Acme".into(),
            role: "Dev".into(),
            summary: "Built things".into(),
            highlights: vec!["H".into()],
            ..CVExperience::default()
        }],
        technical_skills: CVTechnicalSkills {
            languages: vec!["Rust".into()],
            ..CVTechnicalSkills::default()
        },
        languages: vec![
            CVLanguage {
                name: "English".into(),
                proficiency: "Native".into(),
            },
            CVLanguage {
                name: "French".into(),
                proficiency: "Basic".into(),
            },
        ],
        education: vec![lovelace_education()],
    };
    let sections = build_sections(&schema);
    let titles: Vec<&str> = sections.iter().map(|s| s.title.as_str()).collect();
    assert_eq!(
        titles,
        vec![
            "Profile",
            "Core Competencies",
            "Specialization Focus",
            "Key Achievements",
            "Tech Leadership",
            "Selected Projects",
            "Experience",
            "Early Career",
            "Technical Skills",
            "Languages",
            "Education",
        ]
    );
    assert_eq!(
        sections[0].block,
        Block::Prose {
            paragraphs: vec!["First.".into(), "Second.".into()],
            variant: ProseVariant::Lead
        }
    );
    assert_eq!(
        sections[1].block,
        Block::InlineList {
            items: vec!["A".into(), "B".into(), "C".into()],
            separator: " \u{b7} ".into(),
            rows: 2
        }
    );
    assert_eq!(sections[4].margin_top, 4);
    assert_eq!(
        sections[5].block,
        Block::BulletList {
            items: vec!["P \u{2014} D \u{b7} 2020".into()],
            trailing_spacer: false
        }
    );
    match &sections[6].block {
        Block::EntryList { entries, variant, wrap } => {
            assert_eq!(*variant, EntryVariant::Ruled);
            assert!(*wrap);
            assert_eq!(entries[0].summary.as_deref(), Some("Built things"));
        }
        other => panic!("unexpected block {other:?}"),
    }
    assert_eq!(
        sections[7].block,
        Block::Prose {
            paragraphs: vec!["1999 \u{b7} S".into()],
            variant: ProseVariant::Body
        }
    );
    assert_eq!(sections[8].margin_top, 8);
    assert_eq!(
        sections[9].block,
        Block::Prose {
            paragraphs: vec!["English (Native), French (Basic)".into()],
            variant: ProseVariant::Body
        }
    );
    match &sections[10].block {
        Block::EntryList { variant, wrap, .. } => {
            assert_eq!(*variant, EntryVariant::Plain);
            assert!(!*wrap);
        }
        other => panic!("unexpected block {other:?}"),
    }
}

#[test]
fn sections_start_with_no_margin_unless_set() {
    let s = Section::new(
        "X".into(),
        Block::LabelValue { rows: vec![] },
    );
    assert_eq!(s.margin_top, 0);
    assert_eq!(s.with_margin_top(6).margin_top, 6);
}

#[test]
fn a_blank_early_career_removes_its_section() {
    let schema = CVSchema { early_career: Some(CVEarlyCareer::default()), ..CVSchema::default() };
    assert!(build_sections(&schema).is_empty());
    let spaced = CVSchema {
        early_career: Some(CVEarlyCareer { date_range: "  ".into(), summary: "\n".into() }),
        ..CVSchema::default()
    };
    assert!(build_sections(&spaced).is_empty());
    let dated = CVSchema {
        early_career: Some(CVEarlyCareer { date_range: "2010".into(), summary: String::new() }),
        ..CVSchema::default()
    };
    assert_eq!(build_sections(&dated).len(), 1);
}

#[test]
fn paragraphs_split_again_give_themselves_back() {
    for text in ["one\n\ntwo\n\n\nthree", "  wrapped\nacross lines \r\n\n\tnext ", "", "   \n\n  ", "single"] {
        let ps = paragraphs(text);
        assert_eq!(paragraphs(&ps.join("\n\n")), ps);
    }
}
