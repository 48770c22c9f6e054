//! The document model: the shapes a CV section can take.
//!
//! Deliberately format-independent: the PDF and DOCX backends both consume
//! this, so a change to what a section *is* happens in one place. A section
//! renders exactly one block.
use vstd::prelude::*;
use crate::text::views;

verus! {

/// `Lead` is the larger, justified profile treatment; `Body` is running text.
#[derive(Clone, Copy, PartialEq, Eq, Debug, Structural)]
pub enum ProseVariant {
    Lead,
    Body,
}

/// `Ruled` draws the left rule used by Experience; `Plain` is the Education
/// treatment.
#[derive(Clone, Copy, PartialEq, Eq, Debug, Structural)]
pub enum EntryVariant {
    Ruled,
    Plain,
}

#[derive(Clone, PartialEq, Eq, Debug, Default)]
pub struct Entry {
    pub title: String,
    /// Rendered one per line under the title.
    pub meta: Vec<String>,
    pub summary: Option<String>,
    pub bullets: Vec<String>,
}

#[derive(Clone, PartialEq, Eq, Debug)]
pub struct LabelValueRow {
    pub label: String,
    pub value: String,
}

#[derive(Clone, PartialEq, Eq, Debug)]
#[allow(inconsistent_fields)]
pub enum Block {
    /// Paragraphs of running text.
    Prose { paragraphs: Vec<String>, variant: ProseVariant },
    /// Items joined onto one or more balanced lines, e.g. "A · B · C".
    InlineList { items: Vec<String>, separator: String, rows: usize },
    /// A flat list of bulleted lines.
    BulletList { items: Vec<String>, trailing_spacer: bool },
    /// Repeated title/meta/summary/bullets records.
    EntryList {
        entries: Vec<Entry>,
        variant: EntryVariant,
        /// Whether an entry may split across a page boundary.
        wrap: bool,
    },
    /// Two-column label/value rows, e.g. the skills list.
    LabelValue { rows: Vec<LabelValueRow> },
}

/// A heading plus its block. `margin_top` carries the per-section nudges, in
/// whole points.
#[derive(Clone, PartialEq, Eq, Debug)]
pub struct Section {
    pub title: String,
    pub margin_top: u32,
    pub block: Block,
}

/// The abstract value of an [`Entry`].
pub struct EntryView {
    pub title: Seq<char>,
    pub meta: Seq<Seq<char>>,
    pub summary: Option<Seq<char>>,
    pub bullets: Seq<Seq<char>>,
}

/// The abstract value of a [`Block`].
#[allow(inconsistent_fields)]
pub enum BlockView {
    Prose { paragraphs: Seq<Seq<char>>, variant: ProseVariant },
    InlineList { items: Seq<Seq<char>>, separator: Seq<char>, rows: nat },
    BulletList { items: Seq<Seq<char>>, trailing_spacer: bool },
    EntryList { entries: Seq<EntryView>, variant: EntryVariant, wrap: bool },
    LabelValue { rows: Seq<(Seq<char>, Seq<char>)> },
}

/// The abstract value of a [`Section`].
pub struct SectionView {
    pub title: Seq<char>,
    pub margin_top: nat,
    pub block: BlockView,
}

pub open spec fn opt_view(o: Option<String>) -> Option<Seq<char>> {
    match o {
        Some(s) => Some(s@),
        None => None,
    }
}

impl View for Entry {
    type V = EntryView;

    open spec fn view(&self) -> EntryView {
        EntryView {
            title: self.title@,
            meta: views(self.meta@),
            summary: opt_view(self.summary),
            bullets: views(self.bullets@),
        }
    }
}

impl View for LabelValueRow {
    type V = (Seq<char>, Seq<char>);

    open spec fn view(&self) -> (Seq<char>, Seq<char>) {
        (self.label@, self.value@)
    }
}

pub open spec fn entry_views(v: Seq<Entry>) -> Seq<EntryView> {
    v.map_values(|e: Entry| e@)
}

pub open spec fn row_views(v: Seq<LabelValueRow>) -> Seq<(Seq<char>, Seq<char>)> {
    v.map_values(|r: LabelValueRow| r@)
}

impl View for Block {
    type V = BlockView;

    open spec fn view(&self) -> BlockView {
        match self {
            Block::Prose { paragraphs, variant } => BlockView::Prose {
                paragraphs: views(paragraphs@),
                variant: *variant,
            },
            Block::InlineList { items, separator, rows } => BlockView::InlineList {
                items: views(items@),
                separator: separator@,
                rows: *rows as nat,
            },
            Block::BulletList { items, trailing_spacer } => BlockView::BulletList {
                items: views(items@),
                trailing_spacer: *trailing_spacer,
            },
            Block::EntryList { entries, variant, wrap } => BlockView::EntryList {
                entries: entry_views(entries@),
                variant: *variant,
                wrap: *wrap,
            },
            Block::LabelValue { rows } => BlockView::LabelValue { rows: row_views(rows@) },
        }
    }
}

impl View for Section {
    type V = SectionView;

    open spec fn view(&self) -> SectionView {
        SectionView { title: self.title@, margin_top: self.margin_top as nat, block: self.block@ }
    }
}

pub open spec fn section_views(v: Seq<Section>) -> Seq<SectionView> {
    v.map_values(|s: Section| s@)
}

impl Section {
    /// A section with no top margin.
    pub fn new(title: String, block: Block) -> (s: Section)
        ensures
            s.title == title,
            s.margin_top == 0,
            s.block == block,
    {
        Section { title, margin_top: 0, block }
    }

    /// The same section with `margin_top` points above it.
    pub fn with_margin_top(self, margin_top: u32) -> (s: Section)
        ensures
            s.title == self.title,
            s.margin_top == margin_top,
            s.block == self.block,
    {
        Section { margin_top, ..self }
    }
}

} // verus!
