//! What a section puts on a PDF page, in order, as a list of operations that
//! carry no geometry.
//!
//! Every decision of the PDF backend that needs no measuring lives here: which
//! text is drawn, in which style and column, inside which structure element,
//! where the page must keep things together, where a rule starts and ends and
//! which gap follows what. The renderer turns each operation into points.
use vstd::prelude::*;
use crate::document::{
    entry_views, row_views, Block, BlockView, Entry, EntryVariant, EntryView, LabelValueRow,
    ProseVariant, Section, SectionView,
};
use crate::layout::{chunk, chunk_spec, group_views};
use crate::text::{concat2, join, join_seq, to_uppercase, uppercase, views};

verus! {

/// The structure elements of the tagged PDF that sections use.
#[derive(Clone, Copy, PartialEq, Eq, Debug, Structural)]
pub enum Tag {
    Sect,
    H2,
    H3,
    P,
    L,
    LI,
    LBody,
    Lbl,
}

/// The text style a paragraph is set in.
#[derive(Clone, Copy, PartialEq, Eq, Debug, Structural)]
pub enum Role {
    SectionTitle,
    ProseLead,
    ProseBody,
    InlineList,
    Bullet,
    EntryTitle,
    EntryTitleSmall,
    EntryMeta,
    EntryDetail,
    EntryMetaMuted,
    EntrySummary,
    LabelValueLabel,
    LabelValueValue,
}

/// Where a paragraph sits across the page.
#[derive(Clone, Copy, PartialEq, Eq, Debug, Structural)]
pub enum Column {
    /// The whole content width.
    Full,
    /// Right of an entry's left rule.
    Indented,
    /// The label column of a label/value row.
    Label,
    /// The value column of a label/value row.
    Value,
}

/// The named vertical gaps.
#[derive(Clone, Copy, PartialEq, Eq, Debug, Structural)]
pub enum Gap {
    /// Between the rows of an inline list.
    InlineList,
    /// After a bullet list that asks for a trailing spacer.
    Achievement,
    /// Below a ruled entry.
    RuledEntry,
    /// Below a plain entry.
    PlainEntry,
    /// Below each label/value row.
    LabelValueRow,
    /// Between two label/value rows.
    LabelValueSpacer,
    /// Below a section.
    Section,
}

/// One drawing operation.
#[derive(Clone, PartialEq, Eq, Debug)]
pub enum Op {
    /// Open a structure element; what is drawn until the matching `Close`
    /// belongs to it.
    Open(Tag),
    /// Close the innermost open element.
    Close,
    /// Wrap `text` into its column and draw it line by line. With
    /// `paragraph_gap` the paragraph gap replaces the style's bottom margin.
    Text { text: String, role: Role, column: Column, paragraph_gap: bool },
    /// Move down by a named gap.
    Space(Gap),
    /// Move down by this many whole points.
    Margin(u32),
    /// Start a new page unless a section heading and the content that must
    /// follow it fit.
    KeepHeading,
    /// Start a new page unless every paragraph from here to the close of the
    /// enclosing element fits whole.
    KeepWhole,
    /// Start a new page unless a label/value row whose value is this text fits.
    KeepRow(String),
    /// Remember the current height on the page.
    MarkTop,
    /// Go back up to the remembered height.
    ReturnToTop,
    /// Start an entry's left rule here.
    RuleStart,
    /// End the open left rule here.
    RuleEnd,
}

/// The abstract value of an [`Op`].
pub enum OpView {
    Open(Tag),
    Close,
    Text { text: Seq<char>, role: Role, column: Column, paragraph_gap: bool },
    Space(Gap),
    Margin(nat),
    KeepHeading,
    KeepWhole,
    KeepRow(Seq<char>),
    MarkTop,
    ReturnToTop,
    RuleStart,
    RuleEnd,
}

impl View for Op {
    type V = OpView;

    open spec fn view(&self) -> OpView {
        match self {
            Op::Open(t) => OpView::Open(*t),
            Op::Close => OpView::Close,
            Op::Text { text, role, column, paragraph_gap } => OpView::Text {
                text: text@,
                role: *role,
                column: *column,
                paragraph_gap: *paragraph_gap,
            },
            Op::Space(g) => OpView::Space(*g),
            Op::Margin(m) => OpView::Margin(*m as nat),
            Op::KeepHeading => OpView::KeepHeading,
            Op::KeepWhole => OpView::KeepWhole,
            Op::KeepRow(v) => OpView::KeepRow(v@),
            Op::MarkTop => OpView::MarkTop,
            Op::ReturnToTop => OpView::ReturnToTop,
            Op::RuleStart => OpView::RuleStart,
            Op::RuleEnd => OpView::RuleEnd,
        }
    }
}

pub open spec fn op_views(v: Seq<Op>) -> Seq<OpView> {
    v.map_values(|o: Op| o@)
}

/// `inner` inside the element `tag`.
pub open spec fn tagged(tag: Tag, inner: Seq<OpView>) -> Seq<OpView> {
    seq![OpView::Open(tag)] + inner + seq![OpView::Close]
}

/// A paragraph with the style's own bottom margin.
pub open spec fn text_op(text: Seq<char>, role: Role, column: Column) -> OpView {
    OpView::Text { text, role, column, paragraph_gap: false }
}

// ---- prose ----

pub open spec fn prose_role(variant: ProseVariant) -> Role {
    match variant {
        ProseVariant::Lead => Role::ProseLead,
        ProseVariant::Body => Role::ProseBody,
    }
}

/// Paragraph `i`: every paragraph but the last is followed by the paragraph
/// gap.
pub open spec fn prose_item(ps: Seq<Seq<char>>, role: Role, i: int) -> Seq<OpView> {
    tagged(
        Tag::P,
        seq![OpView::Text { text: ps[i], role, column: Column::Full, paragraph_gap: i + 1 < ps.len() }],
    )
}

/// The first `k` paragraphs.
pub open spec fn prose_upto(ps: Seq<Seq<char>>, role: Role, k: nat) -> Seq<OpView>
    decreases k,
{
    if k == 0 {
        Seq::empty()
    } else {
        prose_upto(ps, role, (k - 1) as nat) + prose_item(ps, role, k - 1)
    }
}

// ---- inline lists ----

/// Row `i` of an inline list: its items joined by the separator, then the
/// inline-list gap unless it is the last row. An empty row draws nothing and
/// takes no gap.
pub open spec fn inline_item(groups: Seq<Seq<Seq<char>>>, separator: Seq<char>, i: int) -> Seq<OpView> {
    let line = join_seq(groups[i], separator);
    if line.len() == 0 {
        Seq::empty()
    } else {
        tagged(Tag::P, seq![text_op(line, Role::InlineList, Column::Full)]) + if i + 1 < groups.len() {
            seq![OpView::Space(Gap::InlineList)]
        } else {
            Seq::empty()
        }
    }
}

pub open spec fn inline_upto(groups: Seq<Seq<Seq<char>>>, separator: Seq<char>, k: nat) -> Seq<OpView>
    decreases k,
{
    if k == 0 {
        Seq::empty()
    } else {
        inline_upto(groups, separator, (k - 1) as nat) + inline_item(groups, separator, k - 1)
    }
}

/// An inline list balanced over `rows` rows.
pub open spec fn inline_list_ops(items: Seq<Seq<char>>, separator: Seq<char>, rows: nat) -> Seq<OpView> {
    let groups = chunk_spec(items, rows);
    inline_upto(groups, separator, groups.len())
}

// ---- bullets ----

/// Item `i` of a bulleted list, led by `• `.
pub open spec fn bullet_item(items: Seq<Seq<char>>, column: Column, i: int) -> Seq<OpView> {
    tagged(
        Tag::LI,
        tagged(Tag::LBody, seq![text_op("\u{2022} "@ + items[i], Role::Bullet, column)]),
    )
}

pub open spec fn bullet_upto(items: Seq<Seq<char>>, column: Column, k: nat) -> Seq<OpView>
    decreases k,
{
    if k == 0 {
        Seq::empty()
    } else {
        bullet_upto(items, column, (k - 1) as nat) + bullet_item(items, column, k - 1)
    }
}

/// A bulleted list: one list element holding one item per entry.
pub open spec fn bullet_ops(items: Seq<Seq<char>>, column: Column) -> Seq<OpView> {
    tagged(Tag::L, bullet_upto(items, column, items.len()))
}

} // verus!
verus! {

// ---- entries ----

/// Ruled entries sit right of their rule; plain ones use the whole width.
pub open spec fn entry_column(variant: EntryVariant) -> Column {
    match variant {
        EntryVariant::Ruled => Column::Indented,
        EntryVariant::Plain => Column::Full,
    }
}

pub open spec fn title_role(variant: EntryVariant) -> Role {
    match variant {
        EntryVariant::Ruled => Role::EntryTitle,
        EntryVariant::Plain => Role::EntryTitleSmall,
    }
}

/// The first meta line is the entry's meta (ruled) or detail (plain) line;
/// the others are muted.
pub open spec fn meta_role(variant: EntryVariant, i: int) -> Role {
    if i == 0 {
        match variant {
            EntryVariant::Ruled => Role::EntryMeta,
            EntryVariant::Plain => Role::EntryDetail,
        }
    } else {
        Role::EntryMetaMuted
    }
}

pub open spec fn meta_item(meta: Seq<Seq<char>>, variant: EntryVariant, i: int) -> Seq<OpView> {
    tagged(Tag::P, seq![text_op(meta[i], meta_role(variant, i), entry_column(variant))])
}

pub open spec fn meta_upto(meta: Seq<Seq<char>>, variant: EntryVariant, k: nat) -> Seq<OpView>
    decreases k,
{
    if k == 0 {
        Seq::empty()
    } else {
        meta_upto(meta, variant, (k - 1) as nat) + meta_item(meta, variant, k - 1)
    }
}

/// One entry's content: its title as a heading, each meta line, the summary
/// if any, and its bullets if it has any.
pub open spec fn entry_ops(e: EntryView, variant: EntryVariant) -> Seq<OpView> {
    let column = entry_column(variant);
    tagged(Tag::H3, seq![text_op(e.title, title_role(variant), column)]) + meta_upto(
        e.meta,
        variant,
        e.meta.len(),
    ) + match e.summary {
        Some(s) => tagged(Tag::P, seq![text_op(s, Role::EntrySummary, column)]),
        None => Seq::empty(),
    } + if e.bullets.len() > 0 {
        bullet_ops(e.bullets, column)
    } else {
        Seq::empty()
    }
}

pub open spec fn entry_gap(variant: EntryVariant) -> Gap {
    match variant {
        EntryVariant::Ruled => Gap::RuledEntry,
        EntryVariant::Plain => Gap::PlainEntry,
    }
}

/// One entry of an entry list in its own section element: kept whole on one
/// page unless the list may wrap, ruled on the left when the variant says so,
/// and followed by the entry gap.
pub open spec fn entry_item(e: EntryView, variant: EntryVariant, wrap: bool) -> Seq<OpView> {
    let ruled = variant == EntryVariant::Ruled;
    tagged(
        Tag::Sect,
        (if wrap {
            Seq::empty()
        } else {
            seq![OpView::KeepWhole]
        }) + (if ruled {
            seq![OpView::RuleStart]
        } else {
            Seq::empty()
        }) + entry_ops(e, variant) + (if ruled {
            seq![OpView::RuleEnd]
        } else {
            Seq::empty()
        }) + seq![OpView::Space(entry_gap(variant))],
    )
}

pub open spec fn entries_upto(es: Seq<EntryView>, variant: EntryVariant, wrap: bool, k: nat) -> Seq<OpView>
    decreases k,
{
    if k == 0 {
        Seq::empty()
    } else {
        entries_upto(es, variant, wrap, (k - 1) as nat) + entry_item(es[k - 1], variant, wrap)
    }
}

// ---- label/value rows ----

/// One row: both columns start at the same height, the label followed by a
/// colon; then the row's bottom margin.
pub open spec fn row_ops(label: Seq<char>, value: Seq<char>) -> Seq<OpView> {
    seq![OpView::KeepRow(value), OpView::MarkTop] + tagged(
        Tag::LI,
        tagged(Tag::Lbl, seq![text_op(label + ":"@, Role::LabelValueLabel, Column::Label)])
            + seq![OpView::ReturnToTop] + tagged(
            Tag::LBody,
            seq![text_op(value, Role::LabelValueValue, Column::Value)],
        ),
    ) + seq![OpView::Space(Gap::LabelValueRow)]
}

/// Row `i`, followed by the spacer unless it is the last.
pub open spec fn row_item(rows: Seq<(Seq<char>, Seq<char>)>, i: int) -> Seq<OpView> {
    row_ops(rows[i].0, rows[i].1) + if i + 1 < rows.len() {
        seq![OpView::Space(Gap::LabelValueSpacer)]
    } else {
        Seq::empty()
    }
}

pub open spec fn rows_upto(rows: Seq<(Seq<char>, Seq<char>)>, k: nat) -> Seq<OpView>
    decreases k,
{
    if k == 0 {
        Seq::empty()
    } else {
        rows_upto(rows, (k - 1) as nat) + row_item(rows, k - 1)
    }
}

// ---- blocks and sections ----

/// What a block draws.
pub open spec fn block_ops(b: BlockView) -> Seq<OpView> {
    match b {
        BlockView::Prose { paragraphs, variant } => prose_upto(
            paragraphs,
            prose_role(variant),
            paragraphs.len(),
        ),
        BlockView::InlineList { items, separator, rows } => inline_list_ops(items, separator, rows),
        BlockView::BulletList { items, trailing_spacer } => bullet_ops(items, Column::Full) + if trailing_spacer {
            seq![OpView::Space(Gap::Achievement)]
        } else {
            Seq::empty()
        },
        BlockView::EntryList { entries, variant, wrap } => entries_upto(
            entries,
            variant,
            wrap,
            entries.len(),
        ),
        BlockView::LabelValue { rows } => tagged(Tag::L, rows_upto(rows, rows.len())),
    }
}

/// What a section draws: its top margin, a heading kept with what follows it,
/// the uppercased title and the block inside a section element, and the
/// section's bottom gap.
pub open spec fn section_ops(s: SectionView) -> Seq<OpView> {
    seq![OpView::Margin(s.margin_top), OpView::KeepHeading] + tagged(
        Tag::Sect,
        tagged(Tag::H2, seq![text_op(uppercase(s.title), Role::SectionTitle, Column::Full)])
            + block_ops(s.block),
    ) + seq![OpView::Space(Gap::Section)]
}

} // verus!
verus! {

fn push_op(out: &mut Vec<Op>, op: Op)
    ensures
        op_views(final(out)@) == op_views(old(out)@).push(op@),
{
    let ghost before = out@;
    out.push(op);
    assert(op_views(out@) =~= op_views(before).push(op@));
}

fn push_text(out: &mut Vec<Op>, text: String, role: Role, column: Column)
    ensures
        op_views(final(out)@) == op_views(old(out)@).push(text_op(text@, role, column)),
{
    push_op(out, Op::Text { text, role, column, paragraph_gap: false });
}

/// `text` as the only content of a `tag` element.
fn push_tagged_text(out: &mut Vec<Op>, tag: Tag, text: String, role: Role, column: Column)
    ensures
        op_views(final(out)@) == op_views(old(out)@) + tagged(tag, seq![text_op(text@, role, column)]),
{
    let ghost start = op_views(out@);
    push_op(out, Op::Open(tag));
    push_text(out, text, role, column);
    push_op(out, Op::Close);
    assert(op_views(out@) =~= start + tagged(tag, seq![text_op(text@, role, column)]));
}

fn plan_prose(out: &mut Vec<Op>, paragraphs: &Vec<String>, role: Role)
    ensures
        op_views(final(out)@) == op_views(old(out)@) + prose_upto(
            views(paragraphs@),
            role,
            paragraphs@.len(),
        ),
{
    let ghost start = op_views(out@);
    let ghost ps = views(paragraphs@);
    let n = paragraphs.len();
    let mut i: usize = 0;
    while i < n
        invariant
            n == paragraphs@.len(),
            i <= n,
            ps == views(paragraphs@),
            op_views(out@) == start + prose_upto(ps, role, i as nat),
        decreases n - i,
    {
        let ghost before = op_views(out@);
        let text = paragraphs[i].clone();
        assert(text@ == ps[i as int]);
        push_op(out, Op::Open(Tag::P));
        push_op(out, Op::Text { text, role, column: Column::Full, paragraph_gap: i + 1 < n });
        push_op(out, Op::Close);
        assert(op_views(out@) =~= before + prose_item(ps, role, i as int));
        assert(op_views(out@) =~= start + prose_upto(ps, role, (i + 1) as nat));
        i += 1;
    }
}

fn plan_bullets(out: &mut Vec<Op>, items: &Vec<String>, column: Column)
    ensures
        op_views(final(out)@) == op_views(old(out)@) + bullet_ops(views(items@), column),
{
    let ghost start = op_views(out@);
    let ghost all = views(items@);
    push_op(out, Op::Open(Tag::L));
    let n = items.len();
    let mut i: usize = 0;
    while i < n
        invariant
            n == items@.len(),
            i <= n,
            all == views(items@),
            op_views(out@) == start + seq![OpView::Open(Tag::L)] + bullet_upto(all, column, i as nat),
        decreases n - i,
    {
        let ghost before = op_views(out@);
        let text = concat2("\u{2022} ", items[i].as_str());
        assert(text@ == "\u{2022} "@ + all[i as int]);
        push_op(out, Op::Open(Tag::LI));
        push_tagged_text(out, Tag::LBody, text, Role::Bullet, column);
        push_op(out, Op::Close);
        assert(op_views(out@) =~= before + bullet_item(all, column, i as int));
        assert(op_views(out@) =~= start + seq![OpView::Open(Tag::L)] + bullet_upto(all, column, (i + 1) as nat));
        i += 1;
    }
    push_op(out, Op::Close);
    assert(op_views(out@) =~= start + bullet_ops(all, column));
}

fn plan_inline_list(out: &mut Vec<Op>, items: &Vec<String>, separator: &String, rows: usize)
    ensures
        op_views(final(out)@) == op_views(old(out)@) + inline_list_ops(
            views(items@),
            separator@,
            rows as nat,
        ),
{
    let ghost start = op_views(out@);
    let groups = chunk(items.as_slice(), rows);
    let ghost gs = group_views(groups@);
    assert(gs == chunk_spec(views(items@), rows as nat));
    let n = groups.len();
    let mut i: usize = 0;
    while i < n
        invariant
            n == groups@.len(),
            i <= n,
            gs == group_views(groups@),
            op_views(out@) == start + inline_upto(gs, separator@, i as nat),
        decreases n - i,
    {
        let ghost before = op_views(out@);
        let line = join(&groups[i], separator.as_str());
        assert(line@ == join_seq(gs[i as int], separator@));
        if !line.as_str().is_empty() {
            push_tagged_text(out, Tag::P, line, Role::InlineList, Column::Full);
            if i + 1 < n {
                push_op(out, Op::Space(Gap::InlineList));
            }
        }
        assert(op_views(out@) =~= before + inline_item(gs, separator@, i as int));
        assert(op_views(out@) =~= start + inline_upto(gs, separator@, (i + 1) as nat));
        i += 1;
    }
}

} // verus!
verus! {

fn plan_entry(out: &mut Vec<Op>, e: &Entry, variant: EntryVariant)
    ensures
        op_views(final(out)@) == op_views(old(out)@) + entry_ops(e@, variant),
{
    let ghost start = op_views(out@);
    let ghost ev = e@;
    let column = match variant {
        EntryVariant::Ruled => Column::Indented,
        EntryVariant::Plain => Column::Full,
    };
    let heading = match variant {
        EntryVariant::Ruled => Role::EntryTitle,
        EntryVariant::Plain => Role::EntryTitleSmall,
    };
    push_tagged_text(out, Tag::H3, e.title.clone(), heading, column);
    let ghost head = op_views(out@);
    assert(head == start + tagged(Tag::H3, seq![text_op(ev.title, title_role(variant), column)]));

    let n = e.meta.len();
    let mut i: usize = 0;
    while i < n
        invariant
            n == e.meta@.len(),
            i <= n,
            ev == e@,
            column == entry_column(variant),
            op_views(out@) == head + meta_upto(ev.meta, variant, i as nat),
        decreases n - i,
    {
        let ghost before = op_views(out@);
        let role = if i == 0 {
            match variant {
                EntryVariant::Ruled => Role::EntryMeta,
                EntryVariant::Plain => Role::EntryDetail,
            }
        } else {
            Role::EntryMetaMuted
        };
        let text = e.meta[i].clone();
        assert(text@ == ev.meta[i as int]);
        push_tagged_text(out, Tag::P, text, role, column);
        assert(op_views(out@) =~= before + meta_item(ev.meta, variant, i as int));
        assert(op_views(out@) =~= head + meta_upto(ev.meta, variant, (i + 1) as nat));
        i += 1;
    }
    let ghost metas = op_views(out@);

    match &e.summary {
        Some(summary) => {
            push_tagged_text(out, Tag::P, summary.clone(), Role::EntrySummary, column);
        },
        None => {
            assert(op_views(out@) + Seq::<OpView>::empty() =~= op_views(out@));
        },
    }
    let ghost summed = op_views(out@);
    assert(summed == metas + match ev.summary {
        Some(s) => tagged(Tag::P, seq![text_op(s, Role::EntrySummary, column)]),
        None => Seq::<OpView>::empty(),
    });

    if e.bullets.len() > 0 {
        plan_bullets(out, &e.bullets, column);
    } else {
        assert(op_views(out@) + Seq::<OpView>::empty() =~= op_views(out@));
    }
    assert(op_views(out@) =~= start + entry_ops(ev, variant));
}

fn plan_entry_item(out: &mut Vec<Op>, e: &Entry, variant: EntryVariant, wrap: bool)
    ensures
        op_views(final(out)@) == op_views(old(out)@) + entry_item(e@, variant, wrap),
{
    let ghost start = op_views(out@);
    let ruled = match variant {
        EntryVariant::Ruled => true,
        EntryVariant::Plain => false,
    };
    let gap = match variant {
        EntryVariant::Ruled => Gap::RuledEntry,
        EntryVariant::Plain => Gap::PlainEntry,
    };
    push_op(out, Op::Open(Tag::Sect));
    if !wrap {
        push_op(out, Op::KeepWhole);
    }
    if ruled {
        push_op(out, Op::RuleStart);
    }
    plan_entry(out, e, variant);
    if ruled {
        push_op(out, Op::RuleEnd);
    }
    push_op(out, Op::Space(gap));
    push_op(out, Op::Close);
    assert(op_views(out@) =~= start + entry_item(e@, variant, wrap));
}

fn plan_entries(out: &mut Vec<Op>, entries: &Vec<Entry>, variant: EntryVariant, wrap: bool)
    ensures
        op_views(final(out)@) == op_views(old(out)@) + entries_upto(
            entry_views(entries@),
            variant,
            wrap,
            entries@.len(),
        ),
{
    let ghost start = op_views(out@);
    let ghost es = entry_views(entries@);
    let n = entries.len();
    let mut i: usize = 0;
    while i < n
        invariant
            n == entries@.len(),
            i <= n,
            es == entry_views(entries@),
            op_views(out@) == start + entries_upto(es, variant, wrap, i as nat),
        decreases n - i,
    {
        let ghost before = op_views(out@);
        plan_entry_item(out, &entries[i], variant, wrap);
        assert(entries@[i as int]@ == es[i as int]);
        assert(op_views(out@) =~= start + entries_upto(es, variant, wrap, (i + 1) as nat));
        i += 1;
    }
}

fn plan_rows(out: &mut Vec<Op>, rows: &Vec<LabelValueRow>)
    ensures
        op_views(final(out)@) == op_views(old(out)@) + tagged(
            Tag::L,
            rows_upto(row_views(rows@), rows@.len()),
        ),
{
    let ghost start = op_views(out@);
    let ghost rs = row_views(rows@);
    push_op(out, Op::Open(Tag::L));
    let n = rows.len();
    let mut i: usize = 0;
    while i < n
        invariant
            n == rows@.len(),
            i <= n,
            rs == row_views(rows@),
            op_views(out@) == start + seq![OpView::Open(Tag::L)] + rows_upto(rs, i as nat),
        decreases n - i,
    {
        let ghost before = op_views(out@);
        let row = &rows[i];
        assert(row@ == rs[i as int]);
        push_op(out, Op::KeepRow(row.value.clone()));
        push_op(out, Op::MarkTop);
        push_op(out, Op::Open(Tag::LI));
        let label = concat2(row.label.as_str(), ":");
        push_tagged_text(out, Tag::Lbl, label, Role::LabelValueLabel, Column::Label);
        push_op(out, Op::ReturnToTop);
        push_tagged_text(out, Tag::LBody, row.value.clone(), Role::LabelValueValue, Column::Value);
        push_op(out, Op::Close);
        push_op(out, Op::Space(Gap::LabelValueRow));
        if i + 1 < n {
            push_op(out, Op::Space(Gap::LabelValueSpacer));
        }
        assert(op_views(out@) =~= before + row_item(rs, i as int));
        assert(op_views(out@) =~= start + seq![OpView::Open(Tag::L)] + rows_upto(rs, (i + 1) as nat));
        i += 1;
    }
    push_op(out, Op::Close);
    assert(op_views(out@) =~= start + tagged(Tag::L, rows_upto(rs, n as nat)));
}

/// Append the operations that draw `block` to `out`.
pub fn plan_block(out: &mut Vec<Op>, block: &Block)
    ensures
        op_views(final(out)@) == op_views(old(out)@) + block_ops(block@),
{
    match block {
        Block::Prose { paragraphs, variant } => {
            let role = match variant {
                ProseVariant::Lead => Role::ProseLead,
                ProseVariant::Body => Role::ProseBody,
            };
            plan_prose(out, paragraphs, role);
        },
        Block::InlineList { items, separator, rows } => {
            plan_inline_list(out, items, separator, *rows);
        },
        Block::BulletList { items, trailing_spacer } => {
            let ghost start = op_views(out@);
            plan_bullets(out, items, Column::Full);
            if *trailing_spacer {
                push_op(out, Op::Space(Gap::Achievement));
            }
            assert(op_views(out@) =~= start + block_ops(block@));
        },
        Block::EntryList { entries, variant, wrap } => {
            plan_entries(out, entries, *variant, *wrap);
        },
        Block::LabelValue { rows } => {
            plan_rows(out, rows);
        },
    }
}

/// The operations that draw `section`, in order.
pub fn plan_section(section: &Section) -> (r: Vec<Op>)
    ensures
        op_views(r@) == section_ops(section@),
{
    let mut out: Vec<Op> = Vec::new();
    assert(op_views(out@) =~= Seq::<OpView>::empty());
    push_op(&mut out, Op::Margin(section.margin_top));
    push_op(&mut out, Op::KeepHeading);
    push_op(&mut out, Op::Open(Tag::Sect));
    let title = to_uppercase(section.title.as_str());
    push_tagged_text(&mut out, Tag::H2, title, Role::SectionTitle, Column::Full);
    plan_block(&mut out, &section.block);
    push_op(&mut out, Op::Close);
    push_op(&mut out, Op::Space(Gap::Section));
    assert(op_views(out@) =~= section_ops(section@));
    out
}

} // verus!
verus! {

// ---- nesting ----

/// How an operation changes the number of open structure elements.
pub open spec fn depth_change(o: OpView) -> int {
    match o {
        OpView::Open(_) => 1,
        OpView::Close => -1,
        _ => 0,
    }
}

/// The number of elements left open after `ops`.
pub open spec fn depth(ops: Seq<OpView>) -> int
    decreases ops.len(),
{
    if ops.len() == 0 {
        0
    } else {
        depth(ops.drop_last()) + depth_change(ops.last())
    }
}

/// Every element `ops` opens it also closes, and it never closes one it did
/// not open.
pub open spec fn balanced(ops: Seq<OpView>) -> bool {
    &&& depth(ops) == 0
    &&& forall|k: int| 0 <= k <= ops.len() ==> depth(#[trigger] ops.take(k)) >= 0
}

proof fn lemma_depth_concat(a: Seq<OpView>, b: Seq<OpView>)
    ensures
        depth(a + b) == depth(a) + depth(b),
    decreases b.len(),
{
    if b.len() == 0 {
        assert(a + b =~= a);
    } else {
        assert((a + b).drop_last() =~= a + b.drop_last());
        assert((a + b).last() == b.last());
        lemma_depth_concat(a, b.drop_last());
    }
}

proof fn lemma_balanced_empty()
    ensures
        balanced(Seq::<OpView>::empty()),
{
    assert forall|k: int| 0 <= k <= 0 implies depth(#[trigger] Seq::<OpView>::empty().take(k)) >= 0 by {
        assert(Seq::<OpView>::empty().take(k) =~= Seq::<OpView>::empty());
    }
}

proof fn lemma_balanced_single(o: OpView)
    requires
        depth_change(o) == 0,
    ensures
        balanced(seq![o]),
{
    let s = seq![o];
    assert(s.drop_last() =~= Seq::<OpView>::empty());
    assert(depth(Seq::<OpView>::empty()) == 0);
    assert(depth(s) == 0);
    assert forall|k: int| 0 <= k <= 1 implies depth(#[trigger] s.take(k)) >= 0 by {
        if k == 0 {
            assert(s.take(0) =~= Seq::<OpView>::empty());
        } else {
            assert(s.take(1) =~= s);
        }
    }
}

proof fn lemma_balanced_concat(a: Seq<OpView>, b: Seq<OpView>)
    requires
        balanced(a),
        balanced(b),
    ensures
        balanced(a + b),
{
    lemma_depth_concat(a, b);
    assert forall|k: int| 0 <= k <= (a + b).len() implies depth(#[trigger] (a + b).take(k)) >= 0 by {
        if k <= a.len() {
            assert((a + b).take(k) =~= a.take(k));
        } else {
            assert((a + b).take(k) =~= a + b.take(k - a.len()));
            lemma_depth_concat(a, b.take(k - a.len()));
            assert(depth(b.take(k - a.len())) >= 0);
        }
    }
}

proof fn lemma_balanced_tagged(t: Tag, x: Seq<OpView>)
    requires
        balanced(x),
    ensures
        balanced(tagged(t, x)),
{
    let o = seq![OpView::Open(t)];
    let c = seq![OpView::Close];
    assert(o.drop_last() =~= Seq::<OpView>::empty());
    assert(c.drop_last() =~= Seq::<OpView>::empty());
    assert(depth(Seq::<OpView>::empty()) == 0);
    assert(depth(o) == 1);
    assert(depth(c) == -1);
    lemma_depth_concat(o, x);
    lemma_depth_concat(o + x, c);
    let s = tagged(t, x);
    assert forall|k: int| 0 <= k <= s.len() implies depth(#[trigger] s.take(k)) >= 0 by {
        if k == 0 {
            assert(s.take(0) =~= Seq::<OpView>::empty());
        } else if k <= x.len() + 1 {
            assert(s.take(k) =~= o + x.take(k - 1));
            lemma_depth_concat(o, x.take(k - 1));
            assert(depth(x.take(k - 1)) >= 0);
        } else {
            assert(s.take(k) =~= s);
        }
    }
}

/// A paragraph, or anything else that is not `Open` or `Close`, inside `tag`.
proof fn lemma_balanced_wrap_one(t: Tag, o: OpView)
    requires
        depth_change(o) == 0,
    ensures
        balanced(tagged(t, seq![o])),
{
    lemma_balanced_single(o);
    lemma_balanced_tagged(t, seq![o]);
}

proof fn lemma_prose_balanced(ps: Seq<Seq<char>>, role: Role, k: nat)
    ensures
        balanced(prose_upto(ps, role, k)),
    decreases k,
{
    if k == 0 {
        lemma_balanced_empty();
    } else {
        lemma_prose_balanced(ps, role, (k - 1) as nat);
        let i = k - 1;
        lemma_balanced_wrap_one(
            Tag::P,
            OpView::Text { text: ps[i], role, column: Column::Full, paragraph_gap: i + 1 < ps.len() },
        );
        lemma_balanced_concat(prose_upto(ps, role, (k - 1) as nat), prose_item(ps, role, i));
    }
}

proof fn lemma_inline_balanced(groups: Seq<Seq<Seq<char>>>, separator: Seq<char>, k: nat)
    ensures
        balanced(inline_upto(groups, separator, k)),
    decreases k,
{
    if k == 0 {
        lemma_balanced_empty();
    } else {
        lemma_inline_balanced(groups, separator, (k - 1) as nat);
        let i = k - 1;
        let line = join_seq(groups[i], separator);
        if line.len() == 0 {
            lemma_balanced_empty();
        } else {
            lemma_balanced_wrap_one(Tag::P, text_op(line, Role::InlineList, Column::Full));
            if i + 1 < groups.len() {
                lemma_balanced_single(OpView::Space(Gap::InlineList));
                lemma_balanced_concat(
                    tagged(Tag::P, seq![text_op(line, Role::InlineList, Column::Full)]),
                    seq![OpView::Space(Gap::InlineList)],
                );
            } else {
                lemma_balanced_empty();
                lemma_balanced_concat(
                    tagged(Tag::P, seq![text_op(line, Role::InlineList, Column::Full)]),
                    Seq::empty(),
                );
            }
        }
        lemma_balanced_concat(inline_upto(groups, separator, (k - 1) as nat), inline_item(groups, separator, i));
    }
}

proof fn lemma_bullets_balanced(items: Seq<Seq<char>>, column: Column, k: nat)
    ensures
        balanced(bullet_upto(items, column, k)),
    decreases k,
{
    if k == 0 {
        lemma_balanced_empty();
    } else {
        lemma_bullets_balanced(items, column, (k - 1) as nat);
        let i = k - 1;
        let t = text_op("\u{2022} "@ + items[i], Role::Bullet, column);
        lemma_balanced_wrap_one(Tag::LBody, t);
        lemma_balanced_tagged(Tag::LI, tagged(Tag::LBody, seq![t]));
        lemma_balanced_concat(bullet_upto(items, column, (k - 1) as nat), bullet_item(items, column, i));
    }
}

proof fn lemma_bullet_ops_balanced(items: Seq<Seq<char>>, column: Column)
    ensures
        balanced(bullet_ops(items, column)),
{
    lemma_bullets_balanced(items, column, items.len());
    lemma_balanced_tagged(Tag::L, bullet_upto(items, column, items.len()));
}

proof fn lemma_meta_balanced(meta: Seq<Seq<char>>, variant: EntryVariant, k: nat)
    ensures
        balanced(meta_upto(meta, variant, k)),
    decreases k,
{
    if k == 0 {
        lemma_balanced_empty();
    } else {
        lemma_meta_balanced(meta, variant, (k - 1) as nat);
        let i = k - 1;
        lemma_balanced_wrap_one(Tag::P, text_op(meta[i], meta_role(variant, i), entry_column(variant)));
        lemma_balanced_concat(meta_upto(meta, variant, (k - 1) as nat), meta_item(meta, variant, i));
    }
}

proof fn lemma_entry_balanced(e: EntryView, variant: EntryVariant)
    ensures
        balanced(entry_ops(e, variant)),
{
    let column = entry_column(variant);
    let head = tagged(Tag::H3, seq![text_op(e.title, title_role(variant), column)]);
    let metas = meta_upto(e.meta, variant, e.meta.len());
    let summary = match e.summary {
        Some(s) => tagged(Tag::P, seq![text_op(s, Role::EntrySummary, column)]),
        None => Seq::<OpView>::empty(),
    };
    let bullets = if e.bullets.len() > 0 {
        bullet_ops(e.bullets, column)
    } else {
        Seq::<OpView>::empty()
    };
    lemma_balanced_wrap_one(Tag::H3, text_op(e.title, title_role(variant), column));
    lemma_meta_balanced(e.meta, variant, e.meta.len());
    match e.summary {
        Some(s) => lemma_balanced_wrap_one(Tag::P, text_op(s, Role::EntrySummary, column)),
        None => lemma_balanced_empty(),
    }
    if e.bullets.len() > 0 {
        lemma_bullet_ops_balanced(e.bullets, column);
    } else {
        lemma_balanced_empty();
    }
    lemma_balanced_concat(head, metas);
    lemma_balanced_concat(head + metas, summary);
    lemma_balanced_concat(head + metas + summary, bullets);
}

/// `o` when `cond`, nothing otherwise.
proof fn lemma_balanced_optional(cond: bool, o: OpView)
    requires
        depth_change(o) == 0,
    ensures
        balanced(if cond {
            seq![o]
        } else {
            Seq::<OpView>::empty()
        }),
{
    if cond {
        lemma_balanced_single(o);
    } else {
        lemma_balanced_empty();
    }
}

proof fn lemma_entries_balanced(es: Seq<EntryView>, variant: EntryVariant, wrap: bool, k: nat)
    ensures
        balanced(entries_upto(es, variant, wrap, k)),
    decreases k,
{
    if k == 0 {
        lemma_balanced_empty();
    } else {
        lemma_entries_balanced(es, variant, wrap, (k - 1) as nat);
        let e = es[k - 1];
        let ruled = variant == EntryVariant::Ruled;
        let keep = if wrap {
            Seq::<OpView>::empty()
        } else {
            seq![OpView::KeepWhole]
        };
        let start = if ruled {
            seq![OpView::RuleStart]
        } else {
            Seq::<OpView>::empty()
        };
        let end = if ruled {
            seq![OpView::RuleEnd]
        } else {
            Seq::<OpView>::empty()
        };
        lemma_balanced_optional(!wrap, OpView::KeepWhole);
        lemma_balanced_optional(ruled, OpView::RuleStart);
        lemma_balanced_optional(ruled, OpView::RuleEnd);
        lemma_entry_balanced(e, variant);
        lemma_balanced_single(OpView::Space(entry_gap(variant)));
        lemma_balanced_concat(keep, start);
        lemma_balanced_concat(keep + start, entry_ops(e, variant));
        lemma_balanced_concat(keep + start + entry_ops(e, variant), end);
        lemma_balanced_concat(
            keep + start + entry_ops(e, variant) + end,
            seq![OpView::Space(entry_gap(variant))],
        );
        lemma_balanced_tagged(
            Tag::Sect,
            keep + start + entry_ops(e, variant) + end + seq![OpView::Space(entry_gap(variant))],
        );
        lemma_balanced_concat(entries_upto(es, variant, wrap, (k - 1) as nat), entry_item(e, variant, wrap));
    }
}

proof fn lemma_row_balanced(label: Seq<char>, value: Seq<char>)
    ensures
        balanced(row_ops(label, value)),
{
    let lbl = tagged(Tag::Lbl, seq![text_op(label + ":"@, Role::LabelValueLabel, Column::Label)]);
    let body = tagged(Tag::LBody, seq![text_op(value, Role::LabelValueValue, Column::Value)]);
    lemma_balanced_single(OpView::KeepRow(value));
    lemma_balanced_single(OpView::MarkTop);
    lemma_balanced_concat(seq![OpView::KeepRow(value)], seq![OpView::MarkTop]);
    assert(seq![OpView::KeepRow(value), OpView::MarkTop] =~= seq![OpView::KeepRow(value)] + seq![
        OpView::MarkTop,
    ]);
    lemma_balanced_wrap_one(Tag::Lbl, text_op(label + ":"@, Role::LabelValueLabel, Column::Label));
    lemma_balanced_single(OpView::ReturnToTop);
    lemma_balanced_wrap_one(Tag::LBody, text_op(value, Role::LabelValueValue, Column::Value));
    lemma_balanced_concat(lbl, seq![OpView::ReturnToTop]);
    lemma_balanced_concat(lbl + seq![OpView::ReturnToTop], body);
    lemma_balanced_tagged(Tag::LI, lbl + seq![OpView::ReturnToTop] + body);
    lemma_balanced_concat(
        seq![OpView::KeepRow(value), OpView::MarkTop],
        tagged(Tag::LI, lbl + seq![OpView::ReturnToTop] + body),
    );
    lemma_balanced_single(OpView::Space(Gap::LabelValueRow));
    lemma_balanced_concat(
        seq![OpView::KeepRow(value), OpView::MarkTop] + tagged(Tag::LI, lbl + seq![OpView::ReturnToTop] + body),
        seq![OpView::Space(Gap::LabelValueRow)],
    );
}

proof fn lemma_rows_balanced(rows: Seq<(Seq<char>, Seq<char>)>, k: nat)
    ensures
        balanced(rows_upto(rows, k)),
    decreases k,
{
    if k == 0 {
        lemma_balanced_empty();
    } else {
        lemma_rows_balanced(rows, (k - 1) as nat);
        let i = k - 1;
        lemma_row_balanced(rows[i].0, rows[i].1);
        lemma_balanced_optional(i + 1 < rows.len(), OpView::Space(Gap::LabelValueSpacer));
        lemma_balanced_concat(
            row_ops(rows[i].0, rows[i].1),
            if i + 1 < rows.len() {
                seq![OpView::Space(Gap::LabelValueSpacer)]
            } else {
                Seq::empty()
            },
        );
        lemma_balanced_concat(rows_upto(rows, (k - 1) as nat), row_item(rows, i));
    }
}

/// Every structure element a block opens it closes again, innermost first,
/// and it never closes one it did not open: drawing a block leaves the
/// renderer's stack of open elements as it found it.
pub proof fn law_block_plan_balanced(b: BlockView)
    ensures
        balanced(block_ops(b)),
{
    match b {
        BlockView::Prose { paragraphs, variant } => {
            lemma_prose_balanced(paragraphs, prose_role(variant), paragraphs.len());
        },
        BlockView::InlineList { items, separator, rows } => {
            let groups = chunk_spec(items, rows);
            lemma_inline_balanced(groups, separator, groups.len());
        },
        BlockView::BulletList { items, trailing_spacer } => {
            lemma_bullet_ops_balanced(items, Column::Full);
            lemma_balanced_optional(trailing_spacer, OpView::Space(Gap::Achievement));
            lemma_balanced_concat(
                bullet_ops(items, Column::Full),
                if trailing_spacer {
                    seq![OpView::Space(Gap::Achievement)]
                } else {
                    Seq::empty()
                },
            );
        },
        BlockView::EntryList { entries, variant, wrap } => {
            lemma_entries_balanced(entries, variant, wrap, entries.len());
        },
        BlockView::LabelValue { rows } => {
            lemma_rows_balanced(rows, rows.len());
            lemma_balanced_tagged(Tag::L, rows_upto(rows, rows.len()));
        },
    }
}

/// Every structure element a section opens it closes again, innermost first,
/// and it never closes one it did not open: drawing a section leaves the
/// renderer's stack of open elements as it found it.
pub proof fn law_section_plan_balanced(s: SectionView)
    ensures
        balanced(section_ops(s)),
{
    let title = tagged(Tag::H2, seq![text_op(uppercase(s.title), Role::SectionTitle, Column::Full)]);
    lemma_balanced_single(OpView::Margin(s.margin_top));
    lemma_balanced_single(OpView::KeepHeading);
    lemma_balanced_concat(seq![OpView::Margin(s.margin_top)], seq![OpView::KeepHeading]);
    assert(seq![OpView::Margin(s.margin_top), OpView::KeepHeading] =~= seq![
        OpView::Margin(s.margin_top),
    ] + seq![OpView::KeepHeading]);
    lemma_balanced_wrap_one(Tag::H2, text_op(uppercase(s.title), Role::SectionTitle, Column::Full));
    law_block_plan_balanced(s.block);
    lemma_balanced_concat(title, block_ops(s.block));
    lemma_balanced_tagged(Tag::Sect, title + block_ops(s.block));
    lemma_balanced_concat(
        seq![OpView::Margin(s.margin_top), OpView::KeepHeading],
        tagged(Tag::Sect, title + block_ops(s.block)),
    );
    lemma_balanced_single(OpView::Space(Gap::Section));
    lemma_balanced_concat(
        seq![OpView::Margin(s.margin_top), OpView::KeepHeading] + tagged(Tag::Sect, title + block_ops(s.block)),
        seq![OpView::Space(Gap::Section)],
    );
}

} // verus!
verus! {

// ---- which element each paragraph lands in ----

/// The element a paragraph of each style belongs to: the section title is a
/// second-level heading, an entry's title a third-level one, a bullet or a
/// value the body of a list item, a label the item's label, anything else a
/// paragraph.
pub open spec fn role_tag(role: Role) -> Tag {
    match role {
        Role::SectionTitle => Tag::H2,
        Role::EntryTitle | Role::EntryTitleSmall => Tag::H3,
        Role::Bullet | Role::LabelValueValue => Tag::LBody,
        Role::LabelValueLabel => Tag::Lbl,
        _ => Tag::P,
    }
}

/// The open elements after one more operation.
pub open spec fn step(stack: Seq<Tag>, o: OpView) -> Seq<Tag> {
    match o {
        OpView::Open(t) => stack.push(t),
        OpView::Close => if stack.len() > 0 {
            stack.drop_last()
        } else {
            stack
        },
        _ => stack,
    }
}

/// The open elements, innermost last, after `ops` starting from `s0`.
pub open spec fn stack_after(s0: Seq<Tag>, ops: Seq<OpView>) -> Seq<Tag>
    decreases ops.len(),
{
    if ops.len() == 0 {
        s0
    } else {
        step(stack_after(s0, ops.drop_last()), ops.last())
    }
}

/// A paragraph drawn with `stack` open sits directly in the element its
/// style belongs to; other operations ask nothing.
pub open spec fn placed_ok(stack: Seq<Tag>, o: OpView) -> bool {
    match o {
        OpView::Text { role, .. } => stack.len() > 0 && stack.last() == role_tag(role),
        _ => true,
    }
}

/// Every paragraph of `ops`, drawn with `s0` open around them, lands directly
/// in the element its style belongs to.
pub open spec fn texts_placed(s0: Seq<Tag>, ops: Seq<OpView>) -> bool {
    forall|i: int| 0 <= i < ops.len() ==> #[trigger] placed_ok(stack_after(s0, ops.take(i)), ops[i])
}

proof fn lemma_stack_concat(s0: Seq<Tag>, a: Seq<OpView>, b: Seq<OpView>)
    ensures
        stack_after(s0, a + b) == stack_after(stack_after(s0, a), b),
    decreases b.len(),
{
    if b.len() == 0 {
        assert(a + b =~= a);
    } else {
        assert((a + b).drop_last() =~= a + b.drop_last());
        assert((a + b).last() == b.last());
        lemma_stack_concat(s0, a, b.drop_last());
    }
}

/// Operations that never close more than they opened push their own open
/// elements on top of whatever was open, one per unclosed `Open`.
proof fn lemma_stack_on_top(s0: Seq<Tag>, a: Seq<OpView>)
    requires
        forall|k: int| 0 <= k <= a.len() ==> depth(#[trigger] a.take(k)) >= 0,
    ensures
        stack_after(s0, a) == s0 + stack_after(Seq::empty(), a),
        stack_after(Seq::<Tag>::empty(), a).len() == depth(a),
    decreases a.len(),
{
    if a.len() == 0 {
        assert(s0 + Seq::<Tag>::empty() =~= s0);
    } else {
        let front = a.drop_last();
        assert forall|k: int| 0 <= k <= front.len() implies depth(#[trigger] front.take(k)) >= 0 by {
            assert(front.take(k) =~= a.take(k));
        }
        lemma_stack_on_top(s0, front);
        assert(a.take(a.len() as int) =~= a);
        let inner = stack_after(Seq::<Tag>::empty(), front);
        match a.last() {
            OpView::Open(t) => {
                assert((s0 + inner).push(t) =~= s0 + inner.push(t));
            },
            OpView::Close => {
                assert(inner.len() > 0);
                assert((s0 + inner).drop_last() =~= s0 + inner.drop_last());
            },
            _ => {},
        }
    }
}

proof fn lemma_balanced_keeps_stack(s0: Seq<Tag>, a: Seq<OpView>)
    requires
        balanced(a),
    ensures
        stack_after(s0, a) == s0,
{
    lemma_stack_on_top(s0, a);
    assert(s0 + stack_after(Seq::<Tag>::empty(), a) =~= s0);
}

proof fn lemma_placed_single(s0: Seq<Tag>, o: OpView)
    requires
        placed_ok(s0, o),
    ensures
        texts_placed(s0, seq![o]),
{
    assert forall|i: int| 0 <= i < 1 implies #[trigger] placed_ok(
        stack_after(s0, seq![o].take(i)),
        seq![o][i],
    ) by {
        assert(seq![o].take(0) =~= Seq::<OpView>::empty());
    }
}

proof fn lemma_placed_concat(s0: Seq<Tag>, a: Seq<OpView>, b: Seq<OpView>)
    requires
        texts_placed(s0, a),
        balanced(a),
        texts_placed(s0, b),
    ensures
        texts_placed(s0, a + b),
{
    assert forall|i: int| 0 <= i < (a + b).len() implies #[trigger] placed_ok(
        stack_after(s0, (a + b).take(i)),
        (a + b)[i],
    ) by {
        if i < a.len() {
            assert((a + b).take(i) =~= a.take(i));
            assert(placed_ok(stack_after(s0, a.take(i)), a[i]));
        } else {
            let j = i - a.len();
            assert((a + b).take(i) =~= a + b.take(j));
            lemma_stack_concat(s0, a, b.take(j));
            lemma_balanced_keeps_stack(s0, a);
            assert(placed_ok(stack_after(s0, b.take(j)), b[j]));
        }
    }
}

proof fn lemma_placed_tagged(s0: Seq<Tag>, t: Tag, x: Seq<OpView>)
    requires
        texts_placed(s0.push(t), x),
    ensures
        texts_placed(s0, tagged(t, x)),
{
    let o = seq![OpView::Open(t)];
    let s = tagged(t, x);
    assert(o.drop_last() =~= Seq::<OpView>::empty());
    assert(stack_after(s0, Seq::<OpView>::empty()) == s0);
    assert(o.last() == OpView::Open(t));
    assert(stack_after(s0, o) == s0.push(t));
    assert forall|i: int| 0 <= i < s.len() implies #[trigger] placed_ok(
        stack_after(s0, s.take(i)),
        s[i],
    ) by {
        if 1 <= i <= x.len() {
            assert(s.take(i) =~= o + x.take(i - 1));
            lemma_stack_concat(s0, o, x.take(i - 1));
            assert(s[i] == x[i - 1]);
            assert(placed_ok(stack_after(s0.push(t), x.take(i - 1)), x[i - 1]));
        }
    }
}

/// A paragraph in the element its style belongs to.
proof fn lemma_placed_wrap_text(s0: Seq<Tag>, text: Seq<char>, role: Role, column: Column, gap: bool)
    ensures
        texts_placed(
            s0,
            tagged(role_tag(role), seq![OpView::Text { text, role, column, paragraph_gap: gap }]),
        ),
{
    let o = OpView::Text { text, role, column, paragraph_gap: gap };
    lemma_placed_single(s0.push(role_tag(role)), o);
    lemma_placed_tagged(s0, role_tag(role), seq![o]);
}

proof fn lemma_placed_nontext(s0: Seq<Tag>, o: OpView)
    requires
        !(o is Text),
        depth_change(o) == 0,
    ensures
        texts_placed(s0, seq![o]),
        balanced(seq![o]),
{
    lemma_placed_single(s0, o);
    lemma_balanced_single(o);
}

} // verus!
verus! {

proof fn lemma_prose_placed(s0: Seq<Tag>, ps: Seq<Seq<char>>, role: Role, k: nat)
    requires
        role_tag(role) == Tag::P,
    ensures
        texts_placed(s0, prose_upto(ps, role, k)),
    decreases k,
{
    if k > 0 {
        let i = k - 1;
        lemma_prose_placed(s0, ps, role, (k - 1) as nat);
        lemma_prose_balanced(ps, role, (k - 1) as nat);
        lemma_placed_wrap_text(s0, ps[i], role, Column::Full, i + 1 < ps.len());
        lemma_placed_concat(s0, prose_upto(ps, role, (k - 1) as nat), prose_item(ps, role, i));
    }
}

proof fn lemma_inline_placed(s0: Seq<Tag>, groups: Seq<Seq<Seq<char>>>, separator: Seq<char>, k: nat)
    ensures
        texts_placed(s0, inline_upto(groups, separator, k)),
    decreases k,
{
    if k > 0 {
        let i = k - 1;
        lemma_inline_placed(s0, groups, separator, (k - 1) as nat);
        lemma_inline_balanced(groups, separator, (k - 1) as nat);
        let line = join_seq(groups[i], separator);
        if line.len() > 0 {
            let p = tagged(Tag::P, seq![text_op(line, Role::InlineList, Column::Full)]);
            lemma_placed_wrap_text(s0, line, Role::InlineList, Column::Full, false);
            lemma_balanced_wrap_one(Tag::P, text_op(line, Role::InlineList, Column::Full));
            if i + 1 < groups.len() {
                lemma_placed_nontext(s0, OpView::Space(Gap::InlineList));
                lemma_placed_concat(s0, p, seq![OpView::Space(Gap::InlineList)]);
            } else {
                assert(p + Seq::<OpView>::empty() =~= p);
            }
        }
        lemma_placed_concat(s0, inline_upto(groups, separator, (k - 1) as nat), inline_item(groups, separator, i));
    }
}

proof fn lemma_bullets_placed(s0: Seq<Tag>, items: Seq<Seq<char>>, column: Column, k: nat)
    ensures
        texts_placed(s0, bullet_upto(items, column, k)),
    decreases k,
{
    if k > 0 {
        let i = k - 1;
        lemma_bullets_placed(s0, items, column, (k - 1) as nat);
        lemma_bullets_balanced(items, column, (k - 1) as nat);
        lemma_placed_wrap_text(s0.push(Tag::LI), "\u{2022} "@ + items[i], Role::Bullet, column, false);
        lemma_placed_tagged(
            s0,
            Tag::LI,
            tagged(Tag::LBody, seq![text_op("\u{2022} "@ + items[i], Role::Bullet, column)]),
        );
        lemma_placed_concat(s0, bullet_upto(items, column, (k - 1) as nat), bullet_item(items, column, i));
    }
}

proof fn lemma_bullet_ops_placed(s0: Seq<Tag>, items: Seq<Seq<char>>, column: Column)
    ensures
        texts_placed(s0, bullet_ops(items, column)),
{
    lemma_bullets_placed(s0.push(Tag::L), items, column, items.len());
    lemma_placed_tagged(s0, Tag::L, bullet_upto(items, column, items.len()));
}

proof fn lemma_meta_placed(s0: Seq<Tag>, meta: Seq<Seq<char>>, variant: EntryVariant, k: nat)
    ensures
        texts_placed(s0, meta_upto(meta, variant, k)),
    decreases k,
{
    if k > 0 {
        let i = k - 1;
        lemma_meta_placed(s0, meta, variant, (k - 1) as nat);
        lemma_meta_balanced(meta, variant, (k - 1) as nat);
        lemma_placed_wrap_text(s0, meta[i], meta_role(variant, i), entry_column(variant), false);
        lemma_placed_concat(s0, meta_upto(meta, variant, (k - 1) as nat), meta_item(meta, variant, i));
    }
}

proof fn lemma_entry_placed(s0: Seq<Tag>, e: EntryView, variant: EntryVariant)
    ensures
        texts_placed(s0, entry_ops(e, variant)),
{
    let column = entry_column(variant);
    let head = tagged(Tag::H3, seq![text_op(e.title, title_role(variant), column)]);
    let metas = meta_upto(e.meta, variant, e.meta.len());
    let summary = match e.summary {
        Some(s) => tagged(Tag::P, seq![text_op(s, Role::EntrySummary, column)]),
        None => Seq::<OpView>::empty(),
    };
    let bullets = if e.bullets.len() > 0 {
        bullet_ops(e.bullets, column)
    } else {
        Seq::<OpView>::empty()
    };
    lemma_placed_wrap_text(s0, e.title, title_role(variant), column, false);
    lemma_balanced_wrap_one(Tag::H3, text_op(e.title, title_role(variant), column));
    lemma_meta_placed(s0, e.meta, variant, e.meta.len());
    lemma_meta_balanced(e.meta, variant, e.meta.len());
    match e.summary {
        Some(s) => {
            lemma_placed_wrap_text(s0, s, Role::EntrySummary, column, false);
            lemma_balanced_wrap_one(Tag::P, text_op(s, Role::EntrySummary, column));
        },
        None => {
            lemma_balanced_empty();
        },
    }
    if e.bullets.len() > 0 {
        lemma_bullet_ops_placed(s0, e.bullets, column);
    }
    lemma_balanced_concat(head, metas);
    lemma_balanced_concat(head + metas, summary);
    lemma_placed_concat(s0, head, metas);
    lemma_placed_concat(s0, head + metas, summary);
    lemma_placed_concat(s0, head + metas + summary, bullets);
}

proof fn lemma_entries_placed(s0: Seq<Tag>, es: Seq<EntryView>, variant: EntryVariant, wrap: bool, k: nat)
    ensures
        texts_placed(s0, entries_upto(es, variant, wrap, k)),
    decreases k,
{
    if k > 0 {
        lemma_entries_placed(s0, es, variant, wrap, (k - 1) as nat);
        lemma_entries_balanced(es, variant, wrap, (k - 1) as nat);
        let e = es[k - 1];
        let inner = s0.push(Tag::Sect);
        let ruled = variant == EntryVariant::Ruled;
        let keep = if wrap {
            Seq::<OpView>::empty()
        } else {
            seq![OpView::KeepWhole]
        };
        let start = if ruled {
            seq![OpView::RuleStart]
        } else {
            Seq::<OpView>::empty()
        };
        let end = if ruled {
            seq![OpView::RuleEnd]
        } else {
            Seq::<OpView>::empty()
        };
        if wrap {
            lemma_balanced_empty();
        } else {
            lemma_placed_nontext(inner, OpView::KeepWhole);
        }
        if ruled {
            lemma_placed_nontext(inner, OpView::RuleStart);
            lemma_placed_nontext(inner, OpView::RuleEnd);
        } else {
            lemma_balanced_empty();
        }
        lemma_entry_balanced(e, variant);
        lemma_entry_placed(inner, e, variant);
        lemma_placed_nontext(inner, OpView::Space(entry_gap(variant)));
        lemma_balanced_concat(keep, start);
        lemma_balanced_concat(keep + start, entry_ops(e, variant));
        lemma_balanced_concat(keep + start + entry_ops(e, variant), end);
        lemma_placed_concat(inner, keep, start);
        lemma_placed_concat(inner, keep + start, entry_ops(e, variant));
        lemma_placed_concat(inner, keep + start + entry_ops(e, variant), end);
        lemma_placed_concat(
            inner,
            keep + start + entry_ops(e, variant) + end,
            seq![OpView::Space(entry_gap(variant))],
        );
        lemma_placed_tagged(
            s0,
            Tag::Sect,
            keep + start + entry_ops(e, variant) + end + seq![OpView::Space(entry_gap(variant))],
        );
        lemma_placed_concat(s0, entries_upto(es, variant, wrap, (k - 1) as nat), entry_item(e, variant, wrap));
    }
}

proof fn lemma_row_placed(s0: Seq<Tag>, label: Seq<char>, value: Seq<char>)
    ensures
        texts_placed(s0, row_ops(label, value)),
{
    let li = s0.push(Tag::LI);
    let lbl = tagged(Tag::Lbl, seq![text_op(label + ":"@, Role::LabelValueLabel, Column::Label)]);
    let body = tagged(Tag::LBody, seq![text_op(value, Role::LabelValueValue, Column::Value)]);
    let marks = seq![OpView::KeepRow(value), OpView::MarkTop];
    assert(marks =~= seq![OpView::KeepRow(value)] + seq![OpView::MarkTop]);
    lemma_placed_nontext(s0, OpView::KeepRow(value));
    lemma_placed_nontext(s0, OpView::MarkTop);
    lemma_placed_concat(s0, seq![OpView::KeepRow(value)], seq![OpView::MarkTop]);
    lemma_balanced_concat(seq![OpView::KeepRow(value)], seq![OpView::MarkTop]);
    lemma_placed_wrap_text(li, label + ":"@, Role::LabelValueLabel, Column::Label, false);
    lemma_balanced_wrap_one(Tag::Lbl, text_op(label + ":"@, Role::LabelValueLabel, Column::Label));
    lemma_placed_nontext(li, OpView::ReturnToTop);
    lemma_placed_wrap_text(li, value, Role::LabelValueValue, Column::Value, false);
    lemma_balanced_wrap_one(Tag::LBody, text_op(value, Role::LabelValueValue, Column::Value));
    lemma_placed_concat(li, lbl, seq![OpView::ReturnToTop]);
    lemma_balanced_concat(lbl, seq![OpView::ReturnToTop]);
    lemma_placed_concat(li, lbl + seq![OpView::ReturnToTop], body);
    lemma_balanced_concat(lbl + seq![OpView::ReturnToTop], body);
    lemma_placed_tagged(s0, Tag::LI, lbl + seq![OpView::ReturnToTop] + body);
    lemma_balanced_tagged(Tag::LI, lbl + seq![OpView::ReturnToTop] + body);
    lemma_placed_concat(s0, marks, tagged(Tag::LI, lbl + seq![OpView::ReturnToTop] + body));
    lemma_balanced_concat(marks, tagged(Tag::LI, lbl + seq![OpView::ReturnToTop] + body));
    lemma_placed_nontext(s0, OpView::Space(Gap::LabelValueRow));
    lemma_placed_concat(
        s0,
        marks + tagged(Tag::LI, lbl + seq![OpView::ReturnToTop] + body),
        seq![OpView::Space(Gap::LabelValueRow)],
    );
}

proof fn lemma_rows_placed(s0: Seq<Tag>, rows: Seq<(Seq<char>, Seq<char>)>, k: nat)
    ensures
        texts_placed(s0, rows_upto(rows, k)),
    decreases k,
{
    if k > 0 {
        let i = k - 1;
        lemma_rows_placed(s0, rows, (k - 1) as nat);
        lemma_rows_balanced(rows, (k - 1) as nat);
        lemma_row_placed(s0, rows[i].0, rows[i].1);
        lemma_row_balanced(rows[i].0, rows[i].1);
        if i + 1 < rows.len() {
            lemma_placed_nontext(s0, OpView::Space(Gap::LabelValueSpacer));
        }
        lemma_placed_concat(
            s0,
            row_ops(rows[i].0, rows[i].1),
            if i + 1 < rows.len() {
                seq![OpView::Space(Gap::LabelValueSpacer)]
            } else {
                Seq::empty()
            },
        );
        lemma_placed_concat(s0, rows_upto(rows, (k - 1) as nat), row_item(rows, i));
    }
}

/// Every paragraph a block draws lands directly in the structure element its
/// style belongs to, whatever elements are open around the block: bullets in
/// list bodies (inside list items of a list), labels and values in list labels
/// and list bodies, entry titles in third-level headings, prose paragraphs and
/// inline-list rows in paragraphs.
pub proof fn law_block_texts_in_their_elements(s0: Seq<Tag>, b: BlockView)
    ensures
        texts_placed(s0, block_ops(b)),
{
    match b {
        BlockView::Prose { paragraphs, variant } => {
            lemma_prose_placed(s0, paragraphs, prose_role(variant), paragraphs.len());
        },
        BlockView::InlineList { items, separator, rows } => {
            let groups = chunk_spec(items, rows);
            lemma_inline_placed(s0, groups, separator, groups.len());
        },
        BlockView::BulletList { items, trailing_spacer } => {
            lemma_bullet_ops_placed(s0, items, Column::Full);
            lemma_bullet_ops_balanced(items, Column::Full);
            if trailing_spacer {
                lemma_placed_nontext(s0, OpView::Space(Gap::Achievement));
            }
            lemma_placed_concat(
                s0,
                bullet_ops(items, Column::Full),
                if trailing_spacer {
                    seq![OpView::Space(Gap::Achievement)]
                } else {
                    Seq::empty()
                },
            );
        },
        BlockView::EntryList { entries, variant, wrap } => {
            lemma_entries_placed(s0, entries, variant, wrap, entries.len());
        },
        BlockView::LabelValue { rows } => {
            lemma_rows_placed(s0.push(Tag::L), rows, rows.len());
            lemma_placed_tagged(s0, Tag::L, rows_upto(rows, rows.len()));
        },
    }
}

/// Every paragraph a section draws lands directly in the structure element
/// its style belongs to, whatever elements are open around the section: the
/// title in a second-level heading, entry titles in third-level headings,
/// bullets and label/value values in list bodies, labels in list labels, and
/// everything else in paragraphs.
pub proof fn law_section_texts_in_their_elements(s0: Seq<Tag>, s: SectionView)
    ensures
        texts_placed(s0, section_ops(s)),
{
    let inner = s0.push(Tag::Sect);
    let title = tagged(Tag::H2, seq![text_op(uppercase(s.title), Role::SectionTitle, Column::Full)]);
    let marks = seq![OpView::Margin(s.margin_top), OpView::KeepHeading];
    assert(marks =~= seq![OpView::Margin(s.margin_top)] + seq![OpView::KeepHeading]);
    lemma_placed_nontext(s0, OpView::Margin(s.margin_top));
    lemma_placed_nontext(s0, OpView::KeepHeading);
    lemma_placed_concat(s0, seq![OpView::Margin(s.margin_top)], seq![OpView::KeepHeading]);
    lemma_balanced_concat(seq![OpView::Margin(s.margin_top)], seq![OpView::KeepHeading]);
    lemma_placed_wrap_text(inner, uppercase(s.title), Role::SectionTitle, Column::Full, false);
    lemma_balanced_wrap_one(Tag::H2, text_op(uppercase(s.title), Role::SectionTitle, Column::Full));
    law_block_texts_in_their_elements(inner, s.block);
    lemma_placed_concat(inner, title, block_ops(s.block));
    lemma_placed_tagged(s0, Tag::Sect, title + block_ops(s.block));
    law_block_plan_balanced(s.block);
    lemma_balanced_concat(title, block_ops(s.block));
    lemma_balanced_tagged(Tag::Sect, title + block_ops(s.block));
    lemma_placed_concat(s0, marks, tagged(Tag::Sect, title + block_ops(s.block)));
    lemma_balanced_concat(marks, tagged(Tag::Sect, title + block_ops(s.block)));
    lemma_placed_nontext(s0, OpView::Space(Gap::Section));
    lemma_placed_concat(
        s0,
        marks + tagged(Tag::Sect, title + block_ops(s.block)),
        seq![OpView::Space(Gap::Section)],
    );
}

} // verus!
verus! {

/// The PDF's document title: the person's name followed by `'s CV`.
pub fn document_title(name: &str) -> (r: String)
    ensures
        r@ == name@ + "'s CV"@,
{
    concat2(name, "'s CV")
}

} // verus!
