//! The document, in order.
//!
//! Reordering, retitling or removing a section is an edit to `build_sections`;
//! no rendering code changes. A section whose data is empty is left out and
//! takes its heading with it.
use vstd::prelude::*;
use crate::document::{
    entry_views, row_views, section_views, Block, BlockView, Entry, EntryVariant, EntryView,
    LabelValueRow, ProseVariant, Section, SectionView,
};
use crate::schema::{
    CVEarlyCareer, CVEducation, CVExperience, CVLanguage, CVLinks, CVPerson, CVProject, CVSchema,
    CVTechnicalSkills,
};
use crate::text::{
    concat2, has_prefix, is_blank, is_blank_str, is_ws, join, join_seq, lemma_join_non_blank,
    lemma_trim_end_take, lemma_trim_keeps_non_blank, lemma_trim_start_skip, owned, starts_with,
    strip_all, strip_prefixes, to_chars, trim, trim_end_seq, trim_seq, trim_start_seq, views,
};

verus! {

/// A link without surrounding white space, leading `https://` / `http://`
/// schemes, or a leading `www.`.
pub open spec fn normalized(v: Seq<char>) -> Seq<char> {
    strip_all(strip_all(strip_all(trim_seq(v), "https://"@), "http://"@), "www."@)
}

/// Strip the scheme and `www.` from a link.
pub fn normalize_link(value: &str) -> (r: String)
    ensures
        r@ == normalized(value@),
{
    proof {
        reveal_strlit("https://");
        reveal_strlit("http://");
        reveal_strlit("www.");
    }
    let trimmed = trim(value);
    let a = strip_prefixes(trimmed, "https://");
    let b = strip_prefixes(a, "http://");
    let c = strip_prefixes(b, "www.");
    owned(c)
}

/// The GitHub contact line: the host is added unless the link already has it.
pub open spec fn github_line(v: Seq<char>) -> Seq<char> {
    let n = normalized(v);
    if has_prefix(n, "github.com/"@) {
        "GitHub: "@ + n
    } else {
        "GitHub: github.com/"@ + n
    }
}

/// The LinkedIn contact line: the host is added unless present, and a bare
/// `in/` handle loses that prefix.
pub open spec fn linkedin_line(v: Seq<char>) -> Seq<char> {
    let n = normalized(v);
    if has_prefix(n, "linkedin.com/"@) {
        "LinkedIn: "@ + n
    } else {
        "LinkedIn: linkedin.com/"@ + strip_all(n, "in/"@)
    }
}

/// The portfolio contact line.
pub open spec fn portfolio_line(v: Seq<char>) -> Seq<char> {
    "Portfolio: "@ + normalized(v)
}

pub fn format_github(value: &str) -> (r: String)
    ensures
        r@ == github_line(value@),
{
    let normalized = normalize_link(value);
    if starts_with(normalized.as_str(), "github.com/") {
        concat2("GitHub: ", normalized.as_str())
    } else {
        concat2("GitHub: github.com/", normalized.as_str())
    }
}

pub fn format_linkedin(value: &str) -> (r: String)
    ensures
        r@ == linkedin_line(value@),
{
    proof {
        reveal_strlit("in/");
    }
    let normalized = normalize_link(value);
    if starts_with(normalized.as_str(), "linkedin.com/") {
        concat2("LinkedIn: ", normalized.as_str())
    } else {
        let handle = strip_prefixes(normalized.as_str(), "in/");
        concat2("LinkedIn: linkedin.com/", handle)
    }
}

pub fn format_portfolio(value: &str) -> (r: String)
    ensures
        r@ == portfolio_line(value@),
{
    let normalized = normalize_link(value);
    concat2("Portfolio: ", normalized.as_str())
}

/// `items` without its blank members, order kept.
pub open spec fn drop_blank(items: Seq<Seq<char>>) -> Seq<Seq<char>>
    decreases items.len(),
{
    if items.len() == 0 {
        Seq::empty()
    } else if is_blank(items.last()) {
        drop_blank(items.drop_last())
    } else {
        drop_blank(items.drop_last()).push(items.last())
    }
}

/// Every contact line the data supports, before blanks are dropped: the
/// location, then email, phone, GitHub, LinkedIn and portfolio, each only when
/// its field is not blank.
pub open spec fn contact_candidates(person: CVPerson, links: CVLinks) -> Seq<Seq<char>> {
    let s0 = seq![person.location@];
    let s1 = if !is_blank(person.email@) {
        s0.push("Email: "@ + person.email@)
    } else {
        s0
    };
    let s2 = match person.phone {
        Some(p) => if !is_blank(p@) {
            s1.push("Phone: "@ + p@)
        } else {
            s1
        },
        None => s1,
    };
    let s3 = if !is_blank(links.github@) {
        s2.push(github_line(links.github@))
    } else {
        s2
    };
    let s4 = if !is_blank(links.linkedin@) {
        s3.push(linkedin_line(links.linkedin@))
    } else {
        s3
    };
    if !is_blank(links.portfolio@) {
        s4.push(portfolio_line(links.portfolio@))
    } else {
        s4
    }
}

/// The contact line, item by item.
pub open spec fn contact_items_spec(person: CVPerson, links: CVLinks) -> Seq<Seq<char>> {
    drop_blank(contact_candidates(person, links))
}

/// Keep the non-blank strings of `items`, in order.
pub fn retain_non_blank(items: Vec<String>) -> (r: Vec<String>)
    ensures
        views(r@) == drop_blank(views(items@)),
{
    let ghost all = views(items@);
    let mut out: Vec<String> = Vec::new();
    let n = items.len();
    let mut i: usize = 0;
    while i < n
        invariant
            n == items.len(),
            i <= n,
            all == views(items@),
            views(out@) == drop_blank(all.take(i as int)),
        decreases n - i,
    {
        assert(all.take(i + 1).drop_last() =~= all.take(i as int));
        assert(all.take(i + 1).last() == items[i as int]@);
        if !is_blank_str(items[i].as_str()) {
            out.push(items[i].clone());
            assert(views(out@) =~= drop_blank(all.take(i as int)).push(all[i as int]));
        }
        i += 1;
    }
    assert(all.take(n as int) =~= all);
    out
}

/// The contact items, in order, with empties dropped.
pub fn contact_items(person: &CVPerson, links: &CVLinks) -> (r: Vec<String>)
    ensures
        views(r@) == contact_items_spec(*person, *links),
        forall|i: int| 0 <= i < r@.len() ==> !is_blank(#[trigger] r@[i]@),
{
    let mut items: Vec<String> = Vec::new();
    items.push(person.location.clone());
    if !is_blank_str(person.email.as_str()) {
        items.push(concat2("Email: ", person.email.as_str()));
    }
    match &person.phone {
        Some(phone) => {
            if !is_blank_str(phone.as_str()) {
                items.push(concat2("Phone: ", phone.as_str()));
            }
        },
        None => {},
    }
    if !is_blank_str(links.github.as_str()) {
        items.push(format_github(links.github.as_str()));
    }
    if !is_blank_str(links.linkedin.as_str()) {
        items.push(format_linkedin(links.linkedin.as_str()));
    }
    if !is_blank_str(links.portfolio.as_str()) {
        items.push(format_portfolio(links.portfolio.as_str()));
    }
    assert(views(items@) =~= contact_candidates(*person, *links));
    let r = retain_non_blank(items);
    proof {
        lemma_drop_blank_non_blank(contact_candidates(*person, *links));
        assert forall|i: int| 0 <= i < r@.len() implies !is_blank(#[trigger] r@[i]@) by {
            assert(views(r@)[i] == r@[i]@);
        }
    }
    r
}

proof fn lemma_drop_blank_non_blank(items: Seq<Seq<char>>)
    ensures
        forall|i: int| 0 <= i < drop_blank(items).len() ==> !is_blank(#[trigger] drop_blank(items)[i]),
    decreases items.len(),
{
    if items.len() > 0 {
        lemma_drop_blank_non_blank(items.drop_last());
        let d = drop_blank(items.drop_last());
        if !is_blank(items.last()) {
            let e = d.push(items.last());
            assert forall|i: int| 0 <= i < e.len() implies !is_blank(#[trigger] e[i]) by {
                if i < d.len() {
                    assert(e[i] == d[i]);
                }
            }
        }
    }
}

} // verus!
verus! {

/// `s` cut at every `'\n'`; the pieces hold no `'\n'`.
pub open spec fn split_lines(s: Seq<char>) -> Seq<Seq<char>>
    decreases s.len(),
{
    if s.len() == 0 {
        seq![Seq::empty()]
    } else if s.last() == '\n' {
        split_lines(s.drop_last()).push(Seq::empty())
    } else {
        let rest = split_lines(s.drop_last());
        rest.update(rest.len() - 1, rest.last().push(s.last()))
    }
}

proof fn lemma_split_lines_nonempty(s: Seq<char>)
    ensures
        split_lines(s).len() >= 1,
    decreases s.len(),
{
    if s.len() > 0 {
        lemma_split_lines_nonempty(s.drop_last());
    }
}

/// The lines of `text`, as `str::split('\n')` yields them.
pub fn split_lines_exec(text: &str) -> (r: Vec<String>)
    ensures
        views(r@) == split_lines(text@),
{
    let cs = to_chars(text);
    let n = cs.len();
    let mut out: Vec<String> = Vec::new();
    let mut start: usize = 0;
    let mut i: usize = 0;
    assert(text@.take(0) =~= Seq::<char>::empty());
    while i < n
        invariant
            cs@ == text@,
            n == cs.len(),
            start <= i <= n,
            split_lines(text@.take(i as int)) == views(out@).push(
                text@.subrange(start as int, i as int),
            ),
        decreases n - i,
    {
        let ghost prev = text@.take(i as int);
        assert(text@.take(i + 1).drop_last() =~= prev);
        assert(text@.take(i + 1).last() == cs@[i as int]);
        if cs[i] == '\n' {
            out.push(owned(text.substring_char(start, i)));
            start = i + 1;
            assert(text@.subrange(start as int, (i + 1) as int) =~= Seq::<char>::empty());
        } else {
            assert(text@.subrange(start as int, (i + 1) as int) =~= text@.subrange(
                start as int,
                i as int,
            ).push(cs@[i as int]));
        }
        i += 1;
    }
    out.push(owned(text.substring_char(start, n)));
    assert(text@.take(n as int) =~= text@);
    out
}


} // verus!
verus! {

/// The paragraph scan after `lines`: the finished paragraphs, and the trimmed
/// lines of the paragraph still open. A blank line closes the open paragraph;
/// any other line joins it.
pub open spec fn para_scan(lines: Seq<Seq<char>>) -> (Seq<Seq<char>>, Seq<Seq<char>>)
    decreases lines.len(),
{
    if lines.len() == 0 {
        (Seq::empty(), Seq::empty())
    } else {
        let (out, cur) = para_scan(lines.drop_last());
        let line = lines.last();
        if is_blank(line) {
            if cur.len() > 0 {
                (out.push(join_seq(cur, " "@)), Seq::empty())
            } else {
                (out, cur)
            }
        } else {
            (out, cur.push(trim_seq(line)))
        }
    }
}

/// The paragraphs of `text`: each maximal run of non-blank lines, its lines
/// trimmed and joined with single spaces.
pub open spec fn paragraphs_spec(text: Seq<char>) -> Seq<Seq<char>> {
    let (out, cur) = para_scan(split_lines(text));
    if cur.len() > 0 {
        out.push(join_seq(cur, " "@))
    } else {
        out
    }
}

proof fn lemma_para_scan_non_blank(lines: Seq<Seq<char>>)
    ensures
        forall|i: int|
            0 <= i < para_scan(lines).0.len() ==> !is_blank(#[trigger] para_scan(lines).0[i]),
        forall|i: int|
            0 <= i < para_scan(lines).1.len() ==> !is_blank(#[trigger] para_scan(lines).1[i]),
    decreases lines.len(),
{
    if lines.len() > 0 {
        lemma_para_scan_non_blank(lines.drop_last());
        let (out, cur) = para_scan(lines.drop_last());
        let line = lines.last();
        if is_blank(line) {
            if cur.len() > 0 {
                lemma_join_non_blank(cur, " "@);
            }
        } else {
            lemma_trim_keeps_non_blank(line);
        }
    }
}

/// Split a profile-style string into paragraphs on blank lines.
pub fn paragraphs(text: &str) -> (r: Vec<String>)
    ensures
        views(r@) == paragraphs_spec(text@),
        forall|i: int| 0 <= i < r.len() ==> !is_blank(#[trigger] r[i]@),
{
    let lines = split_lines_exec(text);
    let ghost ls = views(lines@);
    let mut out: Vec<String> = Vec::new();
    let mut current: Vec<String> = Vec::new();
    let n = lines.len();
    let mut i: usize = 0;
    while i < n
        invariant
            n == lines.len(),
            i <= n,
            ls == views(lines@),
            (views(out@), views(current@)) == para_scan(ls.take(i as int)),
        decreases n - i,
    {
        assert(ls.take(i + 1).drop_last() =~= ls.take(i as int));
        assert(ls.take(i + 1).last() == lines[i as int]@);
        let line = lines[i].as_str();
        if is_blank_str(line) {
            if current.len() > 0 {
                out.push(join(&current, " "));
                current = Vec::new();
                assert(views(current@) =~= Seq::<Seq<char>>::empty());
            }
        } else {
            current.push(owned(trim(line)));
            assert(views(current@) =~= para_scan(ls.take(i as int)).1.push(trim_seq(lines[i as int]@)));
        }
        proof {
            assert(views(out@) =~= para_scan(ls.take(i + 1)).0);
        }
        i += 1;
    }
    assert(ls.take(n as int) =~= ls);
    let ghost before = views(out@);
    if current.len() > 0 {
        out.push(join(&current, " "));
    }
    proof {
        lemma_para_scan_non_blank(ls);
        let (o, c) = para_scan(ls);
        assert(before == o);
        if c.len() > 0 {
            lemma_join_non_blank(c, " "@);
        }
        assert forall|k: int| 0 <= k < out.len() implies !is_blank(#[trigger] out[k]@) by {
            assert(views(out@)[k] == out[k]@);
            if k < o.len() {
                assert(views(out@)[k] == o[k]);
            }
        }
    }
    out
}

} // verus!
verus! {

pub open spec fn is_digit(c: char) -> bool {
    '0' <= c && c <= '9'
}

/// `YYYY-MM`: four ASCII digits, a hyphen, two ASCII digits.
pub open spec fn is_year_month(s: Seq<char>) -> bool {
    &&& s.len() == 7
    &&& s[4] == '-'
    &&& forall|i: int| 0 <= i < 4 ==> is_digit(#[trigger] s[i])
    &&& is_digit(s[5])
    &&& is_digit(s[6])
}

/// The year of a `YYYY-MM` date; any other text unchanged.
pub open spec fn short_date(s: Seq<char>) -> Seq<char> {
    if is_year_month(s) {
        s.take(4)
    } else {
        s
    }
}

/// "2026-04" renders as "2026"; anything else passes through, e.g. "Present".
pub fn format_date(date: &str) -> (r: String)
    ensures
        r@ == short_date(date@),
{
    let cs = to_chars(date);
    let mut year_month = cs.len() == 7 && cs[4] == '-' && '0' <= cs[5] && cs[5] <= '9'
        && '0' <= cs[6] && cs[6] <= '9';
    let mut i: usize = 0;
    while i < 4 && year_month
        invariant
            cs@ == date@,
            i <= 4,
            year_month ==> cs.len() == 7 && date@[4] == '-' && is_digit(date@[5]) && is_digit(
                date@[6],
            ),
            year_month ==> forall|j: int| 0 <= j < i ==> is_digit(#[trigger] date@[j]),
            !year_month ==> !is_year_month(date@),
        decreases 4 - i,
    {
        if !('0' <= cs[i] && cs[i] <= '9') {
            year_month = false;
        }
        i += 1;
    }
    if year_month {
        assert(date@.subrange(0, 4) =~= date@.take(4));
        owned(date.substring_char(0, 4))
    } else {
        owned(date)
    }
}

/// The skill categories, labelled, before empty ones are dropped.
pub open spec fn skill_candidates(skills: CVTechnicalSkills) -> Seq<(Seq<char>, Seq<char>)> {
    seq![
        ("Languages"@, join_seq(views(skills.languages@), ", "@)),
        ("Frameworks"@, join_seq(views(skills.frameworks@), ", "@)),
        ("AI / Machine Learning"@, join_seq(views(skills.ai_ml_skills@), ", "@)),
        ("Blockchain / Web3"@, join_seq(views(skills.blockchain_skills@), ", "@)),
        ("Mobile"@, join_seq(views(skills.mobile_skills@), ", "@)),
        ("Backend / Cloud"@, join_seq(views(skills.backend_cloud_skills@), ", "@)),
        ("Tools"@, join_seq(views(skills.tools@), ", "@)),
    ]
}

/// `rows` without those whose value is empty, order kept.
pub open spec fn drop_empty_values(rows: Seq<(Seq<char>, Seq<char>)>) -> Seq<(Seq<char>, Seq<char>)>
    decreases rows.len(),
{
    if rows.len() == 0 {
        Seq::empty()
    } else if rows.last().1.len() == 0 {
        drop_empty_values(rows.drop_last())
    } else {
        drop_empty_values(rows.drop_last()).push(rows.last())
    }
}

/// The label/value rows of the skills section.
pub open spec fn skill_rows_spec(skills: CVTechnicalSkills) -> Seq<(Seq<char>, Seq<char>)> {
    drop_empty_values(skill_candidates(skills))
}

fn skill_row(label: &str, items: &Vec<String>) -> (r: LabelValueRow)
    ensures
        r@ == (label@, join_seq(views(items@), ", "@)),
{
    LabelValueRow { label: owned(label), value: join(items, ", ") }
}

/// The skill categories as label/value rows; categories whose value is empty
/// are dropped.
pub fn skill_rows(skills: &CVTechnicalSkills) -> (r: Vec<LabelValueRow>)
    ensures
        row_views(r@) == skill_rows_spec(*skills),
        forall|i: int| 0 <= i < r@.len() ==> #[trigger] r@[i].value@.len() > 0,
{
    let mut cands: Vec<LabelValueRow> = Vec::new();
    cands.push(skill_row("Languages", &skills.languages));
    cands.push(skill_row("Frameworks", &skills.frameworks));
    cands.push(skill_row("AI / Machine Learning", &skills.ai_ml_skills));
    cands.push(skill_row("Blockchain / Web3", &skills.blockchain_skills));
    cands.push(skill_row("Mobile", &skills.mobile_skills));
    cands.push(skill_row("Backend / Cloud", &skills.backend_cloud_skills));
    cands.push(skill_row("Tools", &skills.tools));
    let ghost all = row_views(cands@);
    assert(all =~= skill_candidates(*skills));
    let mut out: Vec<LabelValueRow> = Vec::new();
    let n = cands.len();
    let mut i: usize = 0;
    while i < n
        invariant
            n == cands.len(),
            i <= n,
            all == row_views(cands@),
            row_views(out@) == drop_empty_values(all.take(i as int)),
        decreases n - i,
    {
        assert(all.take(i + 1).drop_last() =~= all.take(i as int));
        assert(all.take(i + 1).last() == cands[i as int]@);
        if !cands[i].value.as_str().is_empty() {
            out.push(LabelValueRow { label: cands[i].label.clone(), value: cands[i].value.clone() });
            assert(row_views(out@) =~= drop_empty_values(all.take(i as int)).push(all[i as int]));
        }
        i += 1;
    }
    assert(all.take(n as int) =~= all);
    proof {
        lemma_drop_empty_values_non_empty(all);
        assert forall|i: int| 0 <= i < out@.len() implies #[trigger] out@[i].value@.len() > 0 by {
            assert(row_views(out@)[i] == out@[i]@);
            assert(drop_empty_values(all)[i].1.len() > 0);
        }
    }
    out
}

proof fn lemma_drop_empty_values_non_empty(rows: Seq<(Seq<char>, Seq<char>)>)
    ensures
        forall|i: int|
            0 <= i < drop_empty_values(rows).len() ==> #[trigger] drop_empty_values(rows)[i].1.len() > 0,
    decreases rows.len(),
{
    if rows.len() > 0 {
        lemma_drop_empty_values_non_empty(rows.drop_last());
        let d = drop_empty_values(rows.drop_last());
        if rows.last().1.len() != 0 {
            let e = d.push(rows.last());
            assert forall|i: int| 0 <= i < e.len() implies #[trigger] e[i].1.len() > 0 by {
                if i < d.len() {
                    assert(e[i] == d[i]);
                }
            }
        }
    }
}

} // verus!
verus! {

/// The entry of one job: the role as title, one meta line
/// `Company — Location · Start–End` with short dates, the summary unless blank,
/// and the highlights as bullets.
pub open spec fn experience_view(job: CVExperience) -> EntryView {
    EntryView {
        title: job.role@,
        meta: seq![
            job.company@ + " \u{2014} "@ + job.location@ + " \u{b7} "@ + short_date(job.start_date@)
                + "\u{2013}"@ + short_date(job.end_date@),
        ],
        summary: if is_blank(job.summary@) {
            None
        } else {
            Some(job.summary@)
        },
        bullets: views(job.highlights@),
    }
}

/// The entry of one degree: the institution as title, the meta lines
/// `Degree — Field` and `Location · Start–End`, no summary, honors as bullets.
pub open spec fn education_view(edu: CVEducation) -> EntryView {
    EntryView {
        title: edu.institution@,
        meta: seq![
            edu.degree@ + " \u{2014} "@ + edu.field@,
            edu.location@ + " \u{b7} "@ + edu.start_date@ + "\u{2013}"@ + edu.end_date@,
        ],
        summary: None,
        bullets: views(edu.honors@),
    }
}

/// A copy of `v`, string by string.
pub fn clone_strings(v: &Vec<String>) -> (r: Vec<String>)
    ensures
        views(r@) == views(v@),
{
    let mut out: Vec<String> = Vec::new();
    let n = v.len();
    let mut i: usize = 0;
    while i < n
        invariant
            n == v.len(),
            i <= n,
            views(out@) == views(v@).take(i as int),
        decreases n - i,
    {
        let s = v[i].clone();
        assert(s@ == views(v@)[i as int]);
        assert(views(v@).take(i + 1) =~= views(v@).take(i as int).push(s@));
        out.push(s);
        assert(views(out@) =~= views(v@).take(i + 1));
        i += 1;
    }
    assert(views(v@).take(n as int) =~= views(v@));
    out
}

pub fn experience_entry(job: &CVExperience) -> (e: Entry)
    ensures
        e@ == experience_view(*job),
        e.title@ == job.role@,
        views(e.bullets@) == views(job.highlights@),
{
    let start = format_date(job.start_date.as_str());
    let end = format_date(job.end_date.as_str());
    let mut meta = job.company.clone();
    meta.append(" \u{2014} ");
    meta.append(job.location.as_str());
    meta.append(" \u{b7} ");
    meta.append(start.as_str());
    meta.append("\u{2013}");
    meta.append(end.as_str());
    let mut metas: Vec<String> = Vec::new();
    metas.push(meta);
    let summary = if is_blank_str(job.summary.as_str()) {
        None
    } else {
        Some(job.summary.clone())
    };
    let e = Entry {
        title: job.role.clone(),
        meta: metas,
        summary,
        bullets: clone_strings(&job.highlights),
    };
    assert(e@.meta =~= experience_view(*job).meta);
    e
}

pub fn education_entry(edu: &CVEducation) -> (e: Entry)
    ensures
        e@ == education_view(*edu),
        e.title@ == edu.institution@,
        e.summary is None,
        views(e.bullets@) == views(edu.honors@),
{
    let mut first = edu.degree.clone();
    first.append(" \u{2014} ");
    first.append(edu.field.as_str());
    let mut second = edu.location.clone();
    second.append(" \u{b7} ");
    second.append(edu.start_date.as_str());
    second.append("\u{2013}");
    second.append(edu.end_date.as_str());
    let mut metas: Vec<String> = Vec::new();
    metas.push(first);
    metas.push(second);
    let e = Entry {
        title: edu.institution.clone(),
        meta: metas,
        summary: None,
        bullets: clone_strings(&edu.honors),
    };
    assert(e@.meta =~= education_view(*edu).meta);
    e
}

} // verus!
verus! {

/// `s` alone when `present`, otherwise nothing.
pub open spec fn opt_section(present: bool, s: SectionView) -> Seq<SectionView> {
    if present {
        seq![s]
    } else {
        Seq::empty()
    }
}

pub open spec fn section_view(title: Seq<char>, margin_top: nat, block: BlockView) -> SectionView {
    SectionView { title, margin_top, block }
}

/// One bullet per project: `Name — Description · Dates`.
pub open spec fn project_lines(projects: Seq<CVProject>) -> Seq<Seq<char>> {
    projects.map_values(
        |p: CVProject| p.name@ + " \u{2014} "@ + p.description@ + " \u{b7} "@ + p.date_range@,
    )
}

/// `Name (Proficiency)` for each language.
pub open spec fn language_items(langs: Seq<CVLanguage>) -> Seq<Seq<char>> {
    langs.map_values(|l: CVLanguage| l.name@ + " ("@ + l.proficiency@ + ")"@)
}

/// The early-career section, present when the early career has a date range
/// or a summary that is not blank: an early career with neither is empty
/// data, and its section leaves with its heading.
pub open spec fn early_career_part(early: Option<CVEarlyCareer>) -> Seq<SectionView> {
    match early {
        Some(e) if !is_blank(e.date_range@) || !is_blank(e.summary@) => seq![
            section_view(
                "Early Career"@,
                0,
                BlockView::Prose {
                    paragraphs: seq![e.date_range@ + " \u{b7} "@ + e.summary@],
                    variant: ProseVariant::Body,
                },
            ),
        ],
        _ => Seq::empty(),
    }
}

pub open spec fn profile_part(schema: CVSchema) -> Seq<SectionView> {
    let profile = paragraphs_spec(schema.profile@);
    opt_section(
        profile.len() > 0,
        section_view(
            "Profile"@,
            0,
            BlockView::Prose { paragraphs: profile, variant: ProseVariant::Lead },
        ),
    )
}

pub open spec fn competencies_part(schema: CVSchema) -> Seq<SectionView> {
    opt_section(
        schema.core_competencies.len() > 0,
        section_view(
            "Core Competencies"@,
            0,
            BlockView::InlineList {
                items: views(schema.core_competencies@),
                separator: " \u{b7} "@,
                rows: 2,
            },
        ),
    )
}

pub open spec fn focus_part(schema: CVSchema) -> Seq<SectionView> {
    opt_section(
        schema.technical_focus_areas.len() > 0,
        section_view(
            "Specialization Focus"@,
            0,
            BlockView::InlineList {
                items: views(schema.technical_focus_areas@),
                separator: " \u{b7} "@,
                rows: 1,
            },
        ),
    )
}

pub open spec fn achievements_part(schema: CVSchema) -> Seq<SectionView> {
    opt_section(
        schema.key_achievements.len() > 0,
        section_view(
            "Key Achievements"@,
            0,
            BlockView::BulletList { items: views(schema.key_achievements@), trailing_spacer: true },
        ),
    )
}

pub open spec fn leadership_part(schema: CVSchema) -> Seq<SectionView> {
    opt_section(
        schema.tech_leadership.len() > 0,
        section_view(
            "Tech Leadership"@,
            4,
            BlockView::BulletList { items: views(schema.tech_leadership@), trailing_spacer: false },
        ),
    )
}

pub open spec fn projects_part(schema: CVSchema) -> Seq<SectionView> {
    opt_section(
        schema.selected_projects.len() > 0,
        section_view(
            "Selected Projects"@,
            0,
            BlockView::BulletList {
                items: project_lines(schema.selected_projects@),
                trailing_spacer: false,
            },
        ),
    )
}

pub open spec fn experience_part(schema: CVSchema) -> Seq<SectionView> {
    opt_section(
        schema.experience.len() > 0,
        section_view(
            "Experience"@,
            0,
            BlockView::EntryList {
                entries: schema.experience@.map_values(|j: CVExperience| experience_view(j)),
                variant: EntryVariant::Ruled,
                wrap: true,
            },
        ),
    )
}

pub open spec fn skills_part(schema: CVSchema) -> Seq<SectionView> {
    let rows = skill_rows_spec(schema.technical_skills);
    opt_section(rows.len() > 0, section_view("Technical Skills"@, 8, BlockView::LabelValue { rows }))
}

pub open spec fn languages_part(schema: CVSchema) -> Seq<SectionView> {
    opt_section(
        schema.languages.len() > 0,
        section_view(
            "Languages"@,
            0,
            BlockView::Prose {
                paragraphs: seq![join_seq(language_items(schema.languages@), ", "@)],
                variant: ProseVariant::Body,
            },
        ),
    )
}

pub open spec fn education_part(schema: CVSchema) -> Seq<SectionView> {
    opt_section(
        schema.education.len() > 0,
        section_view(
            "Education"@,
            0,
            BlockView::EntryList {
                entries: schema.education@.map_values(|e: CVEducation| education_view(e)),
                variant: EntryVariant::Plain,
                wrap: false,
            },
        ),
    )
}

/// The sections of the document, in their fixed order. Each is present only
/// when its data is not empty: Profile, Core Competencies, Specialization
/// Focus, Key Achievements, Tech Leadership, Selected Projects, Experience,
/// Early Career, Technical Skills, Languages, Education.
pub open spec fn sections_spec(schema: CVSchema) -> Seq<SectionView> {
    profile_part(schema) + competencies_part(schema) + focus_part(schema) + achievements_part(
        schema,
    ) + leadership_part(schema) + projects_part(schema) + experience_part(schema)
        + early_career_part(schema.early_career) + skills_part(schema) + languages_part(schema)
        + education_part(schema)
}

fn project_bullets(projects: &Vec<CVProject>) -> (r: Vec<String>)
    ensures
        views(r@) == project_lines(projects@),
{
    let mut out: Vec<String> = Vec::new();
    let n = projects.len();
    let mut i: usize = 0;
    while i < n
        invariant
            n == projects.len(),
            i <= n,
            views(out@) == project_lines(projects@).take(i as int),
        decreases n - i,
    {
        let p = &projects[i];
        let mut line = p.name.clone();
        line.append(" \u{2014} ");
        line.append(p.description.as_str());
        line.append(" \u{b7} ");
        line.append(p.date_range.as_str());
        assert(project_lines(projects@).take(i + 1) =~= project_lines(projects@).take(
            i as int,
        ).push(line@));
        out.push(line);
        assert(views(out@) =~= project_lines(projects@).take(i + 1));
        i += 1;
    }
    assert(project_lines(projects@).take(n as int) =~= project_lines(projects@));
    out
}

fn language_line(langs: &Vec<CVLanguage>) -> (r: String)
    ensures
        r@ == join_seq(language_items(langs@), ", "@),
{
    let mut items: Vec<String> = Vec::new();
    let n = langs.len();
    let mut i: usize = 0;
    while i < n
        invariant
            n == langs.len(),
            i <= n,
            views(items@) == language_items(langs@).take(i as int),
        decreases n - i,
    {
        let l = &langs[i];
        let mut item = l.name.clone();
        item.append(" (");
        item.append(l.proficiency.as_str());
        item.append(")");
        assert(language_items(langs@).take(i + 1) =~= language_items(langs@).take(
            i as int,
        ).push(item@));
        items.push(item);
        assert(views(items@) =~= language_items(langs@).take(i + 1));
        i += 1;
    }
    assert(language_items(langs@).take(n as int) =~= language_items(langs@));
    join(&items, ", ")
}

fn experience_entries(jobs: &Vec<CVExperience>) -> (r: Vec<Entry>)
    ensures
        entry_views(r@) == jobs@.map_values(|j: CVExperience| experience_view(j)),
{
    let ghost all = jobs@.map_values(|j: CVExperience| experience_view(j));
    let mut out: Vec<Entry> = Vec::new();
    let n = jobs.len();
    let mut i: usize = 0;
    while i < n
        invariant
            n == jobs.len(),
            i <= n,
            all == jobs@.map_values(|j: CVExperience| experience_view(j)),
            entry_views(out@) == all.take(i as int),
        decreases n - i,
    {
        let e = experience_entry(&jobs[i]);
        assert(all.take(i + 1) =~= all.take(i as int).push(e@));
        out.push(e);
        assert(entry_views(out@) =~= all.take(i + 1));
        i += 1;
    }
    assert(all.take(n as int) =~= all);
    out
}

fn education_entries(edus: &Vec<CVEducation>) -> (r: Vec<Entry>)
    ensures
        entry_views(r@) == edus@.map_values(|e: CVEducation| education_view(e)),
{
    let ghost all = edus@.map_values(|e: CVEducation| education_view(e));
    let mut out: Vec<Entry> = Vec::new();
    let n = edus.len();
    let mut i: usize = 0;
    while i < n
        invariant
            n == edus.len(),
            i <= n,
            all == edus@.map_values(|e: CVEducation| education_view(e)),
            entry_views(out@) == all.take(i as int),
        decreases n - i,
    {
        let e = education_entry(&edus[i]);
        assert(all.take(i + 1) =~= all.take(i as int).push(e@));
        out.push(e);
        assert(entry_views(out@) =~= all.take(i + 1));
        i += 1;
    }
    assert(all.take(n as int) =~= all);
    out
}

} // verus!
verus! {

/// Append `s` to `sections` when `present`.
fn push_if(sections: &mut Vec<Section>, present: bool, s: Section)
    ensures
        section_views(final(sections)@) == section_views(old(sections)@) + opt_section(present, s@),
{
    if present {
        sections.push(s);
        assert(section_views(sections@) =~= section_views(old(sections)@) + seq![s@]);
    } else {
        assert(section_views(sections@) =~= section_views(old(sections)@) + Seq::<SectionView>::empty());
    }
}

/// The sections of the document, in order, each present only when its data
/// is not empty.
#[verifier::rlimit(60)]
#[verifier::spinoff_prover]
pub fn build_sections(schema: &CVSchema) -> (r: Vec<Section>)
    ensures
        section_views(r@) == sections_spec(*schema),
{
    let mut sections: Vec<Section> = Vec::new();
    let ghost sv = *schema;

    // Profile
    let profile = paragraphs(schema.profile.as_str());
    let has_profile = profile.len() > 0;
    let s = Section::new(owned("Profile"), Block::Prose { paragraphs: profile, variant: ProseVariant::Lead });
    push_if(&mut sections, has_profile, s);
    assert(section_views(sections@) =~= profile_part(sv));
    let ghost acc = section_views(sections@);

    // Core Competencies
    let s = Section::new(
        owned("Core Competencies"),
        Block::InlineList {
            items: clone_strings(&schema.core_competencies),
            separator: owned(" \u{b7} "),
            rows: 2,
        },
    );
    push_if(&mut sections, schema.core_competencies.len() > 0, s);
    assert(section_views(sections@) == acc + competencies_part(sv));
    let ghost acc = section_views(sections@);

    // Specialization Focus
    let s = Section::new(
        owned("Specialization Focus"),
        Block::InlineList {
            items: clone_strings(&schema.technical_focus_areas),
            separator: owned(" \u{b7} "),
            rows: 1,
        },
    );
    push_if(&mut sections, schema.technical_focus_areas.len() > 0, s);
    assert(section_views(sections@) == acc + focus_part(sv));
    let ghost acc = section_views(sections@);

    // Key Achievements
    let s = Section::new(
        owned("Key Achievements"),
        Block::BulletList { items: clone_strings(&schema.key_achievements), trailing_spacer: true },
    );
    push_if(&mut sections, schema.key_achievements.len() > 0, s);
    assert(section_views(sections@) == acc + achievements_part(sv));
    let ghost acc = section_views(sections@);

    // Tech Leadership
    let s = Section::new(
        owned("Tech Leadership"),
        Block::BulletList { items: clone_strings(&schema.tech_leadership), trailing_spacer: false },
    ).with_margin_top(4);
    push_if(&mut sections, schema.tech_leadership.len() > 0, s);
    assert(section_views(sections@) == acc + leadership_part(sv));
    let ghost acc = section_views(sections@);

    // Selected Projects
    let s = Section::new(
        owned("Selected Projects"),
        Block::BulletList { items: project_bullets(&schema.selected_projects), trailing_spacer: false },
    );
    push_if(&mut sections, schema.selected_projects.len() > 0, s);
    assert(section_views(sections@) == acc + projects_part(sv));
    let ghost acc = section_views(sections@);

    // Experience
    let s = Section::new(
        owned("Experience"),
        Block::EntryList {
            entries: experience_entries(&schema.experience),
            variant: EntryVariant::Ruled,
            wrap: true,
        },
    );
    push_if(&mut sections, schema.experience.len() > 0, s);
    assert(section_views(sections@) == acc + experience_part(sv));
    let ghost acc = section_views(sections@);

    // Early Career
    match &schema.early_career {
        Some(early) if !is_blank_str(early.date_range.as_str()) || !is_blank_str(
            early.summary.as_str(),
        ) => {
            let mut line = early.date_range.clone();
            line.append(" \u{b7} ");
            line.append(early.summary.as_str());
            let mut paras: Vec<String> = Vec::new();
            paras.push(line);
            let s = Section::new(
                owned("Early Career"),
                Block::Prose { paragraphs: paras, variant: ProseVariant::Body },
            );
            assert(views(paras@) =~= seq![line@]);
            assert(s@ == early_career_part(sv.early_career)[0]);
            sections.push(s);
            assert(section_views(sections@) =~= acc + early_career_part(sv.early_career));
        },
        _ => {
            assert(section_views(sections@) =~= acc + early_career_part(sv.early_career));
        },
    }
    let ghost acc = section_views(sections@);

    // Technical Skills
    let rows = skill_rows(&schema.technical_skills);
    let has_rows = rows.len() > 0;
    let s = Section::new(owned("Technical Skills"), Block::LabelValue { rows }).with_margin_top(8);
    push_if(&mut sections, has_rows, s);
    assert(section_views(sections@) == acc + skills_part(sv));
    let ghost acc = section_views(sections@);

    // Languages
    let mut language_paras: Vec<String> = Vec::new();
    let line = language_line(&schema.languages);
    language_paras.push(line);
    assert(views(language_paras@) =~= seq![line@]);
    let s = Section::new(
        owned("Languages"),
        Block::Prose { paragraphs: language_paras, variant: ProseVariant::Body },
    );
    push_if(&mut sections, schema.languages.len() > 0, s);
    assert(section_views(sections@) == acc + languages_part(sv));
    let ghost acc = section_views(sections@);

    // Education
    let s = Section::new(
        owned("Education"),
        Block::EntryList {
            entries: education_entries(&schema.education),
            variant: EntryVariant::Plain,
            wrap: false,
        },
    );
    push_if(&mut sections, schema.education.len() > 0, s);
    assert(section_views(sections@) == acc + education_part(sv));
    sections
}

} // verus!
verus! {

/// The block has something to show: a paragraph, an item, an entry or a row.
pub open spec fn block_has_content(b: BlockView) -> bool {
    match b {
        BlockView::Prose { paragraphs, .. } => paragraphs.len() > 0,
        BlockView::InlineList { items, .. } => items.len() > 0,
        BlockView::BulletList { items, .. } => items.len() > 0,
        BlockView::EntryList { entries, .. } => entries.len() > 0,
        BlockView::LabelValue { rows } => rows.len() > 0,
    }
}

pub open spec fn all_have_content(s: Seq<SectionView>) -> bool {
    forall|i: int| 0 <= i < s.len() ==> block_has_content(#[trigger] s[i].block)
}

proof fn lemma_content_concat(a: Seq<SectionView>, b: Seq<SectionView>)
    requires
        all_have_content(a),
        all_have_content(b),
    ensures
        all_have_content(a + b),
{
    assert forall|i: int| 0 <= i < (a + b).len() implies block_has_content(#[trigger] (a + b)[i].block) by {
        if i < a.len() {
            assert((a + b)[i] == a[i]);
        } else {
            assert((a + b)[i] == b[i - a.len()]);
        }
    }
}

/// The early career has something to show: a date range or a summary that
/// is not blank.
pub open spec fn early_has_data(early: Option<CVEarlyCareer>) -> bool {
    match early {
        Some(e) => !is_blank(e.date_range@) || !is_blank(e.summary@),
        None => false,
    }
}

/// Empty sections remove themselves, heading included: each section of the
/// document is there exactly when its data is not empty (its list has an
/// entry, its text a paragraph, the early career a non-blank date range or
/// summary, the skills a category with an entry), and every section that is
/// there has something in its block, so no heading stands alone.
pub proof fn law_no_empty_section(schema: CVSchema)
    ensures
        all_have_content(sections_spec(schema)),
        profile_part(schema).len() > 0 <==> paragraphs_spec(schema.profile@).len() > 0,
        competencies_part(schema).len() > 0 <==> schema.core_competencies.len() > 0,
        focus_part(schema).len() > 0 <==> schema.technical_focus_areas.len() > 0,
        achievements_part(schema).len() > 0 <==> schema.key_achievements.len() > 0,
        leadership_part(schema).len() > 0 <==> schema.tech_leadership.len() > 0,
        projects_part(schema).len() > 0 <==> schema.selected_projects.len() > 0,
        experience_part(schema).len() > 0 <==> schema.experience.len() > 0,
        early_career_part(schema.early_career).len() > 0 <==> early_has_data(schema.early_career),
        skills_part(schema).len() > 0 <==> skill_rows_spec(schema.technical_skills).len() > 0,
        languages_part(schema).len() > 0 <==> schema.languages.len() > 0,
        education_part(schema).len() > 0 <==> schema.education.len() > 0,
{
    let p1 = profile_part(schema);
    let p2 = competencies_part(schema);
    let p3 = focus_part(schema);
    let p4 = achievements_part(schema);
    let p5 = leadership_part(schema);
    let p6 = projects_part(schema);
    let p7 = experience_part(schema);
    let p8 = early_career_part(schema.early_career);
    let p9 = skills_part(schema);
    let p10 = languages_part(schema);
    let p11 = education_part(schema);
    assert(all_have_content(p1));
    assert(all_have_content(p2));
    assert(all_have_content(p3));
    assert(all_have_content(p4));
    assert(all_have_content(p5));
    assert(all_have_content(p6));
    assert(all_have_content(p7));
    assert(all_have_content(p8));
    assert(all_have_content(p9));
    assert(all_have_content(p10));
    assert(all_have_content(p11));
    lemma_content_concat(p1, p2);
    lemma_content_concat(p1 + p2, p3);
    lemma_content_concat(p1 + p2 + p3, p4);
    lemma_content_concat(p1 + p2 + p3 + p4, p5);
    lemma_content_concat(p1 + p2 + p3 + p4 + p5, p6);
    lemma_content_concat(p1 + p2 + p3 + p4 + p5 + p6, p7);
    lemma_content_concat(p1 + p2 + p3 + p4 + p5 + p6 + p7, p8);
    lemma_content_concat(p1 + p2 + p3 + p4 + p5 + p6 + p7 + p8, p9);
    lemma_content_concat(p1 + p2 + p3 + p4 + p5 + p6 + p7 + p8 + p9, p10);
    lemma_content_concat(p1 + p2 + p3 + p4 + p5 + p6 + p7 + p8 + p9 + p10, p11);
}

} // verus!
verus! {

/// A paragraph as `paragraphs` makes it: not empty, starting and ending with
/// a character that is not white space, and holding no line break.
pub open spec fn clean_paragraph(s: Seq<char>) -> bool {
    &&& s.len() > 0
    &&& !is_ws(s[0])
    &&& !is_ws(s.last())
    &&& forall|i: int| 0 <= i < s.len() ==> #[trigger] s[i] != '\n'
}

proof fn lemma_clean_trim(s: Seq<char>)
    requires
        clean_paragraph(s),
    ensures
        trim_seq(s) == s,
{
    lemma_trim_start_skip(s, 0);
    assert(s.skip(0) =~= s);
    lemma_trim_end_take(s, s.len() as int);
    assert(s.take(s.len() as int) =~= s);
}

/// Trimming a line that is not blank leaves a piece of it that starts with a
/// character that is not white space.
proof fn lemma_trim_start_piece(s: Seq<char>)
    requires
        !is_blank(s),
    ensures
        trim_start_seq(s).len() > 0,
        !is_ws(trim_start_seq(s)[0]),
        exists|k: int| 0 <= k <= s.len() && trim_start_seq(s) == s.skip(k),
    decreases s.len(),
{
    if s.len() > 0 && is_ws(s[0]) {
        let i = choose|i: int| 0 <= i < s.len() && !is_ws(#[trigger] s[i]);
        assert(s.drop_first()[i - 1] == s[i]);
        lemma_trim_start_piece(s.drop_first());
        let k = choose|k: int|
            0 <= k <= s.drop_first().len() && trim_start_seq(s.drop_first()) == s.drop_first().skip(k);
        assert(s.drop_first().skip(k) =~= s.skip(k + 1));
    } else {
        let i = choose|i: int| 0 <= i < s.len() && !is_ws(#[trigger] s[i]);
        assert(s.skip(0) =~= s);
    }
}

proof fn lemma_trim_end_piece(s: Seq<char>)
    requires
        s.len() > 0,
        !is_ws(s[0]),
    ensures
        trim_end_seq(s).len() > 0,
        trim_end_seq(s)[0] == s[0],
        !is_ws(trim_end_seq(s).last()),
        exists|m: int| 0 < m <= s.len() && trim_end_seq(s) == s.take(m),
    decreases s.len(),
{
    if is_ws(s.last()) {
        assert(s.len() > 1);
        assert(s.drop_last()[0] == s[0]);
        lemma_trim_end_piece(s.drop_last());
        let m = choose|m: int|
            0 < m <= s.drop_last().len() && trim_end_seq(s.drop_last()) == s.drop_last().take(m);
        assert(s.drop_last().take(m) =~= s.take(m));
    } else {
        assert(s.take(s.len() as int) =~= s);
    }
}

/// A line with no line break that is not blank trims to a clean paragraph.
proof fn lemma_trim_clean(line: Seq<char>)
    requires
        !is_blank(line),
        forall|i: int| 0 <= i < line.len() ==> #[trigger] line[i] != '\n',
    ensures
        clean_paragraph(trim_seq(line)),
{
    lemma_trim_start_piece(line);
    let a = trim_start_seq(line);
    let k = choose|k: int| 0 <= k <= line.len() && a == line.skip(k);
    lemma_trim_end_piece(a);
    let t = trim_end_seq(a);
    let m = choose|m: int| 0 < m <= a.len() && t == a.take(m);
    assert forall|i: int| 0 <= i < t.len() implies #[trigger] t[i] != '\n' by {
        assert(t[i] == line[i + k]);
    }
}

/// Clean paragraphs joined by single spaces make a clean paragraph.
proof fn lemma_join_clean(parts: Seq<Seq<char>>)
    requires
        parts.len() > 0,
        forall|i: int| 0 <= i < parts.len() ==> clean_paragraph(#[trigger] parts[i]),
    ensures
        clean_paragraph(join_seq(parts, " "@)),
    decreases parts.len(),
{
    reveal_strlit(" ");
    if parts.len() > 1 {
        let front = parts.drop_last();
        assert forall|i: int| 0 <= i < front.len() implies clean_paragraph(#[trigger] front[i]) by {
            assert(front[i] == parts[i]);
        }
        lemma_join_clean(front);
        let j = join_seq(front, " "@);
        let p = parts.last();
        assert(clean_paragraph(p));
        let r = j + " "@ + p;
        assert(join_seq(parts, " "@) == r);
        assert(r[0] == j[0]);
        assert(r.last() == p.last());
        assert forall|i: int| 0 <= i < r.len() implies #[trigger] r[i] != '\n' by {
            if i < j.len() {
                assert(r[i] == j[i]);
            } else if i == j.len() {
                assert(r[i] == ' ');
            } else {
                assert(r[i] == p[i - j.len() - 1]);
            }
        }
    } else {
        assert(clean_paragraph(parts[0]));
    }
}

/// No line of a split holds a line break.
proof fn lemma_split_lines_no_break(s: Seq<char>)
    ensures
        forall|j: int, i: int|
            0 <= j < split_lines(s).len() && 0 <= i < split_lines(s)[j].len() ==> #[trigger] split_lines(
                s,
            )[j][i] != '\n',
    decreases s.len(),
{
    if s.len() > 0 {
        lemma_split_lines_no_break(s.drop_last());
        lemma_split_lines_nonempty(s.drop_last());
        let rest = split_lines(s.drop_last());
        if s.last() != '\n' {
            let l = rest.last().push(s.last());
            assert forall|j: int, i: int|
                0 <= j < split_lines(s).len() && 0 <= i < split_lines(s)[j].len() implies #[trigger] split_lines(
                s,
            )[j][i] != '\n' by {
                if j < rest.len() - 1 {
                    assert(split_lines(s)[j] == rest[j]);
                } else {
                    assert(split_lines(s)[j] == l);
                    if i < rest.last().len() {
                        assert(l[i] == rest[rest.len() - 1][i]);
                    }
                }
            }
        } else {
            assert forall|j: int, i: int|
                0 <= j < split_lines(s).len() && 0 <= i < split_lines(s)[j].len() implies #[trigger] split_lines(
                s,
            )[j][i] != '\n' by {
                if j < rest.len() {
                    assert(split_lines(s)[j] == rest[j]);
                }
            }
        }
    }
}

/// The paragraph scan over lines with no line break makes clean paragraphs,
/// and its open paragraph holds clean lines.
proof fn lemma_para_scan_clean(lines: Seq<Seq<char>>)
    requires
        forall|j: int, i: int|
            0 <= j < lines.len() && 0 <= i < lines[j].len() ==> #[trigger] lines[j][i] != '\n',
    ensures
        forall|i: int| 0 <= i < para_scan(lines).0.len() ==> clean_paragraph(#[trigger] para_scan(lines).0[i]),
        forall|i: int| 0 <= i < para_scan(lines).1.len() ==> clean_paragraph(#[trigger] para_scan(lines).1[i]),
    decreases lines.len(),
{
    if lines.len() > 0 {
        let front = lines.drop_last();
        assert forall|j: int, i: int| 0 <= j < front.len() && 0 <= i < front[j].len() implies #[trigger] front[j][i]
            != '\n' by {
            assert(front[j] == lines[j]);
        }
        lemma_para_scan_clean(front);
        let (out, cur) = para_scan(front);
        let line = lines.last();
        if is_blank(line) {
            if cur.len() > 0 {
                lemma_join_clean(cur);
            }
        } else {
            assert forall|i: int| 0 <= i < line.len() implies #[trigger] line[i] != '\n' by {
                assert(line[i] == lines[lines.len() - 1][i]);
            }
            lemma_trim_clean(line);
        }
    }
}

/// Every paragraph `paragraphs` makes is clean.
proof fn lemma_paragraphs_clean(text: Seq<char>)
    ensures
        forall|i: int| 0 <= i < paragraphs_spec(text).len() ==> clean_paragraph(#[trigger] paragraphs_spec(text)[i]),
{
    lemma_split_lines_no_break(text);
    lemma_para_scan_clean(split_lines(text));
    let (out, cur) = para_scan(split_lines(text));
    if cur.len() > 0 {
        lemma_join_clean(cur);
    }
}

/// Appending characters with no line break extends the last line.
proof fn lemma_split_append(x: Seq<char>, y: Seq<char>)
    requires
        forall|i: int| 0 <= i < y.len() ==> #[trigger] y[i] != '\n',
    ensures
        split_lines(x + y) == split_lines(x).update(
            split_lines(x).len() - 1,
            split_lines(x).last() + y,
        ),
    decreases y.len(),
{
    lemma_split_lines_nonempty(x);
    let l = split_lines(x);
    if y.len() == 0 {
        assert(x + y =~= x);
        assert(l.last() + y =~= l.last());
        assert(l.update(l.len() - 1, l.last()) =~= l);
    } else {
        let y0 = y.drop_last();
        assert forall|i: int| 0 <= i < y0.len() implies #[trigger] y0[i] != '\n' by {
            assert(y0[i] == y[i]);
        }
        lemma_split_append(x, y0);
        assert((x + y).drop_last() =~= x + y0);
        assert((x + y).last() == y.last());
        let rest = split_lines(x + y0);
        assert(rest =~= l.update(l.len() - 1, l.last() + y0));
        assert((l.last() + y0).push(y.last()) =~= l.last() + y);
        assert(rest.update(rest.len() - 1, rest.last().push(y.last())) =~= l.update(
            l.len() - 1,
            l.last() + y,
        ));
    }
}

/// The lines of clean paragraphs joined by blank lines: each paragraph, with
/// an empty line between neighbours.
pub open spec fn para_lines(ps: Seq<Seq<char>>) -> Seq<Seq<char>>
    decreases ps.len(),
{
    if ps.len() <= 1 {
        ps
    } else {
        para_lines(ps.drop_last()).push(Seq::empty()).push(ps.last())
    }
}

proof fn lemma_split_join(ps: Seq<Seq<char>>)
    requires
        ps.len() > 0,
        forall|i: int| 0 <= i < ps.len() ==> clean_paragraph(#[trigger] ps[i]),
    ensures
        split_lines(join_seq(ps, "\n\n"@)) == para_lines(ps),
    decreases ps.len(),
{
    reveal_strlit("\n\n");
    let p = ps.last();
    assert(clean_paragraph(ps[ps.len() - 1]));
    assert forall|i: int| 0 <= i < p.len() implies #[trigger] p[i] != '\n' by {
        assert(p[i] == ps[ps.len() - 1][i]);
    }
    if ps.len() == 1 {
        lemma_split_append(Seq::empty(), p);
        assert(Seq::<char>::empty() + p =~= p);
        assert(split_lines(Seq::<char>::empty()) == seq![Seq::<char>::empty()]);
        assert(split_lines(p) =~= seq![p]);
        assert(para_lines(ps) =~= seq![p]);
    } else {
        let front = ps.drop_last();
        assert forall|i: int| 0 <= i < front.len() implies clean_paragraph(#[trigger] front[i]) by {
            assert(front[i] == ps[i]);
        }
        lemma_split_join(front);
        let j = join_seq(front, "\n\n"@);
        let j1 = j.push('\n');
        let j2 = j1.push('\n');
        assert(join_seq(ps, "\n\n"@) =~= j2 + p);
        assert(j2.drop_last() =~= j1);
        assert(j1.drop_last() =~= j);
        lemma_split_lines_nonempty(j);
        lemma_split_append(j2, p);
        let l2 = split_lines(j2);
        assert(j1.last() == '\n');
        assert(j2.last() == '\n');
        assert(split_lines(j1) == split_lines(j).push(Seq::empty()));
        assert(l2 == split_lines(j1).push(Seq::empty()));
        assert(l2 == split_lines(j).push(Seq::empty()).push(Seq::empty()));
        assert(Seq::<char>::empty() + p =~= p);
        assert(l2.update(l2.len() - 1, l2.last() + p) =~= split_lines(j).push(Seq::empty()).push(p));
    }
}

proof fn lemma_scan_para_lines(ps: Seq<Seq<char>>)
    requires
        ps.len() > 0,
        forall|i: int| 0 <= i < ps.len() ==> clean_paragraph(#[trigger] ps[i]),
    ensures
        para_scan(para_lines(ps)) == (ps.drop_last(), seq![ps.last()]),
    decreases ps.len(),
{
    let p = ps.last();
    assert(clean_paragraph(ps[ps.len() - 1]));
    lemma_clean_trim(p);
    assert(!is_blank(p));
    if ps.len() == 1 {
        assert(para_lines(ps) == ps);
        assert(ps.drop_last() =~= Seq::<Seq<char>>::empty());
        assert(ps.drop_last() == Seq::<Seq<char>>::empty());
        assert(para_scan(Seq::<Seq<char>>::empty()) == (Seq::<Seq<char>>::empty(), Seq::<Seq<char>>::empty()));
        assert(Seq::<Seq<char>>::empty().push(trim_seq(p)) =~= seq![trim_seq(p)]);
        assert(para_scan(ps) == (Seq::<Seq<char>>::empty(), seq![trim_seq(p)]));
    } else {
        let front = ps.drop_last();
        assert forall|i: int| 0 <= i < front.len() implies clean_paragraph(#[trigger] front[i]) by {
            assert(front[i] == ps[i]);
        }
        lemma_scan_para_lines(front);
        let ll = para_lines(front);
        let with_gap = ll.push(Seq::<char>::empty());
        assert(with_gap.drop_last() =~= ll);
        assert(is_blank(Seq::<char>::empty()));
        assert(join_seq(seq![front.last()], " "@) == front.last());
        assert(para_scan(with_gap) == (front.drop_last().push(front.last()), Seq::<Seq<char>>::empty()));
        assert(front.drop_last().push(front.last()) =~= front);
        let all = with_gap.push(p);
        assert(all.drop_last() =~= with_gap);
        assert(Seq::<Seq<char>>::empty().push(p) =~= seq![p]);
        assert(para_scan(all) == (front, seq![p]));
    }
}

/// Splitting is stable: the paragraphs of a text, joined again with blank
/// lines between them, split into the same paragraphs.
pub proof fn law_paragraphs_idempotent(text: Seq<char>)
    ensures
        paragraphs_spec(join_seq(paragraphs_spec(text), "\n\n"@)) == paragraphs_spec(text),
{
    let ps = paragraphs_spec(text);
    if ps.len() == 0 {
        assert(join_seq(ps, "\n\n"@) == Seq::<char>::empty());
        assert(split_lines(Seq::<char>::empty()) == seq![Seq::<char>::empty()]);
        let ls = seq![Seq::<char>::empty()];
        assert(ls.drop_last() =~= Seq::<Seq<char>>::empty());
        assert(is_blank(ls.last()));
        assert(para_scan(Seq::<Seq<char>>::empty()) == (Seq::<Seq<char>>::empty(), Seq::<Seq<char>>::empty()));
        assert(para_scan(ls) == (Seq::<Seq<char>>::empty(), Seq::<Seq<char>>::empty()));
        assert(paragraphs_spec(Seq::<char>::empty()) =~= ps);
    } else {
        lemma_paragraphs_clean(text);
        lemma_split_join(ps);
        lemma_scan_para_lines(ps);
        assert(join_seq(seq![ps.last()], " "@) == ps.last());
        assert(ps.drop_last().push(ps.last()) =~= ps);
    }
}

} // verus!
verus! {

/// An entry keeps what it lists whole: a job is titled by its role and keeps
/// every highlight as a bullet, in order; a degree is titled by its
/// institution, has no summary and keeps every honour as a bullet, in order; a
/// job's summary is shown exactly when it is not blank.
pub proof fn law_entries_keep_their_lists(job: CVExperience, edu: CVEducation)
    ensures
        experience_view(job).title == job.role@,
        experience_view(job).bullets.len() == job.highlights.len(),
        forall|i: int|
            0 <= i < job.highlights.len() ==> #[trigger] experience_view(job).bullets[i] == job.highlights@[i]@,
        experience_view(job).summary == (if is_blank(job.summary@) {
            None
        } else {
            Some(job.summary@)
        }),
        education_view(edu).title == edu.institution@,
        education_view(edu).summary is None,
        education_view(edu).bullets.len() == edu.honors.len(),
        forall|i: int|
            0 <= i < edu.honors.len() ==> #[trigger] education_view(edu).bullets[i] == edu.honors@[i]@,
{
}

} // verus!
verus! {

/// No row of `drop_empty_values(r)` carries a label that no row of `r` carries.
proof fn lemma_drop_empty_values_no_label(r: Seq<(Seq<char>, Seq<char>)>, label: Seq<char>)
    requires
        forall|k: int| 0 <= k < r.len() ==> #[trigger] r[k].0 != label,
    ensures
        forall|i: int| 0 <= i < drop_empty_values(r).len() ==> #[trigger] drop_empty_values(r)[i].0 != label,
    decreases r.len(),
{
    if r.len() > 0 {
        let f = r.drop_last();
        assert forall|k: int| 0 <= k < f.len() implies #[trigger] f[k].0 != label by {
            assert(f[k] == r[k]);
        }
        lemma_drop_empty_values_no_label(f, label);
        let o = drop_empty_values(f);
        if r.last().1.len() != 0 {
            let out = o.push(r.last());
            assert forall|i: int| 0 <= i < out.len() implies #[trigger] out[i].0 != label by {
                if i < o.len() {
                    assert(out[i] == o[i]);
                }
            }
        }
    }
}

/// Where the labels of `r` are all different, the row labelled like `r[k]`
/// in `drop_empty_values(r)` holds `r[k]`'s value, and is there exactly when
/// that value is not empty.
proof fn lemma_drop_empty_values_labels(r: Seq<(Seq<char>, Seq<char>)>, k: int)
    requires
        0 <= k < r.len(),
        forall|a: int, b: int| 0 <= a < r.len() && 0 <= b < r.len() && a != b ==> #[trigger] r[a].0 != #[trigger] r[b].0,
    ensures
        labels_field(drop_empty_values(r), r[k].0, r[k].1),
    decreases r.len(),
{
    let f = r.drop_last();
    let o = drop_empty_values(f);
    let out = drop_empty_values(r);
    let n = r.len() - 1;
    let label = r[k].0;
    let value = r[k].1;
    assert forall|a: int, b: int| 0 <= a < f.len() && 0 <= b < f.len() && a != b implies #[trigger] f[a].0
        != #[trigger] f[b].0 by {
        assert(f[a] == r[a] && f[b] == r[b]);
    }
    if k < n {
        assert(f[k] == r[k]);
        lemma_drop_empty_values_labels(f, k);
        if r.last().1.len() != 0 {
            assert(out == o.push(r.last()));
            assert(r[n].0 != label);
            assert forall|i: int| 0 <= i < out.len() && #[trigger] out[i].0 == label implies out[i].1 == value by {
                if i < o.len() {
                    assert(out[i] == o[i]);
                }
            }
            if value.len() > 0 {
                let i = choose|i: int| 0 <= i < o.len() && #[trigger] o[i] == (label, value);
                assert(out[i] == o[i]);
            }
        }
    } else {
        assert forall|m: int| 0 <= m < f.len() implies #[trigger] f[m].0 != label by {
            assert(f[m] == r[m]);
        }
        lemma_drop_empty_values_no_label(f, label);
        if r.last().1.len() != 0 {
            assert(out == o.push(r.last()));
            assert forall|i: int| 0 <= i < out.len() && #[trigger] out[i].0 == label implies out[i].1 == value by {
                if i < o.len() {
                    assert(out[i] == o[i]);
                }
            }
            assert(out[o.len() as int] == (label, value));
        }
    }
}

/// The skill row labelled `label`, if any, holds `value`, and there is one
/// whenever `value` is not empty.
pub open spec fn labels_field(rows: Seq<(Seq<char>, Seq<char>)>, label: Seq<char>, value: Seq<char>) -> bool {
    &&& forall|i: int| 0 <= i < rows.len() && #[trigger] rows[i].0 == label ==> rows[i].1 == value
    &&& value.len() > 0 ==> exists|i: int| 0 <= i < rows.len() && #[trigger] rows[i] == (label, value)
}

/// Each skill row carries the label of the schema field it is joined from:
/// `Languages` the languages, `Frameworks` the frameworks, `AI / Machine
/// Learning` the AI/ML skills, `Blockchain / Web3` the blockchain skills,
/// `Mobile` the mobile skills, `Backend / Cloud` the backend/cloud skills and
/// `Tools` the tools, each joined with `, `; a category has its row exactly
/// when that joined value is not empty.
pub proof fn law_skill_rows_labelled_by_field(skills: CVTechnicalSkills)
    ensures
        labels_field(skill_rows_spec(skills), "Languages"@, join_seq(views(skills.languages@), ", "@)),
        labels_field(skill_rows_spec(skills), "Frameworks"@, join_seq(views(skills.frameworks@), ", "@)),
        labels_field(
            skill_rows_spec(skills),
            "AI / Machine Learning"@,
            join_seq(views(skills.ai_ml_skills@), ", "@),
        ),
        labels_field(
            skill_rows_spec(skills),
            "Blockchain / Web3"@,
            join_seq(views(skills.blockchain_skills@), ", "@),
        ),
        labels_field(skill_rows_spec(skills), "Mobile"@, join_seq(views(skills.mobile_skills@), ", "@)),
        labels_field(
            skill_rows_spec(skills),
            "Backend / Cloud"@,
            join_seq(views(skills.backend_cloud_skills@), ", "@),
        ),
        labels_field(skill_rows_spec(skills), "Tools"@, join_seq(views(skills.tools@), ", "@)),
{
    reveal_strlit("Languages");
    reveal_strlit("Frameworks");
    reveal_strlit("AI / Machine Learning");
    reveal_strlit("Blockchain / Web3");
    reveal_strlit("Mobile");
    reveal_strlit("Backend / Cloud");
    reveal_strlit("Tools");
    let c = skill_candidates(skills);
    assert(c[0].0.len() == 9);
    assert(c[1].0.len() == 10);
    assert(c[2].0.len() == 21);
    assert(c[3].0.len() == 17);
    assert(c[4].0.len() == 6);
    assert(c[5].0.len() == 15);
    assert(c[6].0.len() == 5);
    assert forall|a: int, b: int| 0 <= a < c.len() && 0 <= b < c.len() && a != b implies #[trigger] c[a].0
        != #[trigger] c[b].0 by {
        assert(c[a].0.len() != c[b].0.len());
    }
    lemma_drop_empty_values_labels(c, 0);
    lemma_drop_empty_values_labels(c, 1);
    lemma_drop_empty_values_labels(c, 2);
    lemma_drop_empty_values_labels(c, 3);
    lemma_drop_empty_values_labels(c, 4);
    lemma_drop_empty_values_labels(c, 5);
    lemma_drop_empty_values_labels(c, 6);
}

/// Where a skill category's label stands in the skills list: `Languages`,
/// `Frameworks`, `AI / Machine Learning`, `Blockchain / Web3`, `Mobile`,
/// `Backend / Cloud`, `Tools`; any other label after them all.
pub open spec fn skill_label_rank(label: Seq<char>) -> int {
    if label == "Languages"@ {
        0
    } else if label == "Frameworks"@ {
        1
    } else if label == "AI / Machine Learning"@ {
        2
    } else if label == "Blockchain / Web3"@ {
        3
    } else if label == "Mobile"@ {
        4
    } else if label == "Backend / Cloud"@ {
        5
    } else if label == "Tools"@ {
        6
    } else {
        7
    }
}

proof fn lemma_drop_empty_values_rank_below(r: Seq<(Seq<char>, Seq<char>)>, bound: int)
    requires
        forall|k: int| 0 <= k < r.len() ==> skill_label_rank(#[trigger] r[k].0) < bound,
    ensures
        forall|i: int|
            0 <= i < drop_empty_values(r).len() ==> skill_label_rank(#[trigger] drop_empty_values(r)[i].0) < bound,
    decreases r.len(),
{
    if r.len() > 0 {
        let f = r.drop_last();
        assert forall|k: int| 0 <= k < f.len() implies skill_label_rank(#[trigger] f[k].0) < bound by {
            assert(f[k] == r[k]);
        }
        lemma_drop_empty_values_rank_below(f, bound);
        let o = drop_empty_values(f);
        if r.last().1.len() != 0 {
            let out = o.push(r.last());
            assert forall|i: int| 0 <= i < out.len() implies skill_label_rank(#[trigger] out[i].0) < bound by {
                if i < o.len() {
                    assert(out[i] == o[i]);
                }
            }
        }
    }
}

proof fn lemma_drop_empty_values_rank_sorted(r: Seq<(Seq<char>, Seq<char>)>)
    requires
        forall|a: int, b: int|
            0 <= a < b < r.len() ==> skill_label_rank(#[trigger] r[a].0) < skill_label_rank(#[trigger] r[b].0),
    ensures
        forall|i: int, j: int|
            0 <= i < j < drop_empty_values(r).len() ==> skill_label_rank(#[trigger] drop_empty_values(r)[i].0)
                < skill_label_rank(#[trigger] drop_empty_values(r)[j].0),
    decreases r.len(),
{
    if r.len() > 0 {
        let f = r.drop_last();
        let n = r.len() - 1;
        assert forall|a: int, b: int| 0 <= a < b < f.len() implies skill_label_rank(#[trigger] f[a].0)
            < skill_label_rank(#[trigger] f[b].0) by {
            assert(f[a] == r[a] && f[b] == r[b]);
        }
        lemma_drop_empty_values_rank_sorted(f);
        let o = drop_empty_values(f);
        if r.last().1.len() != 0 {
            let bound = skill_label_rank(r[n].0);
            assert forall|k: int| 0 <= k < f.len() implies skill_label_rank(#[trigger] f[k].0) < bound by {
                assert(f[k] == r[k]);
            }
            lemma_drop_empty_values_rank_below(f, bound);
            let out = o.push(r.last());
            assert forall|i: int, j: int| 0 <= i < j < out.len() implies skill_label_rank(#[trigger] out[i].0)
                < skill_label_rank(#[trigger] out[j].0) by {
                assert(out[i] == o[i]);
                if j < o.len() {
                    assert(out[j] == o[j]);
                } else {
                    assert(out[j] == r[n]);
                }
            }
        }
    }
}

/// The skill rows hold only the seven categories, each with a value that is
/// not empty, in the fixed order `Languages`, `Frameworks`, `AI / Machine
/// Learning`, `Blockchain / Web3`, `Mobile`, `Backend / Cloud`, `Tools`.
pub proof fn law_skill_rows_in_fixed_order(skills: CVTechnicalSkills)
    ensures
        forall|i: int|
            0 <= i < skill_rows_spec(skills).len() ==> skill_label_rank(#[trigger] skill_rows_spec(skills)[i].0) < 7
                && skill_rows_spec(skills)[i].1.len() > 0,
        forall|i: int, j: int|
            0 <= i < j < skill_rows_spec(skills).len() ==> skill_label_rank(#[trigger] skill_rows_spec(skills)[i].0)
                < skill_label_rank(#[trigger] skill_rows_spec(skills)[j].0),
{
    reveal_strlit("Languages");
    reveal_strlit("Frameworks");
    reveal_strlit("AI / Machine Learning");
    reveal_strlit("Blockchain / Web3");
    reveal_strlit("Mobile");
    reveal_strlit("Backend / Cloud");
    reveal_strlit("Tools");
    let c = skill_candidates(skills);
    assert(c[0].0.len() == 9);
    assert(c[1].0.len() == 10);
    assert(c[2].0.len() == 21);
    assert(c[3].0.len() == 17);
    assert(c[4].0.len() == 6);
    assert(c[5].0.len() == 15);
    assert(c[6].0.len() == 5);
    assert(skill_label_rank(c[0].0) == 0);
    assert(skill_label_rank(c[1].0) == 1);
    assert(skill_label_rank(c[2].0) == 2);
    assert(skill_label_rank(c[3].0) == 3);
    assert(skill_label_rank(c[4].0) == 4);
    assert(skill_label_rank(c[5].0) == 5);
    assert(skill_label_rank(c[6].0) == 6);
    assert forall|a: int, b: int| 0 <= a < b < c.len() implies skill_label_rank(#[trigger] c[a].0)
        < skill_label_rank(#[trigger] c[b].0) by {}
    lemma_drop_empty_values_rank_sorted(c);
    lemma_drop_empty_values_rank_below(c, 7);
    lemma_drop_empty_values_non_empty(c);
}

} // verus!
