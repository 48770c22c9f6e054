//! Layout decisions that need no measuring: balancing inline lists into rows,
//! cutting a paragraph's words into lines at chosen breakpoints, and composing
//! the header's contact row.
use vstd::prelude::*;
use crate::sections::{split_lines, split_lines_exec};
use crate::docx::concat_all;
use crate::text::{
    concat2, is_ws, join_seq, lemma_trim_start_skip, owned, trim_start, trim_start_seq, views, words,
    words_spec,
};

verus! {

/// How many rows `n` items are balanced over when `rows` are asked for: that
/// many (at least one), but never more rows than items.
pub open spec fn group_count(n: nat, rows: nat) -> nat {
    let r: nat = if rows == 0 {
        1
    } else {
        rows
    };
    if n < r {
        n
    } else {
        r
    }
}

/// Where row `i` of `n` items dealt over `g` rows starts: every row holds
/// `n / g` items, and the first `n % g` rows one more.
pub open spec fn group_start(n: nat, g: nat, i: nat) -> nat {
    i * (n / g) + if i < n % g {
        i
    } else {
        n % g
    }
}

/// The number of items in row `i`.
pub open spec fn group_len(n: nat, g: nat, i: nat) -> nat {
    n / g + if i < n % g {
        1nat
    } else {
        0nat
    }
}

/// `items` split into `group_count(len, rows)` consecutive rows whose lengths
/// differ by at most one, the longer rows first.
pub open spec fn chunk_spec(items: Seq<Seq<char>>, rows: nat) -> Seq<Seq<Seq<char>>> {
    let n = items.len();
    let g = group_count(n, rows);
    Seq::new(
        g,
        |i: int| items.subrange(group_start(n, g, i as nat) as int, group_start(n, g, (i + 1) as nat) as int),
    )
}

/// The groups, one after another.
pub open spec fn flatten_groups(groups: Seq<Seq<Seq<char>>>) -> Seq<Seq<char>>
    decreases groups.len(),
{
    if groups.len() == 0 {
        Seq::empty()
    } else {
        flatten_groups(groups.drop_last()) + groups.last()
    }
}

pub open spec fn group_views(v: Seq<Vec<String>>) -> Seq<Seq<Seq<char>>> {
    v.map_values(|g: Vec<String>| views(g@))
}

/// Each row starts where the one before it ends, and the rows end with the
/// items.
proof fn lemma_group_step(n: nat, g: nat, i: nat)
    requires
        g > 0,
        i < g,
    ensures
        group_start(n, g, i + 1) == group_start(n, g, i) + group_len(n, g, i),
        group_start(n, g, i) <= group_start(n, g, i + 1) <= group_start(n, g, g),
        group_start(n, g, g) == n,
{
    let b = n / g;
    let e = n % g;
    assert((i + 1) * b == i * b + b) by (nonlinear_arith);
    assert((i + 1) * b <= g * b) by (nonlinear_arith)
        requires
            i < g,
    ;
    assert(g * b + e == n) by (nonlinear_arith)
        requires
            g > 0,
            b == n / g,
            e == n % g,
    ;
    assert(e < g) by (nonlinear_arith)
        requires
            g > 0,
            e == n % g,
    ;
}

/// Split `items` into `rows` rows of roughly equal length, preserving order:
/// `min(rows, len)` rows (a zero `rows` counts as one), the first `len % rows`
/// of them one item longer than the others.
pub fn chunk(items: &[String], rows: usize) -> (r: Vec<Vec<String>>)
    ensures
        group_views(r@) == chunk_spec(views(items@), rows as nat),
{
    let r = if rows == 0 { 1 } else { rows };
    let n = items.len();
    let g = if n < r { n } else { r };
    let mut out: Vec<Vec<String>> = Vec::new();
    if g == 0 {
        assert(group_views(out@) =~= chunk_spec(views(items@), rows as nat));
        return out;
    }
    let base = n / g;
    let extra = n % g;
    let ghost all = views(items@);
    let ghost spec = chunk_spec(all, rows as nat);
    assert(g == group_count(n as nat, rows as nat));
    let mut start: usize = 0;
    let mut i: usize = 0;
    proof {
        lemma_group_step(n as nat, g as nat, 0);
        assert(0 * (n as nat / g as nat) == 0) by (nonlinear_arith);
        assert(group_start(n as nat, g as nat, 0) == 0);
        assert(group_views(out@) =~= spec.take(0));
    }
    while i < g
        invariant
            n == items@.len(),
            all == views(items@),
            g > 0,
            g == group_count(n as nat, rows as nat),
            spec == chunk_spec(all, rows as nat),
            base == n / g,
            extra == n % g,
            i <= g,
            start == group_start(n as nat, g as nat, i as nat),
            group_start(n as nat, g as nat, g as nat) == n,
            group_views(out@) == spec.take(i as int),
        decreases g - i,
    {
        proof {
            lemma_group_step(n as nat, g as nat, i as nat);
        }
        let size = if i < extra { base + 1 } else { base };
        assert(size == group_len(n as nat, g as nat, i as nat));
        let end = start + size;
        let mut row: Vec<String> = Vec::new();
        let mut j: usize = start;
        while j < end
            invariant
                start <= j <= end <= n,
                n == items@.len(),
                all == views(items@),
                views(row@) == all.subrange(start as int, j as int),
            decreases end - j,
        {
            let s = items[j].clone();
            assert(all.subrange(start as int, j + 1) =~= all.subrange(start as int, j as int).push(s@));
            row.push(s);
            j += 1;
        }
        let ghost before = group_views(out@);
        let ghost row_view = views(row@);
        out.push(row);
        assert(group_views(out@) =~= before.push(row_view));
        assert(spec[i as int] == all.subrange(start as int, end as int));
        assert(spec.take(i + 1) =~= spec.take(i as int).push(spec[i as int]));
        assert(group_views(out@) =~= spec.take(i + 1));
        start = end;
        i += 1;
    }
    assert(spec.take(g as int) =~= spec);
    out
}

} // verus!
verus! {

proof fn lemma_flatten_prefix(items: Seq<Seq<char>>, rows: nat, k: nat)
    requires
        group_count(items.len(), rows) > 0,
        k <= chunk_spec(items, rows).len(),
    ensures
        flatten_groups(chunk_spec(items, rows).take(k as int)) == items.subrange(
            0,
            group_start(items.len(), group_count(items.len(), rows), k) as int,
        ),
    decreases k,
{
    let n = items.len();
    let g = group_count(n, rows);
    let gs = chunk_spec(items, rows);
    if k == 0 {
        assert(gs.take(0) =~= Seq::<Seq<Seq<char>>>::empty());
        assert(items.subrange(0, 0) =~= Seq::<Seq<char>>::empty());
        let z: nat = 0;
        assert(z * (n / g) == 0) by (nonlinear_arith)
            requires
                z == 0,
        ;
        assert(n % g < g) by (nonlinear_arith)
            requires
                g > 0,
        ;
        assert(group_start(n, g, z) == 0);
    } else {
        lemma_flatten_prefix(items, rows, (k - 1) as nat);
        lemma_group_step(n, g, (k - 1) as nat);
        assert(gs.take(k as int).drop_last() =~= gs.take(k - 1));
        assert(gs.take(k as int).last() == gs[k - 1]);
        assert(gs[k - 1] == items.subrange(
            group_start(n, g, (k - 1) as nat) as int,
            group_start(n, g, k) as int,
        ));
        assert(items.subrange(0, group_start(n, g, (k - 1) as nat) as int) + items.subrange(
            group_start(n, g, (k - 1) as nat) as int,
            group_start(n, g, k) as int,
        ) =~= items.subrange(0, group_start(n, g, k) as int));
        assert(flatten_groups(gs.take(k as int)) == flatten_groups(gs.take(k as int).drop_last())
            + gs.take(k as int).last());
    }
}

/// Balancing an inline list: the rows, one after another, are the items in
/// their order; there are `rows` rows (at least one), or as many as there are
/// items when there are fewer; every row holds at least one item; and the
/// lengths of any two rows differ by at most one, the longer rows first.
pub proof fn law_chunk_balanced(items: Seq<Seq<char>>, rows: nat)
    ensures
        flatten_groups(chunk_spec(items, rows)) == items,
        chunk_spec(items, rows).len() == group_count(items.len(), rows),
        forall|k: int|
            0 <= k < chunk_spec(items, rows).len() ==> #[trigger] chunk_spec(items, rows)[k].len() >= 1,
        forall|k: int, m: int|
            0 <= k < m < chunk_spec(items, rows).len() ==> #[trigger] chunk_spec(items, rows)[k].len()
                == #[trigger] chunk_spec(items, rows)[m].len() || chunk_spec(items, rows)[k].len()
                == chunk_spec(items, rows)[m].len() + 1,
{
    let n = items.len();
    let g = group_count(n, rows);
    let gs = chunk_spec(items, rows);
    if g == 0 {
        assert(gs =~= Seq::<Seq<Seq<char>>>::empty());
        assert(items =~= Seq::<Seq<char>>::empty());
    } else {
        lemma_group_step(n, g, 0);
        lemma_flatten_prefix(items, rows, g);
        assert(gs.take(g as int) =~= gs);
        assert(items.subrange(0, n as int) =~= items);
        assert(n / g >= 1) by (nonlinear_arith)
            requires
                g > 0,
                g <= n,
        ;
        assert forall|k: int| 0 <= k < gs.len() implies #[trigger] gs[k].len() == group_len(n, g, k as nat) by {
            lemma_group_step(n, g, k as nat);
        }
    }
}

} // verus!
verus! {

/// The cuts the chosen break positions make in `n` words: position `p` ends a
/// line after word `p / 2` (the glue after word `i` is node `2i + 1`). Positions
/// past the last word, or behind a cut already made, are ignored. Returns the
/// word ranges of the finished lines and where the next line starts.
pub open spec fn cut_scan(n: nat, breaks: Seq<usize>) -> (Seq<(nat, nat)>, nat)
    decreases breaks.len(),
{
    if breaks.len() == 0 {
        (Seq::empty(), 0)
    } else {
        let (ranges, start) = cut_scan(n, breaks.drop_last());
        let w = breaks.last() as nat / 2;
        if w >= n || w < start {
            (ranges, start)
        } else {
            (ranges.push((start, w + 1)), w + 1)
        }
    }
}

/// The word ranges of every line: the cut lines, then the rest of the words.
pub open spec fn line_ranges(n: nat, breaks: Seq<usize>) -> Seq<(nat, nat)> {
    let (ranges, start) = cut_scan(n, breaks);
    if start < n {
        ranges.push((start, n))
    } else {
        ranges
    }
}

/// The text of each line: its words joined by single spaces.
pub open spec fn lines_spec(words: Seq<Seq<char>>, breaks: Seq<usize>) -> Seq<Seq<char>> {
    line_ranges(words.len(), breaks).map_values(
        |r: (nat, nat)| join_seq(words.subrange(r.0 as int, r.1 as int), " "@),
    )
}

/// Cut a paragraph's words into lines at the break positions the line breaker
/// chose, as node indices of the word/glue list.
pub fn lines_at_breaks(words: &Vec<String>, breaks: &Vec<usize>) -> (r: Vec<String>)
    ensures
        views(r@) == lines_spec(views(words@), breaks@),
{
    let n = words.len();
    let ghost ws = views(words@);
    let mut lines: Vec<String> = Vec::new();
    let mut start: usize = 0;
    let mut k: usize = 0;
    while k < breaks.len()
        invariant
            n == words.len(),
            ws == views(words@),
            k <= breaks.len(),
            cut_scan(n as nat, breaks@.take(k as int)).1 == start as nat,
            views(lines@) == cut_scan(n as nat, breaks@.take(k as int)).0.map_values(
                |r: (nat, nat)| join_seq(ws.subrange(r.0 as int, r.1 as int), " "@),
            ),
            start <= n,
        decreases breaks.len() - k,
    {
        assert(breaks@.take(k + 1).drop_last() =~= breaks@.take(k as int));
        let position = breaks[k];
        let word = position / 2;
        if word < n && word >= start {
            let line = join_range(words, start, word + 1);
            let ghost prev = cut_scan(n as nat, breaks@.take(k as int)).0;
            let ghost f = |r: (nat, nat)| join_seq(ws.subrange(r.0 as int, r.1 as int), " "@);
            let ghost before = views(lines@);
            assert(f((start as nat, (word + 1) as nat)) == line@);
            lines.push(line);
            assert(views(lines@) =~= before.push(line@));
            assert(prev.push((start as nat, (word + 1) as nat)).map_values(f) =~= prev.map_values(
                f,
            ).push(line@));
            start = word + 1;
        }
        k += 1;
    }
    assert(breaks@.take(breaks.len() as int) =~= breaks@);
    let ghost done = cut_scan(n as nat, breaks@).0;
    if start < n {
        let line = join_range(words, start, n);
        let ghost f = |r: (nat, nat)| join_seq(ws.subrange(r.0 as int, r.1 as int), " "@);
        let ghost before = views(lines@);
        assert(f((start as nat, n as nat)) == line@);
        lines.push(line);
        assert(views(lines@) =~= before.push(line@));
        assert(done.push((start as nat, n as nat)).map_values(f) =~= done.map_values(f).push(
            line@,
        ));
    }
    lines
}

/// The words `from..to` joined by single spaces.
fn join_range(words: &Vec<String>, from: usize, to: usize) -> (r: String)
    requires
        from <= to <= words.len(),
    ensures
        r@ == join_seq(views(words@).subrange(from as int, to as int), " "@),
{
    let ghost part = views(words@).subrange(from as int, to as int);
    let mut out = String::new();
    let mut i: usize = from;
    while i < to
        invariant
            from <= i <= to <= words.len(),
            part == views(words@).subrange(from as int, to as int),
            out@ == join_seq(part.take(i - from), " "@),
        decreases to - i,
    {
        assert(part.take(i - from + 1).drop_last() =~= part.take(i - from));
        if i != from {
            out.append(" ");
        }
        out.append(words[i].as_str());
        i += 1;
    }
    assert(part.take(to - from) =~= part);
    out
}

} // verus!
verus! {

/// `ranges` are non-empty, consecutive, and run from 0 to `m`.
pub open spec fn ranges_cover(ranges: Seq<(nat, nat)>, m: nat) -> bool {
    &&& ranges.len() == 0 ==> m == 0
    &&& ranges.len() > 0 ==> ranges[0].0 == 0 && ranges.last().1 == m
    &&& forall|i: int| 0 <= i < ranges.len() ==> #[trigger] ranges[i].0 < ranges[i].1
    &&& forall|i: int| 0 <= i < ranges.len() - 1 ==> #[trigger] ranges[i].1 == ranges[i + 1].0
}

proof fn lemma_cut_scan_covers(n: nat, breaks: Seq<usize>)
    ensures
        cut_scan(n, breaks).1 <= n,
        ranges_cover(cut_scan(n, breaks).0, cut_scan(n, breaks).1),
    decreases breaks.len(),
{
    if breaks.len() > 0 {
        lemma_cut_scan_covers(n, breaks.drop_last());
        let (ranges, start) = cut_scan(n, breaks.drop_last());
        let w = breaks.last() as nat / 2;
        if !(w >= n || w < start) {
            let nr = ranges.push((start, w + 1));
            assert forall|i: int| 0 <= i < nr.len() - 1 implies #[trigger] nr[i].1 == nr[i + 1].0 by {
                if i < ranges.len() - 1 {
                    assert(nr[i] == ranges[i] && nr[i + 1] == ranges[i + 1]);
                }
            }
            assert forall|i: int| 0 <= i < nr.len() implies #[trigger] nr[i].0 < nr[i].1 by {
                if i < ranges.len() {
                    assert(nr[i] == ranges[i]);
                }
            }
        }
    }
}

proof fn lemma_line_ranges_cover(n: nat, breaks: Seq<usize>)
    ensures
        ranges_cover(line_ranges(n, breaks), n),
{
    lemma_cut_scan_covers(n, breaks);
    let (ranges, start) = cut_scan(n, breaks);
    if start < n {
        let nr = ranges.push((start, n));
        assert forall|i: int| 0 <= i < nr.len() - 1 implies #[trigger] nr[i].1 == nr[i + 1].0 by {
            if i < ranges.len() - 1 {
                assert(nr[i] == ranges[i] && nr[i + 1] == ranges[i + 1]);
            }
        }
        assert forall|i: int| 0 <= i < nr.len() implies #[trigger] nr[i].0 < nr[i].1 by {
            if i < ranges.len() {
                assert(nr[i] == ranges[i]);
            }
        }
    }
}

/// A join splits at any inner boundary: the first `b` parts joined are the
/// first `a` joined, the separator, and parts `a..b` joined.
pub proof fn lemma_join_split(s: Seq<Seq<char>>, sep: Seq<char>, a: int, b: int)
    requires
        0 < a < b <= s.len(),
    ensures
        join_seq(s.take(b), sep) == join_seq(s.take(a), sep) + sep + join_seq(s.subrange(a, b), sep),
    decreases b - a,
{
    let sb = s.take(b);
    assert(sb.drop_last() =~= s.take(b - 1));
    assert(sb.last() == s[b - 1]);
    if b == a + 1 {
        let sub = s.subrange(a, b);
        assert(sub.len() == 1);
        assert(s.take(b - 1) =~= s.take(a));
        assert(sub[0] == s[a]);
    } else {
        lemma_join_split(s, sep, a, b - 1);
        let sub = s.subrange(a, b);
        assert(sub.drop_last() =~= s.subrange(a, b - 1));
        assert(sub.last() == s[b - 1]);
    }
}

proof fn lemma_join_ranges(words: Seq<Seq<char>>, ranges: Seq<(nat, nat)>, m: nat)
    requires
        ranges_cover(ranges, m),
        m <= words.len(),
    ensures
        join_seq(
            ranges.map_values(
                |r: (nat, nat)| join_seq(words.subrange(r.0 as int, r.1 as int), " "@),
            ),
            " "@,
        ) == join_seq(words.take(m as int), " "@),
    decreases ranges.len(),
{
    let f = |r: (nat, nat)| join_seq(words.subrange(r.0 as int, r.1 as int), " "@);
    let lines = ranges.map_values(f);
    if ranges.len() == 0 {
        assert(words.take(0) =~= Seq::<Seq<char>>::empty());
    } else if ranges.len() == 1 {
        assert(words.subrange(0, m as int) =~= words.take(m as int));
    } else {
        let front = ranges.drop_last();
        let a = ranges.last().0;
        assert(front.last() == ranges[ranges.len() - 2]);
        assert(ranges_cover(front, a)) by {
            assert forall|i: int| 0 <= i < front.len() - 1 implies #[trigger] front[i].1 == front[i + 1].0 by {
                assert(front[i] == ranges[i] && front[i + 1] == ranges[i + 1]);
            }
            assert forall|i: int| 0 <= i < front.len() implies #[trigger] front[i].0 < front[i].1 by {
                assert(front[i] == ranges[i]);
            }
        }
        assert(a <= m);
        lemma_join_ranges(words, front, a);
        assert(lines.drop_last() =~= front.map_values(f));
        assert(front[0] == ranges[0]);
        assert(a > 0);
        lemma_join_split(words, " "@, a as int, m as int);
    }
}

/// Wrapping preserves every word: the lines, joined by single spaces, are the
/// words joined by single spaces, whatever breakpoints were chosen.
pub proof fn law_lines_keep_every_word(words: Seq<Seq<char>>, breaks: Seq<usize>)
    ensures
        join_seq(lines_spec(words, breaks), " "@) == join_seq(words, " "@),
{
    lemma_line_ranges_cover(words.len(), breaks);
    lemma_join_ranges(words, line_ranges(words.len(), breaks), words.len());
    assert(words.take(words.len() as int) =~= words);
}

} // verus!
verus! {

/// The header's contact items as the pieces of one flowing row: the first as
/// it is, every later one led by the separator `  •  `.
pub open spec fn contact_pieces_spec(items: Seq<Seq<char>>) -> Seq<Seq<char>> {
    Seq::new(
        items.len(),
        |i: int|
            if i == 0 {
                items[0]
            } else {
                "  \u{2022}  "@ + items[i]
            },
    )
}

/// The pieces of the header's contact row. Where the row wraps, a line begins
/// with the bullet, as in a wrapping flex row.
pub fn contact_pieces(items: &Vec<String>) -> (r: Vec<String>)
    ensures
        views(r@) == contact_pieces_spec(views(items@)),
{
    let ghost all = contact_pieces_spec(views(items@));
    let mut out: Vec<String> = Vec::new();
    let n = items.len();
    let mut i: usize = 0;
    while i < n
        invariant
            n == items.len(),
            i <= n,
            all == contact_pieces_spec(views(items@)),
            views(out@) == all.take(i as int),
        decreases n - i,
    {
        let piece = if i == 0 {
            items[i].clone()
        } else {
            concat2("  \u{2022}  ", items[i].as_str())
        };
        assert(piece@ == all[i as int]);
        assert(all.take(i + 1) =~= all.take(i as int).push(piece@));
        out.push(piece);
        assert(views(out@) =~= all.take(i + 1));
        i += 1;
    }
    assert(all.take(n as int) =~= all);
    out
}

/// `p` occurs in `s` at index `i`.
pub open spec fn occurs_at(s: Seq<char>, p: Seq<char>, i: int) -> bool {
    0 <= i && i + p.len() <= s.len() && s.subrange(i, i + p.len()) == p
}

/// `i` is the first index at which `p` occurs in `s`.
pub open spec fn first_occurrence(s: Seq<char>, p: Seq<char>, i: int) -> bool {
    occurs_at(s, p, i) && forall|j: int| 0 <= j < i ==> !#[trigger] occurs_at(s, p, j)
}

/// `s` with its first occurrence of `p` replaced by `q`; `s` unchanged when `p`
/// does not occur.
pub open spec fn replace_first_spec(s: Seq<char>, p: Seq<char>, q: Seq<char>) -> Seq<char> {
    if exists|i: int| first_occurrence(s, p, i) {
        let i = choose|i: int| first_occurrence(s, p, i);
        s.take(i) + q + s.skip(i + p.len())
    } else {
        s
    }
}

proof fn lemma_first_occurrence_unique(s: Seq<char>, p: Seq<char>, i: int, j: int)
    requires
        first_occurrence(s, p, i),
        first_occurrence(s, p, j),
    ensures
        i == j,
{
    if i < j {
        assert(!occurs_at(s, p, i));
    } else if j < i {
        assert(!occurs_at(s, p, j));
    }
}

/// `s` with the first occurrence of `p` replaced by `q`, as
/// `str::replacen(p, q, 1)` does.
pub fn replace_first(s: &str, p: &str, q: &str) -> (r: String)
    ensures
        r@ == replace_first_spec(s@, p@, q@),
{
    let cs = crate::text::to_chars(s);
    let cp = crate::text::to_chars(p);
    let n = cs.len();
    let m = cp.len();
    if m > n {
        proof {
            if exists|i: int| first_occurrence(s@, p@, i) {
                let i = choose|i: int| first_occurrence(s@, p@, i);
                assert(false);
            }
        }
        return owned(s);
    }
    let mut i: usize = 0;
    while i <= n - m
        invariant
            cs@ == s@,
            cp@ == p@,
            n == cs.len(),
            m == cp.len(),
            m <= n,
            i <= n - m + 1,
            forall|j: int| 0 <= j < i ==> !#[trigger] occurs_at(s@, p@, j),
        decreases n - m + 1 - i,
    {
        let mut k: usize = 0;
        let mut matched = true;
        while k < m
            invariant
                cs@ == s@,
                cp@ == p@,
                n == cs.len(),
                m == cp.len(),
                i + m <= n,
                k <= m,
                matched ==> forall|t: int| 0 <= t < k ==> s@[i + t] == p@[t],
                !matched ==> !occurs_at(s@, p@, i as int) && k > 0,
            decreases m - k,
        {
            if cs[i + k] != cp[k] {
                assert(s@.subrange(i as int, i + m)[k as int] != p@[k as int]);
                matched = false;
            }
            k += 1;
        }
        if matched {
            assert(s@.subrange(i as int, i + m) =~= p@);
            assert(first_occurrence(s@, p@, i as int));
            proof {
                let c = choose|c: int| first_occurrence(s@, p@, c);
                lemma_first_occurrence_unique(s@, p@, c, i as int);
            }
            let mut out = owned(s.substring_char(0, i));
            out.append(q);
            out.append(s.substring_char(i + m, n));
            assert(s@.subrange(0, i as int) =~= s@.take(i as int));
            assert(s@.subrange(i + m, n as int) =~= s@.skip(i + m));
            return out;
        }
        i += 1;
    }
    proof {
        if exists|c: int| first_occurrence(s@, p@, c) {
            let c = choose|c: int| first_occurrence(s@, p@, c);
            assert(!occurs_at(s@, p@, c));
        }
    }
    owned(s)
}

/// A wrapped contact line as it is drawn: where the row wraps, the break falls
/// inside the next separator's leading white space, so every line but the last
/// keeps one trailing space and its first separator loses one leading space.
pub open spec fn contact_line_spec(line: Seq<char>, last: bool) -> Seq<char> {
    if last {
        line
    } else {
        replace_first_spec(line, "  \u{2022}  "@, " \u{2022}  "@) + " "@
    }
}

/// The text drawn for one line of the wrapped contact row.
pub fn contact_line(line: &str, last: bool) -> (r: String)
    ensures
        r@ == contact_line_spec(line@, last),
{
    if last {
        owned(line)
    } else {
        let mut out = replace_first(line, "  \u{2022}  ", " \u{2022}  ");
        out.append(" ");
        out
    }
}

} // verus!
verus! {

/// Fit one piece into the header's contact row. The piece joins the current
/// line when it fits (`fits` is the measured answer) or when the line is still
/// empty; otherwise the current line is finished and the piece, without its
/// leading white space, starts the next one.
pub fn place_piece(lines: &mut Vec<String>, current: &mut String, piece: &str, fits: bool)
    ensures
        fits || old(current)@.len() == 0 ==> {
            &&& views(final(lines)@) == views(old(lines)@)
            &&& final(current)@ == old(current)@ + piece@
        },
        !(fits || old(current)@.len() == 0) ==> {
            &&& views(final(lines)@) == views(old(lines)@).push(old(current)@)
            &&& final(current)@ == trim_start_seq(piece@)
        },
{
    if fits || current.as_str().is_empty() {
        current.append(piece);
    } else {
        let ghost before = lines@;
        let done = current.clone();
        lines.push(done);
        assert(views(lines@) =~= views(before).push(done@));
        *current = owned(trim_start(piece));
    }
}

/// Close the contact row: a line still being filled is kept unless it is
/// empty.
pub fn finish_row(lines: &mut Vec<String>, current: String)
    ensures
        current@.len() == 0 ==> views(final(lines)@) == views(old(lines)@),
        current@.len() != 0 ==> views(final(lines)@) == views(old(lines)@).push(current@),
{
    if !current.as_str().is_empty() {
        let ghost before = lines@;
        let ghost c = current@;
        lines.push(current);
        assert(views(lines@) =~= views(before).push(c));
    }
}

} // verus!
verus! {

/// The words of each hard line of `text`: the text is cut at every `'\n'` and
/// each piece split at white space.
pub open spec fn hard_line_words_spec(text: Seq<char>) -> Seq<Seq<Seq<char>>> {
    split_lines(text).map_values(|line: Seq<char>| words_spec(line))
}

/// The words of each hard line of a paragraph, in order. A line with no words
/// is kept, as an empty list.
pub fn hard_line_words(text: &str) -> (r: Vec<Vec<String>>)
    ensures
        group_views(r@) == hard_line_words_spec(text@),
{
    let lines = split_lines_exec(text);
    let ghost all = hard_line_words_spec(text@);
    let mut out: Vec<Vec<String>> = Vec::new();
    let n = lines.len();
    let mut i: usize = 0;
    while i < n
        invariant
            n == lines@.len(),
            i <= n,
            views(lines@) == split_lines(text@),
            all == hard_line_words_spec(text@),
            group_views(out@) == all.take(i as int),
        decreases n - i,
    {
        let ghost before = out@;
        let w = words(lines[i].as_str());
        assert(views(lines@)[i as int] == lines@[i as int]@);
        out.push(w);
        assert(group_views(out@) =~= group_views(before).push(views(w@)));
        assert(all.take(i + 1) =~= all.take(i as int).push(all[i as int]));
        i += 1;
    }
    assert(all.take(n as int) =~= all);
    out
}

} // verus!
verus! {

/// The contact row after the first `k` pieces, each placed as `place_piece`
/// places it given whether it fitted: the finished lines and the line still
/// being filled.
pub open spec fn row_after(pieces: Seq<Seq<char>>, fits: Seq<bool>, k: nat) -> (Seq<Seq<char>>, Seq<char>)
    decreases k,
{
    if k == 0 {
        (Seq::empty(), Seq::empty())
    } else {
        let (lines, current) = row_after(pieces, fits, (k - 1) as nat);
        let piece = pieces[k - 1];
        if fits[k - 1] || current.len() == 0 {
            (lines, current + piece)
        } else {
            (lines.push(current), trim_start_seq(piece))
        }
    }
}

/// The lines of the finished contact row: every piece placed, and the line
/// being filled kept unless it is empty, as `finish_row` keeps it.
pub open spec fn row_lines(pieces: Seq<Seq<char>>, fits: Seq<bool>) -> Seq<Seq<char>> {
    let (lines, current) = row_after(pieces, fits, pieces.len());
    if current.len() == 0 {
        lines
    } else {
        lines.push(current)
    }
}

proof fn lemma_join_extend_last(lines: Seq<Seq<char>>, x: Seq<char>, p: Seq<char>, sep: Seq<char>)
    ensures
        join_seq(lines.push(x + p), sep) == join_seq(lines.push(x), sep) + p,
{
    let a = lines.push(x + p);
    let b = lines.push(x);
    assert(a.drop_last() =~= lines);
    assert(b.drop_last() =~= lines);
    if lines.len() == 0 {
        assert(a[0] == x + p);
        assert(b[0] == x);
    } else {
        assert(join_seq(lines, sep) + sep + (x + p) =~= join_seq(lines, sep) + sep + x + p);
    }
}

proof fn lemma_row_step(items: Seq<Seq<char>>, fits: Seq<bool>, k: nat)
    requires
        fits.len() == items.len(),
        1 <= k <= items.len(),
        items[0].len() > 0,
    ensures
        ({
            let pieces = contact_pieces_spec(items);
            let (lines, current) = row_after(pieces, fits, k);
            let all = lines.push(current);
            &&& current.len() > 0
            &&& join_seq(all, "  "@) == concat_all(pieces.take(k as int))
            &&& forall|j: int| 0 < j < all.len() ==> #[trigger] all[j].len() > 0 && all[j][0] == '\u{2022}'
        }),
    decreases k,
{
    reveal_strlit("  ");
    reveal_strlit("  \u{2022}  ");
    let pieces = contact_pieces_spec(items);
    if k == 1 {
        assert(row_after(pieces, fits, 0) == (Seq::<Seq<char>>::empty(), Seq::<char>::empty()));
        assert(Seq::<char>::empty() + pieces[0] =~= items[0]);
        let (lines, current) = row_after(pieces, fits, 1);
        assert(lines == Seq::<Seq<char>>::empty());
        assert(lines.push(current) =~= seq![items[0]]);
        assert(pieces.take(1).drop_last() =~= Seq::<Seq<char>>::empty());
        assert(concat_all(Seq::<Seq<char>>::empty()) == Seq::<char>::empty());
        assert(concat_all(pieces.take(1)) =~= items[0]);
    } else {
        lemma_row_step(items, fits, (k - 1) as nat);
        let (lines, current) = row_after(pieces, fits, (k - 1) as nat);
        let p = pieces[k - 1];
        assert(p == "  \u{2022}  "@ + items[k - 1]);
        assert(pieces.take(k as int).drop_last() =~= pieces.take(k - 1));
        assert(concat_all(pieces.take(k as int)) == concat_all(pieces.take(k - 1)) + p);
        let prev = lines.push(current);
        if fits[k - 1] {
            lemma_join_extend_last(lines, current, p, "  "@);
            let all = lines.push(current + p);
            assert forall|j: int| 0 < j < all.len() implies #[trigger] all[j].len() > 0 && all[j][0] == '\u{2022}' by {
                if j < lines.len() {
                    assert(all[j] == prev[j]);
                } else {
                    assert(prev[j] == current);
                    assert((current + p)[0] == current[0]);
                }
            }
        } else {
            assert(!is_ws(p[2]));
            lemma_trim_start_skip(p, 2);
            let t = p.skip(2);
            assert(t[0] == '\u{2022}');
            let all = prev.push(t);
            assert(all.drop_last() =~= prev);
            assert("  "@ + t =~= p);
            assert(join_seq(all, "  "@) =~= join_seq(prev, "  "@) + p);
            assert forall|j: int| 0 < j < all.len() implies #[trigger] all[j].len() > 0 && all[j][0] == '\u{2022}' by {
                if j < prev.len() {
                    assert(all[j] == prev[j]);
                }
            }
        }
    }
}

/// The header's contact row, however the pieces fit: the lines joined with
/// two spaces give back the pieces whole and in order (a wrapped line drops
/// only the two spaces before its bullet), and every line after the first
/// starts with the bullet. Stated for contact items whose first item is not
/// empty, as `contact_items` makes them.
pub proof fn law_contact_row_keeps_pieces(items: Seq<Seq<char>>, fits: Seq<bool>)
    requires
        fits.len() == items.len(),
        items.len() > 0 ==> items[0].len() > 0,
    ensures
        join_seq(row_lines(contact_pieces_spec(items), fits), "  "@) == concat_all(contact_pieces_spec(items)),
        forall|j: int|
            0 < j < row_lines(contact_pieces_spec(items), fits).len() ==> #[trigger] row_lines(
                contact_pieces_spec(items),
                fits,
            )[j].len() > 0 && row_lines(contact_pieces_spec(items), fits)[j][0] == '\u{2022}',
{
    let pieces = contact_pieces_spec(items);
    if items.len() == 0 {
        assert(row_lines(pieces, fits) == Seq::<Seq<char>>::empty());
        assert(pieces =~= Seq::<Seq<char>>::empty());
    } else {
        lemma_row_step(items, fits, items.len());
        assert(pieces.take(items.len() as int) =~= pieces);
    }
}

} // verus!
verus! {

/// The lines one hard line of a paragraph becomes: a hard line with no words
/// is one empty line; otherwise its words are cut into lines at the breaks.
pub open spec fn hard_line_lines_spec(words: Seq<Seq<char>>, breaks: Seq<usize>) -> Seq<Seq<char>> {
    if words.len() == 0 {
        seq![Seq::<char>::empty()]
    } else {
        lines_spec(words, breaks)
    }
}

/// The lines of one hard line, given its words and the break positions the
/// line breaker chose for them (none are needed for a line with no words).
pub fn hard_line_lines(words: &Vec<String>, breaks: &Vec<usize>) -> (r: Vec<String>)
    ensures
        views(r@) == hard_line_lines_spec(views(words@), breaks@),
{
    if words.len() == 0 {
        let mut out: Vec<String> = Vec::new();
        out.push(String::new());
        assert(views(out@) =~= seq![Seq::<char>::empty()]);
        out
    } else {
        lines_at_breaks(words, breaks)
    }
}

} // verus!
