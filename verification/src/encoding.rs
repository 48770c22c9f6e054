//! Text as the standard PDF fonts see it: WinAnsi bytes, the shaping runs a
//! line is split into, and kerning-table lookups.
use vstd::prelude::*;

verus! {

/// The WinAnsi byte of a character; unmappable characters become `?`.
pub open spec fn winansi(c: char) -> u8 {
    let cp = c as u32;
    if (0x20 <= cp && cp <= 0x7e) || (0xa0 <= cp && cp <= 0xff) {
        cp as u8
    } else if cp == 0x20ac { 0x80 }
    else if cp == 0x201a { 0x82 }
    else if cp == 0x0192 { 0x83 }
    else if cp == 0x201e { 0x84 }
    else if cp == 0x2026 { 0x85 }
    else if cp == 0x2020 { 0x86 }
    else if cp == 0x2021 { 0x87 }
    else if cp == 0x02c6 { 0x88 }
    else if cp == 0x2030 { 0x89 }
    else if cp == 0x0160 { 0x8a }
    else if cp == 0x2039 { 0x8b }
    else if cp == 0x0152 { 0x8c }
    else if cp == 0x017d { 0x8e }
    else if cp == 0x2018 { 0x91 }
    else if cp == 0x2019 { 0x92 }
    else if cp == 0x201c { 0x93 }
    else if cp == 0x201d { 0x94 }
    else if cp == 0x2022 { 0x95 }
    else if cp == 0x2013 { 0x96 }
    else if cp == 0x2014 { 0x97 }
    else if cp == 0x02dc { 0x98 }
    else if cp == 0x2122 { 0x99 }
    else if cp == 0x0161 { 0x9a }
    else if cp == 0x203a { 0x9b }
    else if cp == 0x0153 { 0x9c }
    else if cp == 0x017e { 0x9e }
    else if cp == 0x0178 { 0x9f }
    else { 0x3f }
}

/// Map a character to its WinAnsi byte, the encoding used for the standard PDF
/// fonts. Unmappable characters fall back to `?`, matching what a viewer would
/// show.
pub fn winansi_byte(ch: char) -> (b: u8)
    ensures
        b == winansi(ch),
{
    let cp = ch as u32;
    if (0x20 <= cp && cp <= 0x7e) || (0xa0 <= cp && cp <= 0xff) {
        cp as u8
    } else if cp == 0x20ac { 0x80 }
    else if cp == 0x201a { 0x82 }
    else if cp == 0x0192 { 0x83 }
    else if cp == 0x201e { 0x84 }
    else if cp == 0x2026 { 0x85 }
    else if cp == 0x2020 { 0x86 }
    else if cp == 0x2021 { 0x87 }
    else if cp == 0x02c6 { 0x88 }
    else if cp == 0x2030 { 0x89 }
    else if cp == 0x0160 { 0x8a }
    else if cp == 0x2039 { 0x8b }
    else if cp == 0x0152 { 0x8c }
    else if cp == 0x017d { 0x8e }
    else if cp == 0x2018 { 0x91 }
    else if cp == 0x2019 { 0x92 }
    else if cp == 0x201c { 0x93 }
    else if cp == 0x201d { 0x94 }
    else if cp == 0x2022 { 0x95 }
    else if cp == 0x2013 { 0x96 }
    else if cp == 0x2014 { 0x97 }
    else if cp == 0x02dc { 0x98 }
    else if cp == 0x2122 { 0x99 }
    else if cp == 0x0161 { 0x9a }
    else if cp == 0x203a { 0x9b }
    else if cp == 0x0153 { 0x9c }
    else if cp == 0x017e { 0x9e }
    else if cp == 0x0178 { 0x9f }
    else { 0x3f }
}

/// The WinAnsi bytes of `text`, one per character.
pub fn encode(text: &str) -> (r: Vec<u8>)
    ensures
        r@ == text@.map_values(|c: char| winansi(c)),
{
    let mut out: Vec<u8> = Vec::new();
    let n = text.unicode_len();
    let mut i: usize = 0;
    while i < n
        invariant
            n == text@.len(),
            i <= n,
            out@ == text@.map_values(|c: char| winansi(c)).take(i as int),
        decreases n - i,
    {
        let b = winansi_byte(text.get_char(i));
        out.push(b);
        assert(out@ =~= text@.map_values(|c: char| winansi(c)).take(i + 1));
        i += 1;
    }
    assert(text@.map_values(|c: char| winansi(c)).take(n as int) =~= text@.map_values(
        |c: char| winansi(c),
    ));
    out
}

/// A bullet line's marker, `• ` in WinAnsi, is a shaping run of its own.
pub open spec fn starts_with_bullet(bytes: Seq<u8>) -> bool {
    bytes.len() >= 2 && bytes[0] == 0x95 && bytes[1] == 0x20
}

/// Byte offsets at which a new shaping run begins: after the bullet marker of a
/// bullet line, nowhere otherwise. Kerning does not cross a run boundary, so a
/// line like "• Work" keeps the full space width.
pub fn run_boundaries(bytes: &[u8]) -> (r: Vec<usize>)
    ensures
        r@ == (if starts_with_bullet(bytes@) {
            seq![2usize]
        } else {
            Seq::<usize>::empty()
        }),
{
    let mut out: Vec<usize> = Vec::new();
    if bytes.len() >= 2 && bytes[0] == 0x95 && bytes[1] == 0x20 {
        out.push(2);
        assert(out@ =~= seq![2usize]);
    } else {
        assert(out@ =~= Seq::<usize>::empty());
    }
    out
}

/// `(a0, a1)` precedes `(b0, b1)` in lexicographic order.
pub open spec fn pair_lt(a0: u8, a1: u8, b0: u8, b1: u8) -> bool {
    a0 < b0 || (a0 == b0 && a1 < b1)
}

/// The kern table is sorted by its `(left, right)` pair, as binary search
/// requires.
pub open spec fn kern_table_sorted(table: Seq<(u8, u8, i16)>) -> bool {
    forall|i: int, j: int|
        0 <= i < j < table.len() ==> !pair_lt(table[j].0, table[j].1, table[i].0, table[i].1)
}

/// Some entry of the table is for the pair `(left, right)`.
pub open spec fn has_pair(table: Seq<(u8, u8, i16)>, left: u8, right: u8) -> bool {
    exists|i: int| 0 <= i < table.len() && #[trigger] table[i].0 == left && table[i].1 == right
}

/// The kerning of the pair `(left, right)` in font units: the adjustment of an
/// entry for that pair, or 0 when the table has none.
pub fn kern_units(table: &[(u8, u8, i16)], left: u8, right: u8) -> (k: i32)
    requires
        kern_table_sorted(table@),
    ensures
        has_pair(table@, left, right) ==> exists|i: int|
            0 <= i < table@.len() && table@[i].0 == left && table@[i].1 == right && k
                == table@[i].2 as i32,
        !has_pair(table@, left, right) ==> k == 0,
{
    let mut lo: usize = 0;
    let mut hi: usize = table.len();
    while lo < hi
        invariant
            lo <= hi <= table@.len(),
            kern_table_sorted(table@),
            forall|i: int|
                0 <= i < lo ==> #[trigger] pair_lt(table@[i].0, table@[i].1, left, right),
            forall|i: int|
                hi <= i < table@.len() ==> #[trigger] pair_lt(left, right, table@[i].0, table@[i].1),
        decreases hi - lo,
    {
        let mid = lo + (hi - lo) / 2;
        let (a, b, v) = table[mid];
        if a == left && b == right {
            return v as i32;
        } else if a < left || (a == left && b < right) {
            proof {
                assert forall|i: int| 0 <= i < mid + 1 implies #[trigger] pair_lt(
                    table@[i].0,
                    table@[i].1,
                    left,
                    right,
                ) by {
                    if i < mid {
                        assert(!pair_lt(table@[mid as int].0, table@[mid as int].1, table@[i].0, table@[i].1));
                    }
                }
            }
            lo = mid + 1;
        } else {
            proof {
                assert forall|i: int| mid <= i < table@.len() implies #[trigger] pair_lt(
                    left,
                    right,
                    table@[i].0,
                    table@[i].1,
                ) by {
                    if i > mid {
                        assert(!pair_lt(table@[i].0, table@[i].1, table@[mid as int].0, table@[mid as int].1));
                    }
                }
            }
            hi = mid;
        }
    }
    proof {
        assert forall|i: int| 0 <= i < table@.len() implies !(#[trigger] table@[i].0 == left
            && table@[i].1 == right) by {
            if i < lo {
                assert(pair_lt(table@[i].0, table@[i].1, left, right));
            } else {
                assert(pair_lt(left, right, table@[i].0, table@[i].1));
            }
        }
    }
    0
}

} // verus!
verus! {

/// The kern table lists each pair at most once, in increasing order.
pub open spec fn kern_table_strict(table: Seq<(u8, u8, i16)>) -> bool {
    forall|i: int, j: int|
        0 <= i < j < table.len() ==> pair_lt(table[i].0, table[i].1, table[j].0, table[j].1)
}

/// The kerning of `(left, right)` in a table that lists each pair once: the
/// entry's adjustment, or 0 when the pair has no entry.
pub open spec fn pair_kern(table: Seq<(u8, u8, i16)>, left: u8, right: u8) -> int {
    if has_pair(table, left, right) {
        table[choose|i: int|
            0 <= i < table.len() && #[trigger] table[i].0 == left && table[i].1 == right].2 as int
    } else {
        0
    }
}

/// Whether the kern between bytes `i` and `i + 1` applies: there is a next
/// byte, and `i + 1` does not start a new shaping run.
pub open spec fn kerns_after(bytes: Seq<u8>, i: int) -> bool {
    i + 1 < bytes.len() && !(starts_with_bullet(bytes) && i + 1 == 2)
}

/// The advance of byte `i` in font units: its width plus, where kerning
/// applies, the kern against the next byte.
pub open spec fn advance_unit(bytes: Seq<u8>, widths: Seq<u16>, kern: Seq<(u8, u8, i16)>, i: int) -> int {
    widths[bytes[i] as int] as int + if kerns_after(bytes, i) {
        pair_kern(kern, bytes[i], bytes[i + 1])
    } else {
        0
    }
}

proof fn lemma_strict_is_sorted(table: Seq<(u8, u8, i16)>)
    requires
        kern_table_strict(table),
    ensures
        kern_table_sorted(table),
{
    assert forall|i: int, j: int| 0 <= i < j < table.len() implies !pair_lt(
        table[j].0,
        table[j].1,
        table[i].0,
        table[i].1,
    ) by {
        assert(pair_lt(table[i].0, table[i].1, table[j].0, table[j].1));
    }
}

proof fn lemma_kern_units_is_pair_kern(table: Seq<(u8, u8, i16)>, left: u8, right: u8, k: i32)
    requires
        kern_table_strict(table),
        has_pair(table, left, right) ==> exists|i: int|
            0 <= i < table.len() && table[i].0 == left && table[i].1 == right && k == table[i].2 as i32,
        !has_pair(table, left, right) ==> k == 0,
    ensures
        k == pair_kern(table, left, right),
{
    if has_pair(table, left, right) {
        let i = choose|i: int|
            0 <= i < table.len() && table[i].0 == left && table[i].1 == right && k == table[i].2 as i32;
        let c = choose|i: int|
            0 <= i < table.len() && #[trigger] table[i].0 == left && table[i].1 == right;
        if i < c {
            assert(pair_lt(table[i].0, table[i].1, table[c].0, table[c].1));
        } else if c < i {
            assert(pair_lt(table[c].0, table[c].1, table[i].0, table[i].1));
        }
    }
}

/// Per-byte advances of an encoded line, in font units (thousandths of the
/// font size): each byte's width plus the kern against the following byte.
/// Kerning never crosses a run boundary, so the bullet marker of a bullet line
/// is not kerned against the text after it. Scaling to points, letter spacing
/// and word spacing are applied by the caller.
pub fn advance_units(bytes: &[u8], widths: &[u16; 256], kern: &[(u8, u8, i16)]) -> (r: Vec<i32>)
    requires
        kern_table_strict(kern@),
    ensures
        r@.len() == bytes@.len(),
        forall|i: int| 0 <= i < bytes@.len() ==> #[trigger] r@[i] == advance_unit(bytes@, widths@, kern@, i),
{
    proof {
        lemma_strict_is_sorted(kern@);
    }
    let boundaries = run_boundaries(bytes);
    let bullet = boundaries.len() > 0;
    let mut out: Vec<i32> = Vec::new();
    let n = bytes.len();
    let mut i: usize = 0;
    while i < n
        invariant
            n == bytes@.len(),
            i <= n,
            bullet == starts_with_bullet(bytes@),
            kern_table_strict(kern@),
            kern_table_sorted(kern@),
            widths@.len() == 256,
            out@.len() == i,
            forall|j: int| 0 <= j < i ==> #[trigger] out@[j] == advance_unit(bytes@, widths@, kern@, j),
        decreases n - i,
    {
        let b = bytes[i];
        let mut advance: i32 = widths[b as usize] as i32;
        if i + 1 < n && !(bullet && i + 1 == 2) {
            let k = kern_units(kern, b, bytes[i + 1]);
            proof {
                lemma_kern_units_is_pair_kern(kern@, b, bytes@[i + 1], k);
            }
            advance = advance + k;
        }
        out.push(advance);
        i += 1;
    }
    out
}

} // verus!
verus! {

/// A bullet line's marker is a run of its own: the space after the bullet
/// keeps its plain width, whatever the kern table says about the space and
/// the first letter of the item.
pub proof fn law_no_kern_across_bullet_run(bytes: Seq<u8>, widths: Seq<u16>, kern: Seq<(u8, u8, i16)>)
    requires
        starts_with_bullet(bytes),
        bytes.len() >= 3,
        widths.len() == 256,
    ensures
        advance_unit(bytes, widths, kern, 1) == widths[0x20] as int,
{
}

} // verus!
verus! {

/// The kerned seams among the first `k` bytes: each offset `i + 1` where the
/// kern between bytes `i` and `i + 1` applies and is not zero, with that kern.
pub open spec fn kern_points_upto(bytes: Seq<u8>, kern: Seq<(u8, u8, i16)>, k: nat) -> Seq<(usize, i32)>
    decreases k,
{
    if k == 0 {
        Seq::empty()
    } else {
        let i = k - 1;
        let rest = kern_points_upto(bytes, kern, (k - 1) as nat);
        if kerns_after(bytes, i) && pair_kern(kern, bytes[i], bytes[i + 1]) != 0 {
            rest.push(((i + 1) as usize, pair_kern(kern, bytes[i], bytes[i + 1]) as i32))
        } else {
            rest
        }
    }
}

/// Where an encoded line must be cut into separately positioned runs because
/// a kern applies: each offset at which a run ends, in increasing order, and
/// the kern in font units to add after it. No seam falls on a run boundary.
pub fn kern_points(bytes: &[u8], kern: &[(u8, u8, i16)]) -> (r: Vec<(usize, i32)>)
    requires
        kern_table_strict(kern@),
    ensures
        r@ == kern_points_upto(bytes@, kern@, bytes@.len()),
{
    proof {
        lemma_strict_is_sorted(kern@);
    }
    let boundaries = run_boundaries(bytes);
    let bullet = boundaries.len() > 0;
    let mut out: Vec<(usize, i32)> = Vec::new();
    let n = bytes.len();
    let mut i: usize = 0;
    while i < n
        invariant
            n == bytes@.len(),
            i <= n,
            bullet == starts_with_bullet(bytes@),
            kern_table_strict(kern@),
            kern_table_sorted(kern@),
            out@ == kern_points_upto(bytes@, kern@, i as nat),
        decreases n - i,
    {
        if i + 1 < n && !(bullet && i + 1 == 2) {
            let k = kern_units(kern, bytes[i], bytes[i + 1]);
            proof {
                lemma_kern_units_is_pair_kern(kern@, bytes@[i as int], bytes@[i + 1], k);
            }
            if k != 0 {
                out.push((i + 1, k));
            }
        }
        i += 1;
    }
    out
}

} // verus!
verus! {

/// Printable ASCII and the Latin-1 characters from U+00A0 to U+00FF are their
/// own WinAnsi bytes: `é` is 0xE9, `ü` is 0xFC, `A` is 0x41.
pub proof fn law_latin1_is_itself(c: char)
    requires
        (0x20 <= c as u32 <= 0x7e) || (0xa0 <= c as u32 <= 0xff),
    ensures
        winansi(c) as u32 == c as u32,
{
}

/// No two characters share a WinAnsi byte other than the `?` that stands for
/// the characters the encoding lacks, so a viewer can tell every encoded
/// character apart.
pub proof fn law_winansi_distinct(a: char, b: char)
    requires
        winansi(a) == winansi(b),
        winansi(a) != 0x3f,
    ensures
        a == b,
{
    assert(a as u32 == b as u32);
}

} // verus!
