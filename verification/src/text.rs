//! Character-level text helpers shared by the document model and both backends.
use vstd::prelude::*;
use vstd::string::*;

verus! {

/// The Unicode `White_Space` property, which is what `char::is_whitespace`
/// (and so `str::trim`) tests.
pub open spec fn is_ws(c: char) -> bool {
    ||| c == ' '
    ||| ('\u{9}' <= c && c <= '\u{d}')
    ||| c == '\u{85}'
    ||| c == '\u{a0}'
    ||| c == '\u{1680}'
    ||| ('\u{2000}' <= c && c <= '\u{200a}')
    ||| c == '\u{2028}'
    ||| c == '\u{2029}'
    ||| c == '\u{202f}'
    ||| c == '\u{205f}'
    ||| c == '\u{3000}'
}

/// Whether `c` is Unicode white space.
pub fn is_whitespace(c: char) -> (b: bool)
    ensures
        b == is_ws(c),
{
    c == ' ' || ('\u{9}' <= c && c <= '\u{d}') || c == '\u{85}' || c == '\u{a0}' || c == '\u{1680}'
        || ('\u{2000}' <= c && c <= '\u{200a}') || c == '\u{2028}' || c == '\u{2029}'
        || c == '\u{202f}' || c == '\u{205f}' || c == '\u{3000}'
}

} // verus!
verus! {

/// The characters of `s`, in order.
pub fn to_chars(s: &str) -> (v: Vec<char>)
    ensures
        v@ == s@,
{
    broadcast use vstd::string::group_string_axioms;
    let mut v: Vec<char> = Vec::new();
    for c in it: s.chars()
        invariant
            it.seq() == s@,
            v@ == it.seq().take(it.index() as int),
    {
        v.push(c);
    }
    v
}

} // verus!
verus! {

/// Every character of `s` is white space (the empty sequence included).
pub open spec fn is_blank(s: Seq<char>) -> bool {
    forall|i: int| 0 <= i < s.len() ==> is_ws(#[trigger] s[i])
}

/// `s` without its leading white space.
pub open spec fn trim_start_seq(s: Seq<char>) -> Seq<char>
    decreases s.len(),
{
    if s.len() > 0 && is_ws(s[0]) {
        trim_start_seq(s.drop_first())
    } else {
        s
    }
}

/// `s` without its trailing white space.
pub open spec fn trim_end_seq(s: Seq<char>) -> Seq<char>
    decreases s.len(),
{
    if s.len() > 0 && is_ws(s.last()) {
        trim_end_seq(s.drop_last())
    } else {
        s
    }
}

/// `s` without leading or trailing white space.
pub open spec fn trim_seq(s: Seq<char>) -> Seq<char> {
    trim_end_seq(trim_start_seq(s))
}

/// `p` is a prefix of `s`.
pub open spec fn has_prefix(s: Seq<char>, p: Seq<char>) -> bool {
    p.len() <= s.len() && s.take(p.len() as int) == p
}

/// `s` with every leading repetition of the non-empty pattern `p` removed.
pub open spec fn strip_all(s: Seq<char>, p: Seq<char>) -> Seq<char>
    decreases s.len(),
{
    if p.len() > 0 && has_prefix(s, p) {
        strip_all(s.skip(p.len() as int), p)
    } else {
        s
    }
}

/// The parts, in order, with `sep` between neighbours.
pub open spec fn join_seq(parts: Seq<Seq<char>>, sep: Seq<char>) -> Seq<char>
    decreases parts.len(),
{
    if parts.len() == 0 {
        Seq::empty()
    } else if parts.len() == 1 {
        parts[0]
    } else {
        join_seq(parts.drop_last(), sep) + sep + parts.last()
    }
}

pub proof fn lemma_trim_start_skip(s: Seq<char>, k: int)
    requires
        0 <= k <= s.len(),
        forall|i: int| 0 <= i < k ==> is_ws(#[trigger] s[i]),
        k == s.len() || !is_ws(s[k]),
    ensures
        trim_start_seq(s) == s.skip(k),
    decreases k,
{
    if k == 0 {
        assert(s.skip(0) =~= s);
    } else {
        let t = s.drop_first();
        assert forall|i: int| 0 <= i < k - 1 implies is_ws(#[trigger] t[i]) by {
            assert(t[i] == s[i + 1]);
        }
        if k - 1 < t.len() {
            assert(t[k - 1] == s[k]);
        }
        lemma_trim_start_skip(t, k - 1);
        assert(t.skip(k - 1) =~= s.skip(k));
    }
}

pub proof fn lemma_trim_end_take(s: Seq<char>, k: int)
    requires
        0 <= k <= s.len(),
        forall|i: int| k <= i < s.len() ==> is_ws(#[trigger] s[i]),
        k == 0 || !is_ws(s[k - 1]),
    ensures
        trim_end_seq(s) == s.take(k),
    decreases s.len() - k,
{
    if k == s.len() {
        assert(s.take(k) =~= s);
    } else {
        let t = s.drop_last();
        assert forall|i: int| k <= i < t.len() implies is_ws(#[trigger] t[i]) by {
            assert(t[i] == s[i]);
        }
        if k > 0 {
            assert(t[k - 1] == s[k - 1]);
        }
        lemma_trim_end_take(t, k);
        assert(t.take(k) =~= s.take(k));
    }
}

/// A trimmed sequence is empty exactly when the untrimmed one is blank.
pub proof fn lemma_trim_empty_iff_blank(s: Seq<char>)
    ensures
        trim_seq(s).len() == 0 <==> is_blank(s),
    decreases s.len(),
{
    if s.len() > 0 && is_ws(s[0]) {
        lemma_trim_empty_iff_blank(s.drop_first());
        if is_blank(s.drop_first()) {
            assert forall|i: int| 0 <= i < s.len() implies is_ws(#[trigger] s[i]) by {
                if i > 0 {
                    assert(s[i] == s.drop_first()[i - 1]);
                }
            }
        }
        if is_blank(s) {
            assert forall|i: int| 0 <= i < s.drop_first().len() implies is_ws(
                #[trigger] s.drop_first()[i],
            ) by {
                assert(s.drop_first()[i] == s[i + 1]);
            }
        }
    } else if s.len() > 0 {
        lemma_trim_end_nonempty(s);
    }
}

proof fn lemma_trim_end_nonempty(s: Seq<char>)
    requires
        s.len() > 0,
        !is_ws(s[0]),
    ensures
        trim_end_seq(s).len() > 0,
    decreases s.len(),
{
    if is_ws(s.last()) {
        lemma_trim_end_nonempty(s.drop_last());
    }
}

/// `s` without its leading white space.
pub fn trim_start(s: &str) -> (r: &str)
    ensures
        r@ == trim_start_seq(s@),
{
    let cs = to_chars(s);
    let n = cs.len();
    let mut start: usize = 0;
    while start < n && is_whitespace(cs[start])
        invariant
            cs@ == s@,
            n == cs.len(),
            start <= n,
            forall|i: int| 0 <= i < start ==> is_ws(#[trigger] s@[i]),
        decreases n - start,
    {
        start += 1;
    }
    proof {
        lemma_trim_start_skip(s@, start as int);
        assert(s@.skip(start as int) =~= s@.subrange(start as int, n as int));
    }
    s.substring_char(start, n)
}

/// `s` without leading or trailing white space.
pub fn trim(s: &str) -> (r: &str)
    ensures
        r@ == trim_seq(s@),
{
    let cs = to_chars(s);
    let n = cs.len();
    let mut start: usize = 0;
    while start < n && is_whitespace(cs[start])
        invariant
            cs@ == s@,
            n == cs.len(),
            start <= n,
            forall|i: int| 0 <= i < start ==> is_ws(#[trigger] s@[i]),
        decreases n - start,
    {
        start += 1;
    }
    proof {
        lemma_trim_start_skip(s@, start as int);
    }
    let mut end: usize = n;
    while end > start && is_whitespace(cs[end - 1])
        invariant
            cs@ == s@,
            n == cs.len(),
            start <= end <= n,
            forall|i: int| end <= i < n ==> is_ws(#[trigger] s@[i]),
        decreases end,
    {
        end -= 1;
    }
    proof {
        let t = s@.skip(start as int);
        let k = end - start;
        assert forall|i: int| k <= i < t.len() implies is_ws(#[trigger] t[i]) by {
            assert(t[i] == s@[i + start]);
        }
        if k > 0 {
            assert(t[k - 1] == s@[end - 1]);
        }
        lemma_trim_end_take(t, k);
        assert(t.take(k) =~= s@.subrange(start as int, end as int));
    }
    s.substring_char(start, end)
}

/// Whether `s` holds nothing but white space.
pub fn is_blank_str(s: &str) -> (b: bool)
    ensures
        b == is_blank(s@),
{
    let cs = to_chars(s);
    let mut i: usize = 0;
    while i < cs.len()
        invariant
            cs@ == s@,
            i <= cs.len(),
            forall|j: int| 0 <= j < i ==> is_ws(#[trigger] s@[j]),
        decreases cs.len() - i,
    {
        if !is_whitespace(cs[i]) {
            return false;
        }
        i += 1;
    }
    true
}

/// Whether `p` is a prefix of `s`.
pub fn starts_with(s: &str, p: &str) -> (b: bool)
    ensures
        b == has_prefix(s@, p@),
{
    let cs = to_chars(s);
    let cp = to_chars(p);
    if cp.len() > cs.len() {
        return false;
    }
    let mut i: usize = 0;
    while i < cp.len()
        invariant
            cs@ == s@,
            cp@ == p@,
            cp.len() <= cs.len(),
            i <= cp.len(),
            forall|j: int| 0 <= j < i ==> s@[j] == p@[j],
        decreases cp.len() - i,
    {
        if cs[i] != cp[i] {
            assert(s@.take(p@.len() as int)[i as int] != p@[i as int]);
            return false;
        }
        i += 1;
    }
    assert(s@.take(p@.len() as int) =~= p@);
    true
}

/// `s` with every leading repetition of `p` removed, as `str::trim_start_matches` does.
pub fn strip_prefixes<'a>(s: &'a str, p: &str) -> (r: &'a str)
    requires
        p@.len() > 0,
    ensures
        r@ == strip_all(s@, p@),
{
    let cs = to_chars(s);
    let cp = to_chars(p);
    let n = cs.len();
    let m = cp.len();
    let mut pos: usize = 0;
    assert(s@.skip(0) =~= s@);
    loop
        invariant
            cs@ == s@,
            cp@ == p@,
            n == cs.len(),
            m == cp.len(),
            m > 0,
            pos <= n,
            strip_all(s@, p@) == strip_all(s@.skip(pos as int), p@),
        decreases n - pos,
    {
        let ghost rest = s@.skip(pos as int);
        if m > n - pos {
            assert(!has_prefix(rest, p@));
            assert(s@.subrange(pos as int, n as int) =~= rest);
            return s.substring_char(pos, n);
        }
        let mut i: usize = 0;
        let mut matches = true;
        while i < m
            invariant
                cs@ == s@,
                cp@ == p@,
                n == cs.len(),
                m == cp.len(),
                pos + m <= n,
                i <= m,
                rest == s@.skip(pos as int),
                matches ==> forall|j: int| 0 <= j < i ==> rest[j] == p@[j],
                !matches ==> !has_prefix(rest, p@),
            decreases m - i,
        {
            if cs[pos + i] != cp[i] {
                assert(rest.take(m as int)[i as int] != p@[i as int]);
                matches = false;
            }
            i += 1;
        }
        if !matches {
            assert(s@.subrange(pos as int, n as int) =~= rest);
            return s.substring_char(pos, n);
        }
        assert(rest.take(m as int) =~= p@);
        assert(rest.skip(m as int) =~= s@.skip(pos + m));
        pos = pos + m;
    }
}

} // verus!
verus! {

/// The views of a list of strings.
pub open spec fn views(v: Seq<String>) -> Seq<Seq<char>> {
    v.map_values(|s: String| s@)
}

/// The strings of `parts`, in order, with `sep` between neighbours.
pub fn join(parts: &Vec<String>, sep: &str) -> (r: String)
    ensures
        r@ == join_seq(views(parts@), sep@),
{
    let mut res = String::new();
    let ghost all = views(parts@);
    let n = parts.len();
    let mut i: usize = 0;
    while i < n
        invariant
            n == parts.len(),
            i <= n,
            all == views(parts@),
            res@ == join_seq(all.take(i as int), sep@),
        decreases n - i,
    {
        assert(all.take(i + 1).drop_last() =~= all.take(i as int));
        if i != 0 {
            res.append(sep);
        }
        res.append(parts[i].as_str());
        i += 1;
    }
    assert(all.take(n as int) =~= all);
    res
}

/// The owned copy of `s`.
pub fn owned(s: &str) -> (r: String)
    ensures
        r@ == s@,
{
    String::from_str(s)
}

/// `a` followed by `b`.
pub fn concat2(a: &str, b: &str) -> (r: String)
    ensures
        r@ == a@ + b@,
{
    let mut r = String::from_str(a);
    r.append(b);
    r
}

/// The decimal digits of `n`, most significant first, with no leading zero.
pub open spec fn decimal(n: nat) -> Seq<char>
    decreases n,
{
    if n < 10 {
        seq![digit_char(n)]
    } else {
        decimal(n / 10).push(digit_char(n % 10))
    }
}

pub open spec fn digit_char(d: nat) -> char {
    if d == 0 { '0' }
    else if d == 1 { '1' }
    else if d == 2 { '2' }
    else if d == 3 { '3' }
    else if d == 4 { '4' }
    else if d == 5 { '5' }
    else if d == 6 { '6' }
    else if d == 7 { '7' }
    else if d == 8 { '8' }
    else { '9' }
}

/// The decimal representation of `n`, as `u32`'s `Display` writes it.
pub fn decimal_string(n: u32) -> (r: String)
    ensures
        r@ == decimal(n as nat),
    decreases n,
{
    let digits = "0123456789";
    proof {
        reveal_strlit("0123456789");
    }
    let d = (n % 10) as usize;
    let last = digits.substring_char(d, d + 1);
    assert(last@ =~= seq![digit_char(d as nat)]);
    if n < 10 {
        owned(last)
    } else {
        let mut r = decimal_string(n / 10);
        r.append(last);
        r
    }
}

} // verus!
verus! {

/// Trimming a sequence that is not blank leaves one that is not blank.
pub proof fn lemma_trim_keeps_non_blank(s: Seq<char>)
    requires
        !is_blank(s),
    ensures
        !is_blank(trim_seq(s)),
{
    lemma_trim_start_keeps_non_blank(s);
    lemma_trim_end_keeps_non_blank(trim_start_seq(s));
}

proof fn lemma_trim_start_keeps_non_blank(s: Seq<char>)
    requires
        !is_blank(s),
    ensures
        !is_blank(trim_start_seq(s)),
    decreases s.len(),
{
    if s.len() > 0 && is_ws(s[0]) {
        let i = choose|i: int| 0 <= i < s.len() && !is_ws(#[trigger] s[i]);
        assert(s.drop_first()[i - 1] == s[i]);
        lemma_trim_start_keeps_non_blank(s.drop_first());
    }
}

proof fn lemma_trim_end_keeps_non_blank(s: Seq<char>)
    requires
        !is_blank(s),
    ensures
        !is_blank(trim_end_seq(s)),
    decreases s.len(),
{
    if s.len() > 0 && is_ws(s.last()) {
        let i = choose|i: int| 0 <= i < s.len() && !is_ws(#[trigger] s[i]);
        assert(s.drop_last()[i] == s[i]);
        lemma_trim_end_keeps_non_blank(s.drop_last());
    }
}

/// A join begins with its first part.
pub proof fn lemma_join_starts_with_first(parts: Seq<Seq<char>>, sep: Seq<char>)
    requires
        parts.len() >= 1,
    ensures
        has_prefix(join_seq(parts, sep), parts[0]),
    decreases parts.len(),
{
    if parts.len() > 1 {
        lemma_join_starts_with_first(parts.drop_last(), sep);
        let j = join_seq(parts.drop_last(), sep);
        assert(parts.drop_last()[0] == parts[0]);
        assert((j + sep + parts.last()).take(parts[0].len() as int) =~= j.take(
            parts[0].len() as int,
        ));
        assert(join_seq(parts, sep) == j + sep + parts.last());
    } else {
        assert(parts[0].take(parts[0].len() as int) =~= parts[0]);
    }
}

/// A join whose first part is not blank is not blank.
pub proof fn lemma_join_non_blank(parts: Seq<Seq<char>>, sep: Seq<char>)
    requires
        parts.len() >= 1,
        !is_blank(parts[0]),
    ensures
        !is_blank(join_seq(parts, sep)),
{
    lemma_join_starts_with_first(parts, sep);
    let j = join_seq(parts, sep);
    let i = choose|i: int| 0 <= i < parts[0].len() && !is_ws(#[trigger] parts[0][i]);
    assert(j.take(parts[0].len() as int)[i] == j[i]);
}

} // verus!
verus! {

/// What `str::to_uppercase` returns for a string of these characters: the
/// Unicode full uppercase mapping, character by character.
pub uninterp spec fn uppercase(s: Seq<char>) -> Seq<char>;

/// `str::to_uppercase`. Trusted: the result is `uppercase` of the argument's
/// characters. The Unicode case tables themselves are not written out, so no
/// clause says what `uppercase` gives on particular characters.
#[verifier::external_body]
pub(crate) fn to_uppercase(s: &str) -> (r: String)
    ensures
        r@ == uppercase(s@),
{
    s.to_uppercase()
}

} // verus!
verus! {

/// Scanning `s` for words: the words finished so far, and the characters of
/// the word still open (empty between words).
pub open spec fn word_scan(s: Seq<char>) -> (Seq<Seq<char>>, Seq<char>)
    decreases s.len(),
{
    if s.len() == 0 {
        (Seq::empty(), Seq::empty())
    } else {
        let (done, open) = word_scan(s.drop_last());
        if !is_ws(s.last()) {
            (done, open.push(s.last()))
        } else if open.len() == 0 {
            (done, open)
        } else {
            (done.push(open), Seq::empty())
        }
    }
}

/// The words of `s`: its maximal runs of characters that are not white space,
/// in order, as `str::split_whitespace` yields them.
pub open spec fn words_spec(s: Seq<char>) -> Seq<Seq<char>> {
    let (done, open) = word_scan(s);
    if open.len() == 0 {
        done
    } else {
        done.push(open)
    }
}

/// A word: not empty, and no white space in it.
pub open spec fn is_word(w: Seq<char>) -> bool {
    w.len() > 0 && forall|i: int| 0 <= i < w.len() ==> !is_ws(#[trigger] w[i])
}

proof fn lemma_word_scan_words(s: Seq<char>)
    ensures
        forall|i: int| 0 <= i < word_scan(s).0.len() ==> is_word(#[trigger] word_scan(s).0[i]),
        forall|i: int| 0 <= i < word_scan(s).1.len() ==> !is_ws(#[trigger] word_scan(s).1[i]),
    decreases s.len(),
{
    if s.len() > 0 {
        lemma_word_scan_words(s.drop_last());
        let (done, open) = word_scan(s.drop_last());
        if !is_ws(s.last()) {
            assert forall|i: int| 0 <= i < open.push(s.last()).len() implies !is_ws(
                #[trigger] open.push(s.last())[i],
            ) by {
                if i < open.len() {
                    assert(open.push(s.last())[i] == open[i]);
                }
            }
        } else if open.len() > 0 {
            assert forall|i: int| 0 <= i < done.push(open).len() implies is_word(
                #[trigger] done.push(open)[i],
            ) by {
                if i < done.len() {
                    assert(done.push(open)[i] == done[i]);
                }
            }
        }
    }
}

/// The words of `text`: every one is non-empty and holds no white space.
pub fn words(text: &str) -> (r: Vec<String>)
    ensures
        views(r@) == words_spec(text@),
        forall|i: int| 0 <= i < r@.len() ==> is_word(#[trigger] r@[i]@),
{
    let cs = to_chars(text);
    let n = cs.len();
    let mut out: Vec<String> = Vec::new();
    let mut start: usize = 0;
    let mut i: usize = 0;
    assert(text@.take(0) =~= Seq::<char>::empty());
    while i < n
        invariant
            cs@ == text@,
            n == cs.len(),
            start <= i <= n,
            word_scan(text@.take(i as int)) == (views(out@), text@.subrange(start as int, i as int)),
        decreases n - i,
    {
        let ghost prev = text@.take(i as int);
        assert(text@.take(i + 1).drop_last() =~= prev);
        assert(text@.take(i + 1).last() == cs@[i as int]);
        if !is_whitespace(cs[i]) {
            assert(text@.subrange(start as int, (i + 1) as int) =~= text@.subrange(
                start as int,
                i as int,
            ).push(cs@[i as int]));
        } else {
            if start < i {
                let ghost before = out@;
                let word = owned(text.substring_char(start, i));
                out.push(word);
                assert(views(out@) =~= views(before).push(text@.subrange(start as int, i as int)));
            }
            start = i + 1;
            assert(text@.subrange(start as int, (i + 1) as int) =~= Seq::<char>::empty());
        }
        i += 1;
    }
    assert(text@.take(n as int) =~= text@);
    if start < n {
        let ghost before = out@;
        let word = owned(text.substring_char(start, n));
        out.push(word);
        assert(views(out@) =~= views(before).push(text@.subrange(start as int, n as int)));
    }
    proof {
        lemma_word_scan_words(text@);
        let done = word_scan(text@).0;
        let open = word_scan(text@).1;
        assert forall|k: int| 0 <= k < out@.len() implies is_word(#[trigger] out@[k]@) by {
            assert(views(out@)[k] == out@[k]@);
            if k < done.len() {
                assert(words_spec(text@)[k] == done[k]);
            } else {
                assert(open.len() > 0);
                assert(words_spec(text@)[k] == open);
                assert forall|j: int| 0 <= j < open.len() implies !is_ws(#[trigger] open[j]) by {
                    assert(!is_ws(word_scan(text@).1[j]));
                }
            }
        }
    }
    out
}

} // verus!
