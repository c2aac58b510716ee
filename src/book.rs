use vstd::prelude::*;
use crate::chars::chars_of;
use crate::deunicode::{
    lemma_locate_bounds, lemma_locate_mono, locate_from, occurrences, original_index,
    prefix_sum, ranges_of, Deunicode, Range, lemma_ranges_valid, offsets_of, folded,
};
use crate::text::{is_white_space, lower_of, lowercase, push_char, white_space};

verus! {

/// Where a match shows in the wrapped layout: the (row, column) of its first
/// character, and how many of its characters fall on each line from there.
#[derive(Debug)]
pub struct Highlight {
    pub anchor: (usize, usize),
    pub spans: Vec<usize>,
}

/// The line lengths as integers.
pub open spec fn lens_of(v: Seq<usize>) -> Seq<int> {
    Seq::new(v.len(), |i: int| v[i] as int)
}

/// Sum of `l[k..]`.
pub open spec fn suffix_sum(l: Seq<int>, k: int) -> int
    decreases l.len() - k,
{
    if k < 0 || k >= l.len() {
        0
    } else {
        l[k] + suffix_sum(l, k + 1)
    }
}

/// Sum of a sequence.
pub open spec fn seq_sum(s: Seq<int>) -> int
    decreases s.len(),
{
    if s.len() == 0 {
        0
    } else {
        s[0] + seq_sum(s.drop_first())
    }
}

/// Spans on the lines from `k` on of a match with `rem` characters left: a
/// whole line while the rest does not fit on it, then the rest.
pub open spec fn rest_spans(l: Seq<int>, k: int, rem: int) -> Seq<int>
    decreases l.len() - k,
{
    if k < 0 || k >= l.len() {
        Seq::empty()
    } else if l[k] >= rem {
        seq![rem]
    } else {
        seq![l[k]] + rest_spans(l, k + 1, rem - l[k])
    }
}

/// The row holding character `start`.
pub open spec fn anchor_row(l: Seq<int>, start: int) -> int {
    locate_from(l, start, 0)->0 as int
}

/// The spans of a match `[start, end)` on lines of lengths `l`.
pub open spec fn highlight_spans(l: Seq<int>, start: int, end: int) -> Seq<int> {
    let row = anchor_row(l, start);
    let col = start - prefix_sum(l, row);
    let rem = end - start;
    let first = if rem < l[row] - col { rem } else { l[row] - col };
    seq![first] + rest_spans(l, row + 1, rem - first)
}

/// `h` places the match `[start, end)` on lines of lengths `l`.
pub open spec fn places(h: Highlight, l: Seq<int>, start: int, end: int) -> bool {
    let row = anchor_row(l, start);
    &&& h.anchor.0 as int == row
    &&& h.anchor.1 as int == start - prefix_sum(l, row)
    &&& lens_of(h.spans@) == highlight_spans(l, start, end)
}

proof fn lemma_locate_found(o: Seq<int>, off: int, from: int)
    requires
        o.len() <= usize::MAX,
        0 <= from <= o.len(),
        prefix_sum(o, from) <= off < prefix_sum(o, o.len() as int),
    ensures
        locate_from(o, off, from) matches Some(i) && from <= i < o.len()
            && prefix_sum(o, i as int) <= off < prefix_sum(o, i + 1),
    decreases o.len() - from,
{
    if from == o.len() {
    } else if off < prefix_sum(o, from + 1) {
    } else {
        lemma_locate_found(o, off, from + 1);
    }
}

proof fn lemma_prefix_suffix(l: Seq<int>, k: int)
    requires
        0 <= k <= l.len(),
    ensures
        prefix_sum(l, k) + suffix_sum(l, k) == prefix_sum(l, l.len() as int),
    decreases k,
{
    if k > 0 {
        lemma_prefix_suffix(l, k - 1);
    } else {
        lemma_suffix_total(l, 0);
    }
}

proof fn lemma_suffix_total(l: Seq<int>, k: int)
    requires
        0 <= k <= l.len(),
    ensures
        suffix_sum(l, k) == prefix_sum(l, l.len() as int) - prefix_sum(l, k),
    decreases l.len() - k,
{
    if k < l.len() {
        lemma_suffix_total(l, k + 1);
    }
}

proof fn lemma_suffix_nonneg(l: Seq<int>, k: int)
    requires
        forall|j: int| 0 <= j < l.len() ==> l[j] >= 0,
    ensures
        suffix_sum(l, k) >= 0,
    decreases l.len() - k,
{
    if 0 <= k < l.len() {
        lemma_suffix_nonneg(l, k + 1);
    }
}

proof fn lemma_sum_cons(x: int, s: Seq<int>)
    ensures
        seq_sum(seq![x] + s) == x + seq_sum(s),
{
    assert((seq![x] + s).drop_first() =~= s);
}

proof fn lemma_rest_sum(l: Seq<int>, k: int, rem: int)
    requires
        0 <= k,
        0 <= rem <= suffix_sum(l, k),
        forall|j: int| 0 <= j < l.len() ==> l[j] >= 0,
    ensures
        seq_sum(rest_spans(l, k, rem)) == rem,
    decreases l.len() - k,
{
    if k >= l.len() {
    } else if l[k] >= rem {
        lemma_sum_cons(rem, Seq::empty());
    } else {
        lemma_rest_sum(l, k + 1, rem - l[k]);
        lemma_sum_cons(l[k], rest_spans(l, k + 1, rem - l[k]));
    }
}

/// A match that lies wholly within the lines has spans that add up to its
/// length.
pub proof fn lemma_span_conservation(l: Seq<int>, start: int, end: int)
    requires
        l.len() <= usize::MAX,
        forall|j: int| 0 <= j < l.len() ==> l[j] >= 0,
        0 <= start <= end <= prefix_sum(l, l.len() as int),
        start < prefix_sum(l, l.len() as int),
    ensures
        seq_sum(highlight_spans(l, start, end)) == end - start,
{
    lemma_locate_found(l, start, 0);
    let row = anchor_row(l, start);
    let col = start - prefix_sum(l, row);
    let rem = end - start;
    let first = if rem < l[row] - col { rem } else { l[row] - col };
    lemma_prefix_suffix(l, row + 1);
    assert(suffix_sum(l, row) == l[row] + suffix_sum(l, row + 1));
    lemma_suffix_total(l, row + 1);
    lemma_suffix_nonneg(l, row + 1);
    lemma_rest_sum(l, row + 1, rem - first);
    lemma_sum_cons(first, rest_spans(l, row + 1, rem - first));
}

/// Places the match `range` on lines of the lengths `lines_len`.
pub fn locate(lines_len: &Vec<usize>, range: Range) -> (r: Highlight)
    requires
        range.start <= range.end,
        range.start < prefix_sum(lens_of(lines_len@), lines_len@.len() as int),
    ensures
        places(r, lens_of(lines_len@), range.start as int, range.end as int),
{
    let ghost l = lens_of(lines_len@);
    let n = lines_len.len();
    let start = range.start;
    let mut col: usize = start;
    let mut i: usize = 0;
    while i < n
        invariant_except_break
            col as int == start - prefix_sum(l, i as int),
        invariant
            n == l.len(),
            l == lens_of(lines_len@),
            i <= n,
            start < prefix_sum(l, n as int),
            locate_from(l, start as int, 0) == locate_from(l, start as int, i as int),
            forall|k: int| 0 <= k <= i ==> prefix_sum(l, k) <= start,
        ensures
            i < n,
            col as int == start - prefix_sum(l, i as int),
            col < l[i as int],
            locate_from(l, start as int, 0) == Some(i),
        decreases n - i,
    {
        if col < lines_len[i] {
            break;
        }
        col = col - lines_len[i];
        i = i + 1;
    }
    let row = i;
    let mut rem: usize = range.end - start;
    let room = lines_len[row] - col;
    let first = if rem < room { rem } else { room };
    let mut spans: Vec<usize> = Vec::new();
    spans.push(first);
    rem = rem - first;
    let mut k: usize = row + 1;
    proof {
        assert(lens_of(spans@) =~= seq![first as int]);
    }
    while k < n
        invariant_except_break
            lens_of(spans@) + rest_spans(l, k as int, rem as int) == highlight_spans(l, start as int, range.end as int),
        invariant
            n == l.len(),
            l == lens_of(lines_len@),
            row < k <= n,
        ensures
            lens_of(spans@) == highlight_spans(l, start as int, range.end as int),
        decreases n - k,
    {
        let len = lines_len[k];
        if len >= rem {
            proof {
                assert(lens_of(spans@.push(rem)) =~= lens_of(spans@) + seq![rem as int]);
            }
            spans.push(rem);
            break;
        }
        proof {
            assert(lens_of(spans@.push(len)) =~= lens_of(spans@) + seq![len as int]);
            assert(lens_of(spans@) + rest_spans(l, k as int, rem as int)
                =~= lens_of(spans@.push(len)) + rest_spans(l, k + 1, rem - len));
        }
        spans.push(len);
        rem = rem - len;
        k = k + 1;
    }
    Highlight { anchor: (row, col), spans }
}

/// `s` without its trailing white space.
pub open spec fn trim_end_of(s: Seq<char>) -> Seq<char>
    decreases s.len(),
{
    if s.len() > 0 && white_space(s.last()) {
        trim_end_of(s.drop_last())
    } else {
        s
    }
}

/// The pieces of a line, one after the other.
pub open spec fn joined(pieces: Seq<String>) -> Seq<char>
    decreases pieces.len(),
{
    if pieces.len() == 0 {
        Seq::empty()
    } else {
        joined(pieces.drop_last()) + pieces.last()@
    }
}

/// The length that a line takes in the flat text: its trimmed characters and
/// one separator (held at `usize::MAX`).
pub open spec fn line_length(line: Seq<char>) -> int {
    let n = trim_end_of(line).len() + 1int;
    if n <= usize::MAX { n } else { usize::MAX as int }
}

/// The flat text of the lines: each line trimmed at its end and followed by
/// one space.
pub open spec fn flat_text(lines: Seq<Vec<String>>) -> Seq<char>
    decreases lines.len(),
{
    if lines.len() == 0 {
        Seq::empty()
    } else {
        flat_text(lines.drop_last()) + trim_end_of(joined(lines.last()@)) + seq![' ']
    }
}

/// Appends the characters `cs[..k]` to `s`.
fn push_prefix(s: &mut String, cs: &Vec<char>, k: usize)
    requires
        k <= cs@.len(),
    ensures
        final(s)@ == old(s)@ + cs@.subrange(0, k as int),
{
    let mut j: usize = 0;
    while j < k
        invariant
            j <= k <= cs@.len(),
            s@ == old(s)@ + cs@.subrange(0, j as int),
        decreases k - j,
    {
        push_char(s, cs[j]);
        j = j + 1;
        assert(s@ =~= old(s)@ + cs@.subrange(0, j as int));
    }
}

/// The flat text of the wrapped lines of a chapter, each line given as its
/// pieces of text, and the length each line takes in it.
pub fn chapter_text(lines: &Vec<Vec<String>>) -> (r: (String, Vec<usize>))
    ensures
        r.0@ == flat_text(lines@),
        r.1@.len() == lines@.len(),
        forall|i: int| 0 <= i < lines@.len() ==> (#[trigger] r.1@[i]) as int == line_length(joined(lines@[i]@)),
{
    let mut text = String::new();
    let mut lens: Vec<usize> = Vec::new();
    let mut i: usize = 0;
    while i < lines.len()
        invariant
            i <= lines@.len(),
            text@ == flat_text(lines@.subrange(0, i as int)),
            lens@.len() == i,
            forall|k: int| 0 <= k < i ==> (#[trigger] lens@[k]) as int == line_length(joined(lines@[k]@)),
        decreases lines@.len() - i,
    {
        let pieces = &lines[i];
        let mut line = String::new();
        let mut p: usize = 0;
        while p < pieces.len()
            invariant
                p <= pieces@.len(),
                line@ == joined(pieces@.subrange(0, p as int)),
            decreases pieces@.len() - p,
        {
            proof {
                assert(pieces@.subrange(0, p + 1).drop_last() == pieces@.subrange(0, p as int));
            }
            line.append(pieces[p].as_str());
            p = p + 1;
        }
        assert(pieces@.subrange(0, p as int) == pieces@);
        let cs = chars_of(line.as_str());
        let mut k: usize = cs.len();
        assert(cs@.subrange(0, k as int) == cs@);
        while k > 0 && is_white_space(cs[k - 1])
            invariant
                k <= cs@.len(),
                trim_end_of(cs@) == trim_end_of(cs@.subrange(0, k as int)),
            decreases k,
        {
            proof {
                assert(cs@.subrange(0, k as int).drop_last() == cs@.subrange(0, k - 1));
            }
            k = k - 1;
        }
        proof {
            assert(cs@.subrange(0, cs@.len() as int) == cs@);
            assert(trim_end_of(cs@.subrange(0, k as int)) == cs@.subrange(0, k as int));
            assert(lines@.subrange(0, i + 1).drop_last() == lines@.subrange(0, i as int));
            assert(lines@.subrange(0, i + 1).last() == lines@[i as int]);
        }
        push_prefix(&mut text, &cs, k);
        push_char(&mut text, ' ');
        let n: usize = if k < usize::MAX { k + 1 } else { k };
        lens.push(n);
        i = i + 1;
    }
    assert(lines@.subrange(0, i as int) == lines@);
    (text, lens)
}

/// The line lengths that `chapter_text` gives for `lines`.
pub open spec fn line_lengths(lines: Seq<Vec<String>>) -> Seq<int> {
    Seq::new(lines.len(), |i: int| line_length(joined(lines[i]@)))
}

proof fn lemma_prefix_agree(a: Seq<int>, b: Seq<int>, k: int)
    requires
        0 <= k <= a.len(),
        k <= b.len(),
        forall|j: int| 0 <= j < k ==> a[j] == b[j],
    ensures
        prefix_sum(a, k) == prefix_sum(b, k),
    decreases k,
{
    if k > 0 {
        lemma_prefix_agree(a, b, k - 1);
    }
}

/// Where no line is too long for its length to be held, the flat text is as
/// long as all the line lengths together.
pub proof fn lemma_flat_text_len(lines: Seq<Vec<String>>)
    requires
        forall|i: int| 0 <= i < lines.len() ==> trim_end_of(joined((#[trigger] lines[i])@)).len() + 1 <= usize::MAX,
    ensures
        flat_text(lines).len() == prefix_sum(line_lengths(lines), lines.len() as int),
    decreases lines.len(),
{
    if lines.len() > 0 {
        let init = lines.drop_last();
        assert forall|i: int| 0 <= i < init.len() implies trim_end_of(joined((#[trigger] init[i])@)).len() + 1 <= usize::MAX by {
            assert(init[i] == lines[i]);
        }
        lemma_flat_text_len(init);
        lemma_prefix_agree(line_lengths(init), line_lengths(lines), init.len() as int);
        assert(lines[lines.len() - 1] == lines.last());
    }
}

/// The match ranges of `query` in `text`, both lowercased after folding.
pub open spec fn query_ranges(text: Seq<char>, query: Seq<char>) -> Seq<Range> {
    ranges_of(
        offsets_of(text),
        occurrences(lower_of(folded(text)), lower_of(query), 0),
        lower_of(query).len() as int,
    )
}

/// Finds `query` in the flat chapter text `text`, whose wrapped lines have
/// the lengths `lines_len`, regardless of accents and case, and places each
/// match on the lines.
pub fn highlight_query(text: &str, lines_len: &Vec<usize>, query: &str) -> (r: Vec<Highlight>)
    requires
        text@.len() == prefix_sum(lens_of(lines_len@), lines_len@.len() as int),
    ensures
        r@.len() == query_ranges(text@, query@).len(),
        forall|i: int| 0 <= i < r@.len() ==> places(
            #[trigger] r@[i],
            lens_of(lines_len@),
            query_ranges(text@, query@)[i].start as int,
            query_ranges(text@, query@)[i].end as int,
        ),
{
    let d = Deunicode::from(text);
    let hay = lowercase(d.deunicoded());
    let needle = lowercase(query);
    let ranges = d.match_folded(hay.as_str(), needle.as_str());
    let n_chars = text.unicode_len();
    let ghost rs = query_ranges(text@, query@);
    proof {
        assert(d.offsets().len() == n_chars);
        lemma_ranges_valid(d.offsets(), occurrences(hay@, needle@, 0), needle@.len() as int);
    }
    let mut out: Vec<Highlight> = Vec::new();
    let mut i: usize = 0;
    while i < ranges.len()
        invariant
            ranges@ == rs,
            i <= rs.len(),
            out@.len() == i,
            text@.len() == prefix_sum(lens_of(lines_len@), lines_len@.len() as int),
            forall|k: int| 0 <= k < rs.len() ==> {
                &&& (#[trigger] rs[k]).start < text@.len()
                &&& rs[k].start <= rs[k].end
            },
            forall|k: int| 0 <= k < i ==> places(
                #[trigger] out@[k],
                lens_of(lines_len@),
                rs[k].start as int,
                rs[k].end as int,
            ),
        decreases rs.len() - i,
    {
        let h = locate(lines_len, ranges[i]);
        out.push(h);
        i = i + 1;
    }
    out
}

/// Searches the chapter whose wrapped lines are `lines`, each given as its
/// pieces of text: flattens them with `chapter_text` and places the matches
/// of `query` with `highlight_query`. A line too long for its length to be
/// held in a `usize` gives no highlights.
pub fn search_chapter(lines: &Vec<Vec<String>>, query: &str) -> (r: Vec<Highlight>)
    ensures
        (forall|i: int| 0 <= i < lines@.len() ==> trim_end_of(joined((#[trigger] lines@[i])@)).len() + 1 < usize::MAX) ==> {
            let text = flat_text(lines@);
            &&& r@.len() == query_ranges(text, query@).len()
            &&& forall|i: int| 0 <= i < r@.len() ==> places(
                #[trigger] r@[i],
                line_lengths(lines@),
                query_ranges(text, query@)[i].start as int,
                query_ranges(text, query@)[i].end as int,
            )
        },
        !(forall|i: int| 0 <= i < lines@.len() ==> trim_end_of(joined((#[trigger] lines@[i])@)).len() + 1 < usize::MAX) ==> r@.len() == 0,
{
    let (text, lens) = chapter_text(lines);
    let mut i: usize = 0;
    while i < lens.len()
        invariant
            i <= lens@.len(),
            lens@.len() == lines@.len(),
            forall|k: int| 0 <= k < lines@.len() ==> (#[trigger] lens@[k]) as int == line_length(joined(lines@[k]@)),
            forall|k: int| 0 <= k < i ==> trim_end_of(joined((#[trigger] lines@[k])@)).len() + 1 < usize::MAX,
        decreases lens@.len() - i,
    {
        if lens[i] == usize::MAX {
            assert(!(trim_end_of(joined(lines@[i as int]@)).len() + 1 < usize::MAX));
            return Vec::new();
        }
        i = i + 1;
    }
    proof {
        lemma_flat_text_len(lines@);
        assert(lens_of(lens@) =~= line_lengths(lines@));
    }
    highlight_query(text.as_str(), &lens, query)
}

} // verus!
