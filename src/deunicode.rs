use vstd::prelude::*;
use crate::chars::chars_of;
use crate::parser::opt_chars;

verus! {

/// Name for what `deunicode::deunicode_char` returns for a character: its
/// ASCII transliteration, or none where the table holds none.
pub uninterp spec fn deunicode_of(c: char) -> Option<Seq<char>>;

/// Relies on `deunicode::deunicode_char`: the transliteration of one
/// character, which depends on the character alone.
#[verifier::external_body]
fn transliterate(c: char) -> (r: Option<String>)
    ensures
        opt_chars(r) == deunicode_of(c),
{
    deunicode::deunicode_char(c).map(String::from)
}

/// The folded form of one character: its transliteration, empty where there
/// is none.
pub open spec fn fold_of(c: char) -> Seq<char> {
    match deunicode_of(c) {
        Some(t) => t,
        None => Seq::empty(),
    }
}

/// The folded form of a text: the folded forms of its characters, one after
/// the other.
pub open spec fn folded(s: Seq<char>) -> Seq<char>
    decreases s.len(),
{
    if s.len() == 0 {
        Seq::empty()
    } else {
        folded(s.drop_last()) + fold_of(s.last())
    }
}

/// For each character of `s`, the length of its folded form.
pub open spec fn offsets_of(s: Seq<char>) -> Seq<int> {
    Seq::new(s.len(), |i: int| fold_of(s[i]).len() as int)
}

/// Sum of the first `n` entries of `o`.
pub open spec fn prefix_sum(o: Seq<int>, n: int) -> int
    decreases n,
{
    if n <= 0 {
        0
    } else {
        prefix_sum(o, n - 1) + o[n - 1]
    }
}

/// The first index `i` at or after `from` whose running total
/// `prefix_sum(o, i + 1)` exceeds `off`.
pub open spec fn locate_from(o: Seq<int>, off: int, from: int) -> Option<usize>
    decreases o.len() - from,
{
    if from < 0 || from >= o.len() {
        None
    } else if off < prefix_sum(o, from + 1) {
        Some(from as usize)
    } else {
        locate_from(o, off, from + 1)
    }
}

/// The original index whose folded form holds the folded position `off`.
pub open spec fn original_index(o: Seq<int>, off: int) -> Option<usize> {
    locate_from(o, off, 0)
}

/// The original index that ends a match at folded position `off`: the
/// length of the text when `off` is the end of the folded text, else the
/// original index that holds `off`.
pub open spec fn end_index(o: Seq<int>, off: int) -> Option<usize> {
    if off == prefix_sum(o, o.len() as int) {
        Some(o.len() as usize)
    } else {
        original_index(o, off)
    }
}

/// The positions of the non-overlapping, leftmost-first occurrences of `q`
/// in `h` at or after `from`; an empty `q` occurs at every position.
pub open spec fn occurrences(h: Seq<char>, q: Seq<char>, from: int) -> Seq<int>
    decreases h.len() + 1 - from,
{
    if from < 0 || from + q.len() > h.len() {
        Seq::empty()
    } else if h.subrange(from, from + q.len()) == q {
        seq![from] + occurrences(h, q, from + if q.len() > 0 { q.len() as int } else { 1 })
    } else {
        occurrences(h, q, from + 1)
    }
}

proof fn lemma_prefix_mono(o: Seq<int>, a: int, b: int)
    requires
        0 <= a <= b <= o.len(),
        forall|k: int| 0 <= k < o.len() ==> o[k] >= 0,
    ensures
        prefix_sum(o, a) <= prefix_sum(o, b),
    decreases b - a,
{
    if a < b {
        lemma_prefix_mono(o, a, b - 1);
    }
}

proof fn lemma_locate_skip(o: Seq<int>, off: int, j: int, i: int)
    requires
        0 <= j <= i <= o.len(),
        forall|k: int| 0 <= k < o.len() ==> o[k] >= 0,
        off >= prefix_sum(o, i),
    ensures
        locate_from(o, off, j) == locate_from(o, off, i),
    decreases i - j,
{
    if j < i {
        lemma_prefix_mono(o, j + 1, i);
        lemma_locate_skip(o, off, j + 1, i);
    }
}

/// What `locate_from` finds lies in `[from, o.len())`.
pub proof fn lemma_locate_bounds(o: Seq<int>, off: int, from: int)
    requires
        o.len() <= usize::MAX,
    ensures
        locate_from(o, off, from) matches Some(i) ==> from <= i < o.len(),
    decreases o.len() - from,
{
    if 0 <= from < o.len() && !(off < prefix_sum(o, from + 1)) {
        lemma_locate_bounds(o, off, from + 1);
    }
}

/// Mapping back keeps order: a later folded position never maps to an
/// earlier original index.
pub proof fn lemma_locate_mono(o: Seq<int>, a: int, b: int, from: int)
    requires
        o.len() <= usize::MAX,
        a <= b,
        locate_from(o, a, from) is Some,
        locate_from(o, b, from) is Some,
    ensures
        locate_from(o, a, from)->0 <= locate_from(o, b, from)->0,
    decreases o.len() - from,
{
    if 0 <= from < o.len() {
        if b < prefix_sum(o, from + 1) {
        } else if a < prefix_sum(o, from + 1) {
            lemma_locate_bounds(o, b, from + 1);
        } else {
            lemma_locate_mono(o, a, b, from + 1);
        }
    }
}

/// Each range that `ranges_of` gives starts at an original index and does
/// not end before it starts.
pub proof fn lemma_ranges_valid(o: Seq<int>, occ: Seq<int>, qlen: int)
    requires
        o.len() <= usize::MAX,
        qlen >= 0,
    ensures
        forall|i: int| 0 <= i < ranges_of(o, occ, qlen).len() ==> {
            &&& (#[trigger] ranges_of(o, occ, qlen)[i]).start < o.len()
            &&& ranges_of(o, occ, qlen)[i].start <= ranges_of(o, occ, qlen)[i].end
        },
    decreases occ.len(),
{
    if occ.len() > 0 {
        let init = ranges_of(o, occ.drop_last(), qlen);
        lemma_ranges_valid(o, occ.drop_last(), qlen);
        let b = occ.last();
        if original_index(o, b) is Some && end_index(o, b + qlen) is Some {
            lemma_locate_bounds(o, b, 0);
            if b + qlen != prefix_sum(o, o.len() as int) {
                lemma_locate_mono(o, b, b + qlen, 0);
            }
            let all = ranges_of(o, occ, qlen);
            assert forall|i: int| 0 <= i < all.len() implies {
                &&& (#[trigger] all[i]).start < o.len()
                &&& all[i].start <= all[i].end
            } by {
                if i < init.len() {
                    assert(all[i] == init[i]);
                }
            }
        }
    }
}

/// Round trip: the last folded position of a character whose folded form is
/// not empty maps back to that character's own index.
pub proof fn lemma_round_trip(s: Seq<char>, i: int)
    requires
        0 <= i < s.len(),
        fold_of(s[i]).len() > 0,
    ensures
        original_index(offsets_of(s), prefix_sum(offsets_of(s), i + 1) - 1) == Some(i as usize),
{
    let o = offsets_of(s);
    let off = prefix_sum(o, i + 1) - 1;
    assert(prefix_sum(o, i + 1) == prefix_sum(o, i) + o[i]);
    lemma_locate_skip(o, off, 0, i);
}

/// A half-open range `[start, end)` of character indices.
#[derive(Clone, Copy, Debug, PartialEq, Eq, Structural)]
pub struct Range {
    pub start: usize,
    pub end: usize,
}

/// The ranges in the original text of the occurrences at `occ`, each `qlen`
/// long; an occurrence whose start or end maps to no original index is left out.
pub open spec fn ranges_of(o: Seq<int>, occ: Seq<int>, qlen: int) -> Seq<Range>
    decreases occ.len(),
{
    if occ.len() == 0 {
        Seq::empty()
    } else {
        let init = ranges_of(o, occ.drop_last(), qlen);
        let b = occ.last();
        match (original_index(o, b), end_index(o, b + qlen)) {
            (Some(s), Some(e)) => init.push(Range { start: s, end: e }),
            _ => init,
        }
    }
}

/// A text folded to ASCII, with the length of each character's folded form,
/// so that positions in the folded text map back to the original.
pub struct Deunicode {
    deunicoded: String,
    offsets: Vec<usize>,
    total: usize,
    source: Ghost<Seq<char>>,
}

impl Deunicode {
    /// The text that was folded.
    pub closed spec fn source(&self) -> Seq<char> {
        self.source@
    }

    /// The folded text.
    pub closed spec fn folded_text(&self) -> Seq<char> {
        self.deunicoded@
    }

    /// Length of each original character's folded form.
    pub closed spec fn offsets(&self) -> Seq<int> {
        Seq::new(self.offsets@.len(), |i: int| self.offsets@[i] as int)
    }

    pub open spec fn wf(&self) -> bool {
        &&& self.folded_text() == folded(self.source())
        &&& self.offsets() == offsets_of(self.source())
        &&& self.total_len() == prefix_sum(self.offsets(), self.offsets().len() as int)
    }

    /// Length of the folded text.
    pub closed spec fn total_len(&self) -> int {
        self.total as int
    }

    /// The folded text.
    pub fn deunicoded(&self) -> (r: &str)
        ensures
            r@ == self.folded_text(),
    {
        self.deunicoded.as_str()
    }

    /// Folds every character of `s`.
    pub fn from(s: &str) -> (r: Deunicode)
        ensures
            r.wf(),
            r.source() == s@,
    {
        let cs = chars_of(s);
        let mut deunicoded = String::new();
        let mut offsets: Vec<usize> = Vec::new();
        let mut i: usize = 0;
        while i < cs.len()
            invariant
                i <= cs@.len(),
                cs@ == s@,
                deunicoded@ == folded(cs@.subrange(0, i as int)),
                offsets@.len() == i,
                forall|k: int| 0 <= k < i ==> offsets@[k] as int == fold_of(cs@[k]).len(),
            decreases cs@.len() - i,
        {
            let c = cs[i];
            let t = match transliterate(c) {
                Some(t) => t,
                None => String::new(),
            };
            proof {
                assert(cs@.subrange(0, i + 1).drop_last() == cs@.subrange(0, i as int));
                assert(t@ == fold_of(c));
            }
            let n = t.unicode_len();
            deunicoded.append(t.as_str());
            offsets.push(n);
            i = i + 1;
        }
        let total = deunicoded.unicode_len();
        let r = Deunicode { deunicoded, offsets, total, source: Ghost(s@) };
        proof {
            assert(cs@.subrange(0, i as int) == cs@);
            assert(r.offsets() =~= offsets_of(s@));
            lemma_folded_len(s@);
        }
        r
    }

    /// The original index whose folded form holds the folded position
    /// `offset`, or `None` from the end of the folded text on.
    pub fn convert_offset(&self, offset: usize) -> (r: Option<usize>)
        ensures
            r == original_index(self.offsets(), offset as int),
    {
        let ghost o = self.offsets();
        let mut count: usize = 0;
        let mut i: usize = 0;
        while i < self.offsets.len()
            invariant
                i <= o.len(),
                o.len() == self.offsets@.len(),
                o == self.offsets(),
                count == prefix_sum(o, i as int),
                offset >= count,
                original_index(o, offset as int) == locate_from(o, offset as int, i as int),
            decreases o.len() - i,
        {
            let c = self.offsets[i];
            assert(o[i as int] == c as int);
            match count.checked_add(c) {
                None => {
                    return Some(i);
                },
                Some(n) => {
                    if offset < n {
                        return Some(i);
                    }
                    count = n;
                },
            }
            i = i + 1;
        }
        None
    }
}

proof fn lemma_prefix_agree(a: Seq<int>, b: Seq<int>, k: int)
    requires
        0 <= k <= a.len(),
        k <= b.len(),
        forall|j: int| 0 <= j < k ==> a[j] == b[j],
    ensures
        prefix_sum(a, k) == prefix_sum(b, k),
    decreases k,
{
    if k > 0 {
        lemma_prefix_agree(a, b, k - 1);
    }
}

proof fn lemma_folded_len(s: Seq<char>)
    ensures
        folded(s).len() == prefix_sum(offsets_of(s), s.len() as int),
    decreases s.len(),
{
    if s.len() > 0 {
        let init = s.drop_last();
        lemma_folded_len(init);
        lemma_prefix_agree(offsets_of(init), offsets_of(s), init.len() as int);
    }
}

/// Whether `q` occurs in `h` at position `pos`.
fn occurs_at(h: &Vec<char>, q: &Vec<char>, pos: usize) -> (r: bool)
    requires
        pos + q@.len() <= h@.len(),
    ensures
        r == (h@.subrange(pos as int, pos + q@.len()) == q@),
{
    let hl = h.len();
    let mut k: usize = 0;
    while k < q.len()
        invariant
            hl == h@.len(),
            pos + q@.len() <= h@.len(),
            k <= q@.len(),
            forall|j: int| 0 <= j < k ==> h@[pos + j] == q@[j],
        decreases q@.len() - k,
    {
        if h[pos + k] != q[k] {
            assert(h@.subrange(pos as int, pos + q@.len())[k as int] != q@[k as int]);
            return false;
        }
        k = k + 1;
    }
    assert(h@.subrange(pos as int, pos + q@.len()) =~= q@);
    true
}

impl Deunicode {
    /// The ranges, in the original text, of the occurrences of `needle` in
    /// `haystack`, a case-folded form of the folded text. Occurrences are
    /// found leftmost first and do not overlap; one whose start or end maps
    /// to no original index is left out.
    pub fn match_folded(&self, haystack: &str, needle: &str) -> (r: Vec<Range>)
        requires
            self.wf(),
        ensures
            r@ == ranges_of(self.offsets(), occurrences(haystack@, needle@, 0), needle@.len() as int),
    {
        let h = chars_of(haystack);
        let q = chars_of(needle);
        let ghost o = self.offsets();
        let ghost all = occurrences(h@, q@, 0);
        let ghost mut done: Seq<int> = Seq::empty();
        let hn = h.len();
        let qn = q.len();
        let step: usize = if qn > 0 { qn } else { 1 };
        let mut out: Vec<Range> = Vec::new();
        let mut pos: usize = 0;
        let mut fin = false;
        while !fin && pos <= hn && qn <= hn - pos
            invariant
                fin ==> all == done,
                hn == h@.len(),
                qn == q@.len(),
                step == if qn > 0 { qn } else { 1 },
                !fin ==> all == done + occurrences(h@, q@, pos as int),
                out@ == ranges_of(o, done, qn as int),
                o == self.offsets(),
                self.wf(),
            decreases hn + 1 - pos + if fin { 0int } else { 1int },
        {
            if occurs_at(&h, &q, pos) {
                let s = self.convert_offset(pos);
                let e = if pos + qn == self.total {
                    Some(self.offsets.len())
                } else {
                    self.convert_offset(pos + qn)
                };
                proof {
                    let d2 = done.push(pos as int);
                    assert(d2.drop_last() == done);
                    assert(done + occurrences(h@, q@, pos as int) == d2 + occurrences(h@, q@, pos + step));
                    done = d2;
                }
                match (s, e) {
                    (Some(s), Some(e)) => {
                        out.push(Range { start: s, end: e });
                    },
                    _ => {},
                }
                match pos.checked_add(step) {
                    Some(p) => {
                        pos = p;
                    },
                    None => {
                        assert(occurrences(h@, q@, pos + step) == Seq::<int>::empty());
                        assert(all == done + Seq::<int>::empty());
                        assert(done + Seq::<int>::empty() =~= done);
                        fin = true;
                    },
                }
            } else {
                assert(qn > 0) by {
                    if qn == 0 {
                        assert(h@.subrange(pos as int, pos as int) =~= q@);
                    }
                }
                pos = pos + 1;
            }
        }
        proof {
            if !fin {
                assert(occurrences(h@, q@, pos as int) == Seq::<int>::empty());
                assert(done + Seq::<int>::empty() =~= done);
            }
        }
        out
    }

    /// The ranges, in the original text, of the occurrences of `f(text)` in
    /// `f` applied to the folded text, where `f` is a case folding such as
    /// lowercasing. Whatever `f` returned, the result is what `match_folded`
    /// gives on those two strings.
    pub fn match_indices<F: Fn(&str) -> String>(&self, f: F, text: &str) -> (r: Vec<Range>)
        requires
            self.wf(),
            forall|s: &str| #[trigger] f.requires((s,)),
        ensures
            exists|a: &str, h: String, b: &str, q: String|
                #![trigger f.ensures((a,), h), f.ensures((b,), q)]
                a@ == self.folded_text() && b@ == text@
                && f.ensures((a,), h) && f.ensures((b,), q)
                && r@ == ranges_of(self.offsets(), occurrences(h@, q@, 0), q@.len() as int),
    {
        let a = self.deunicoded.as_str();
        let h = f(a);
        let q = f(text);
        let r = self.match_folded(h.as_str(), q.as_str());
        assert(f.ensures((a,), h) && f.ensures((text,), q));
        r
    }
}

} // verus!
