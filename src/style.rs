use vstd::prelude::*;

verus! {

/// One visual effect that a run of text can carry.
#[derive(Clone, Copy, Debug, PartialEq, Eq, Structural)]
pub enum Effect {
    Reverse,
    Underline,
    Italic,
    Bold,
    Strikethrough,
    Image,
}

/// A set of effects, one flag per effect.
#[derive(Clone, Copy, Debug, PartialEq, Eq, Structural, Hash)]
pub struct Style {
    pub reverse: bool,
    pub underline: bool,
    pub italic: bool,
    pub bold: bool,
    pub strikethrough: bool,
    pub image: bool,
}

impl Style {
    /// Whether `e` belongs to the set.
    pub open spec fn has(self, e: Effect) -> bool {
        match e {
            Effect::Reverse => self.reverse,
            Effect::Underline => self.underline,
            Effect::Italic => self.italic,
            Effect::Bold => self.bold,
            Effect::Strikethrough => self.strikethrough,
            Effect::Image => self.image,
        }
    }

    /// The set as a mathematical set of effects.
    pub open spec fn view(self) -> Set<Effect> {
        Set::new(|e: Effect| self.has(e))
    }

    pub open spec fn spec_none() -> Style {
        Style {
            reverse: false,
            underline: false,
            italic: false,
            bold: false,
            strikethrough: false,
            image: false,
        }
    }

    pub open spec fn single(e: Effect) -> Style {
        Style {
            reverse: e == Effect::Reverse,
            underline: e == Effect::Underline,
            italic: e == Effect::Italic,
            bold: e == Effect::Bold,
            strikethrough: e == Effect::Strikethrough,
            image: e == Effect::Image,
        }
    }

    /// The union of two sets.
    pub open spec fn union(self, o: Style) -> Style {
        Style {
            reverse: self.reverse || o.reverse,
            underline: self.underline || o.underline,
            italic: self.italic || o.italic,
            bold: self.bold || o.bold,
            strikethrough: self.strikethrough || o.strikethrough,
            image: self.image || o.image,
        }
    }

    /// The union of every set in `styles`.
    pub open spec fn merged(styles: Seq<Style>) -> Style
        decreases styles.len(),
    {
        if styles.len() == 0 {
            Style::spec_none()
        } else {
            Style::merged(styles.drop_last()).union(styles.last())
        }
    }

    /// The empty set.
    pub fn none() -> (r: Style)
        ensures
            r == Style::spec_none(),
            forall|e: Effect| !r.has(e),
    {
        Style {
            reverse: false,
            underline: false,
            italic: false,
            bold: false,
            strikethrough: false,
            image: false,
        }
    }

    /// The set that holds `e` alone.
    pub fn from_effect(e: Effect) -> (r: Style)
        ensures
            r == Style::single(e),
            forall|f: Effect| r.has(f) <==> f == e,
    {
        Style {
            reverse: matches!(e, Effect::Reverse),
            underline: matches!(e, Effect::Underline),
            italic: matches!(e, Effect::Italic),
            bold: matches!(e, Effect::Bold),
            strikethrough: matches!(e, Effect::Strikethrough),
            image: matches!(e, Effect::Image),
        }
    }

    /// Union of two sets.
    pub fn insert_all(&self, o: &Style) -> (r: Style)
        ensures
            r == self.union(*o),
    {
        Style {
            reverse: self.reverse || o.reverse,
            underline: self.underline || o.underline,
            italic: self.italic || o.italic,
            bold: self.bold || o.bold,
            strikethrough: self.strikethrough || o.strikethrough,
            image: self.image || o.image,
        }
    }

    /// The union of all the sets in `styles`.
    pub fn merge(styles: &[Style]) -> (r: Style)
        ensures
            r == Style::merged(styles@),
            forall|e: Effect| r.has(e) <==> exists|i: int| 0 <= i < styles@.len() && (#[trigger] styles@[i]).has(e),
    {
        let mut acc = Style::none();
        let mut i: usize = 0;
        while i < styles.len()
            invariant
                i <= styles@.len(),
                acc == Style::merged(styles@.subrange(0, i as int)),
            decreases styles@.len() - i,
        {
            proof {
                assert(styles@.subrange(0, i + 1).drop_last() == styles@.subrange(0, i as int));
            }
            acc = acc.insert_all(&styles[i]);
            i = i + 1;
        }
        proof {
            assert(styles@.subrange(0, i as int) == styles@);
            lemma_merged_has(styles@);
        }
        acc
    }
}

impl Default for Style {
    fn default() -> (r: Style)
        ensures
            r == Style::spec_none(),
    {
        Style::none()
    }
}

impl From<Effect> for Style {
    fn from(e: Effect) -> (r: Style) {
        Style::from_effect(e)
    }
}

impl vstd::std_specs::convert::FromSpecImpl<Effect> for Style {
    open spec fn obeys_from_spec() -> bool {
        true
    }

    open spec fn from_spec(e: Effect) -> Style {
        Style::single(e)
    }
}

/// An effect is in the merge of a list exactly when some set of the list holds it.
pub proof fn lemma_merged_has(styles: Seq<Style>)
    ensures
        forall|e: Effect| #[trigger] Style::merged(styles).has(e)
            <==> exists|i: int| 0 <= i < styles.len() && (#[trigger] styles[i]).has(e),
    decreases styles.len(),
{
    if styles.len() > 0 {
        let init = styles.drop_last();
        lemma_merged_has(init);
        assert forall|e: Effect| #[trigger] Style::merged(styles).has(e)
            <==> exists|i: int| 0 <= i < styles.len() && (#[trigger] styles[i]).has(e) by {
            assert(Style::merged(styles) == Style::merged(init).union(styles.last()));
            assert(Style::merged(styles).has(e) == (Style::merged(init).has(e) || styles.last().has(e)));
            if Style::merged(init).has(e) {
                let i = choose|i: int| 0 <= i < init.len() && (#[trigger] init[i]).has(e);
                assert(styles[i] == init[i]);
            }
            if styles.last().has(e) {
                assert(styles[styles.len() - 1].has(e));
            }
            if exists|i: int| 0 <= i < styles.len() && (#[trigger] styles[i]).has(e) {
                let i = choose|i: int| 0 <= i < styles.len() && (#[trigger] styles[i]).has(e);
                if i < styles.len() - 1 {
                    assert(init[i] == styles[i]);
                }
            }
        }
    }
}

/// Two styles that hold the same effects are the same style.
pub proof fn lemma_style_ext(a: Style, b: Style)
    requires
        forall|e: Effect| a.has(e) <==> b.has(e),
    ensures
        a == b,
{
    assert(a.has(Effect::Reverse) == b.has(Effect::Reverse));
    assert(a.has(Effect::Underline) == b.has(Effect::Underline));
    assert(a.has(Effect::Italic) == b.has(Effect::Italic));
    assert(a.has(Effect::Bold) == b.has(Effect::Bold));
    assert(a.has(Effect::Strikethrough) == b.has(Effect::Strikethrough));
    assert(a.has(Effect::Image) == b.has(Effect::Image));
}

/// Merging does not depend on the order of the list nor on repeated entries:
/// two lists that hold the same styles merge to the same style.
pub proof fn lemma_merge_order_free(a: Seq<Style>, b: Seq<Style>)
    requires
        forall|s: Style| a.contains(s) <==> b.contains(s),
    ensures
        Style::merged(a) == Style::merged(b),
{
    lemma_merged_has(a);
    lemma_merged_has(b);
    assert forall|e: Effect| Style::merged(a).has(e) <==> Style::merged(b).has(e) by {
        if Style::merged(a).has(e) {
            let i = choose|i: int| 0 <= i < a.len() && (#[trigger] a[i]).has(e);
            assert(a.contains(a[i]));
            let j = choose|j: int| 0 <= j < b.len() && b[j] == a[i];
            assert(b[j].has(e));
        }
        if Style::merged(b).has(e) {
            let i = choose|i: int| 0 <= i < b.len() && (#[trigger] b[i]).has(e);
            assert(b.contains(b[i]));
            let j = choose|j: int| 0 <= j < a.len() && a[j] == b[i];
            assert(a[j].has(e));
        }
    }
    lemma_style_ext(Style::merged(a), Style::merged(b));
}

/// Merging is associative: merging two lists one after the other equals
/// merging the two partial results.
pub proof fn lemma_merge_assoc(a: Seq<Style>, b: Seq<Style>)
    ensures
        Style::merged(a + b) == Style::merged(seq![Style::merged(a), Style::merged(b)]),
{
    let ab = a + b;
    let pair = seq![Style::merged(a), Style::merged(b)];
    lemma_merged_has(a);
    lemma_merged_has(b);
    lemma_merged_has(ab);
    lemma_merged_has(pair);
    assert forall|e: Effect| Style::merged(ab).has(e) <==> Style::merged(pair).has(e) by {
        if Style::merged(ab).has(e) {
            let i = choose|i: int| 0 <= i < ab.len() && (#[trigger] ab[i]).has(e);
            if i < a.len() {
                assert(a[i] == ab[i]);
                assert(pair[0].has(e));
            } else {
                assert(b[i - a.len()] == ab[i]);
                assert(pair[1].has(e));
            }
        }
        if Style::merged(pair).has(e) {
            let k = choose|k: int| 0 <= k < pair.len() && (#[trigger] pair[k]).has(e);
            if k == 0 {
                let i = choose|i: int| 0 <= i < a.len() && (#[trigger] a[i]).has(e);
                assert(ab[i] == a[i]);
            } else {
                let i = choose|i: int| 0 <= i < b.len() && (#[trigger] b[i]).has(e);
                assert(ab[a.len() + i] == b[i]);
            }
        }
    }
    lemma_style_ext(Style::merged(ab), Style::merged(pair));
}

/// Merging is idempotent: merging a merged result again, alone or next to
/// itself, changes nothing.
pub proof fn lemma_merge_idempotent(a: Seq<Style>)
    ensures
        Style::merged(seq![Style::merged(a)]) == Style::merged(a),
        Style::merged(seq![Style::merged(a), Style::merged(a)]) == Style::merged(a),
{
    let m = Style::merged(a);
    let one = seq![m];
    let two = seq![m, m];
    assert(one.drop_last() =~= Seq::<Style>::empty());
    assert(two.drop_last() =~= one);
    assert(Style::merged(Seq::<Style>::empty()) == Style::spec_none());
    assert(Style::merged(one) == Style::merged(one.drop_last()).union(m));
    assert(Style::merged(two) == Style::merged(two.drop_last()).union(m));
}

} // verus!
