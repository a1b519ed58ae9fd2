//! The provenance-tagged segment model and the coalescing transform.
//!
//! A diff produces an ordered sequence of segments, each a piece of text
//! tagged with its [`Provenance`]. The coalescing transform merges
//! adjacent segments of equal provenance into one segment whose text is
//! the concatenation of the merged texts, in order; it never reorders,
//! drops or invents text.

use vstd::prelude::*;
use vstd::string::StringExecFns;
use crate::Provenance;

verus! {

/// A piece of diff output text together with its provenance.
pub type Segment = (String, Provenance);

/// The mathematical value of a segment: its text as a sequence of
/// characters, and its provenance.
pub type SegModel = (Seq<char>, Provenance);

/// The mathematical value of a segment sequence.
pub open spec fn deep_segs(s: Seq<Segment>) -> Seq<SegModel> {
    s.map_values(|e: Segment| (e.0@, e.1))
}

/// The concatenation, in order, of the texts of those segments whose
/// provenance satisfies `p`.
pub open spec fn text_where(s: Seq<SegModel>, p: spec_fn(Provenance) -> bool) -> Seq<char>
    decreases s.len(),
{
    if s.len() == 0 {
        Seq::empty()
    } else {
        text_where(s.drop_last(), p) + (if p(s.last().1) {
            s.last().0
        } else {
            Seq::empty()
        })
    }
}

/// The texts, in order, of those segments whose provenance satisfies `p`.
pub open spec fn texts_where(s: Seq<SegModel>, p: spec_fn(Provenance) -> bool) -> Seq<
    Seq<char>,
>
    decreases s.len(),
{
    if s.len() == 0 {
        Seq::empty()
    } else {
        texts_where(s.drop_last(), p) + (if p(s.last().1) {
            seq![s.last().0]
        } else {
            Seq::empty()
        })
    }
}

/// The concatenation of all segment texts, in order.
pub open spec fn all_text(s: Seq<SegModel>) -> Seq<char> {
    text_where(s, |pv: Provenance| true)
}

/// The concatenation of the texts of all segments that belong to the old
/// input (old-only and shared segments).
pub open spec fn old_text(s: Seq<SegModel>) -> Seq<char> {
    text_where(s, |pv: Provenance| pv.spec_is_old())
}

/// The concatenation of the texts of all segments that belong to the new
/// input (new-only and shared segments).
pub open spec fn new_text(s: Seq<SegModel>) -> Seq<char> {
    text_where(s, |pv: Provenance| pv.spec_is_new())
}

/// The texts, in order, of the segments that belong to the old input.
pub open spec fn old_texts(s: Seq<SegModel>) -> Seq<Seq<char>> {
    texts_where(s, |pv: Provenance| pv.spec_is_old())
}

/// The texts, in order, of the segments that belong to the new input.
pub open spec fn new_texts(s: Seq<SegModel>) -> Seq<Seq<char>> {
    texts_where(s, |pv: Provenance| pv.spec_is_new())
}

/// A segment of class `p` makes the text list of that class non-empty.
pub proof fn lemma_texts_where_nonempty(
    s: Seq<SegModel>,
    p: spec_fn(Provenance) -> bool,
    i: int,
)
    requires
        0 <= i < s.len(),
        p(s[i].1),
    ensures
        texts_where(s, p).len() > 0,
    decreases s.len(),
{
    if i == s.len() - 1 {
    } else {
        lemma_texts_where_nonempty(s.drop_last(), p, i);
    }
}

/// A segment of class `p` with non-empty text makes the concatenated
/// text of that class non-empty.
pub proof fn lemma_text_where_nonempty(
    s: Seq<SegModel>,
    p: spec_fn(Provenance) -> bool,
    i: int,
)
    requires
        0 <= i < s.len(),
        p(s[i].1),
        s[i].0.len() > 0,
    ensures
        text_where(s, p).len() > 0,
    decreases s.len(),
{
    if i == s.len() - 1 {
    } else {
        lemma_text_where_nonempty(s.drop_last(), p, i);
    }
}

/// Two provenance classes that agree on every segment of a sequence
/// select the same concatenated text.
pub proof fn lemma_text_where_agree(
    s: Seq<SegModel>,
    p: spec_fn(Provenance) -> bool,
    q: spec_fn(Provenance) -> bool,
)
    requires
        forall|i: int| 0 <= i < s.len() ==> p((#[trigger] s[i]).1) == q(s[i].1),
    ensures
        text_where(s, p) == text_where(s, q),
    decreases s.len(),
{
    if s.len() == 0 {
    } else {
        lemma_text_where_agree(s.drop_last(), p, q);
    }
}

/// No two adjacent segments share a provenance.
pub open spec fn adjacent_distinct(s: Seq<SegModel>) -> bool {
    forall|i: int| 0 <= i < s.len() - 1 ==> (#[trigger] s[i]).1 != s[i + 1].1
}

/// The coalescing transform: a single left-to-right scan that merges each
/// run of equal-provenance segments into one segment carrying the
/// concatenated text of the run.
pub open spec fn coalesced(s: Seq<SegModel>) -> Seq<SegModel>
    decreases s.len(),
{
    if s.len() == 0 {
        Seq::empty()
    } else {
        let r = coalesced(s.drop_last());
        let e = s.last();
        if r.len() > 0 && r.last().1 == e.1 {
            r.update(r.len() - 1, (r.last().0 + e.0, e.1))
        } else {
            r.push(e)
        }
    }
}

/// Coalescing preserves, for any provenance class, the concatenated text
/// of that class: merging only ever joins equal-provenance neighbours.
pub proof fn lemma_coalesced_text_where(s: Seq<SegModel>, p: spec_fn(Provenance) -> bool)
    ensures
        text_where(coalesced(s), p) == text_where(s, p),
    decreases s.len(),
{
    if s.len() == 0 {
    } else {
        let t = s.drop_last();
        let e = s.last();
        let r = coalesced(t);
        lemma_coalesced_text_where(t, p);
        if r.len() > 0 && r.last().1 == e.1 {
            let c = r.update(r.len() - 1, (r.last().0 + e.0, e.1));
            assert(coalesced(s) == c);
            assert(c.drop_last() =~= r.drop_last());
            assert(c.last() == (r.last().0 + e.0, e.1));
            if p(e.1) {
                assert(text_where(c, p) == text_where(r.drop_last(), p) + (r.last().0 + e.0));
                assert(text_where(r, p) == text_where(r.drop_last(), p) + r.last().0);
                assert(text_where(c, p) =~= text_where(r, p) + e.0);
                assert(text_where(s, p) == text_where(t, p) + e.0);
            } else {
                assert(text_where(c, p) =~= text_where(r.drop_last(), p));
                assert(text_where(r, p) =~= text_where(r.drop_last(), p));
                assert(text_where(s, p) =~= text_where(t, p));
            }
        } else {
            let c = r.push(e);
            assert(coalesced(s) == c);
            assert(c.drop_last() =~= r);
            assert(c.last() == e);
            if p(e.1) {
                assert(text_where(c, p) == text_where(r, p) + e.0);
                assert(text_where(s, p) == text_where(t, p) + e.0);
            } else {
                assert(text_where(c, p) =~= text_where(r, p));
                assert(text_where(s, p) =~= text_where(t, p));
            }
        }
    }
}

/// The concatenation of one provenance class's text list is that
/// class's concatenated text.
pub proof fn lemma_texts_where_flatten(s: Seq<SegModel>, p: spec_fn(Provenance) -> bool)
    ensures
        texts_where(s, p).flatten() == text_where(s, p),
    decreases s.len(),
{
    broadcast use vstd::seq_lib::group_seq_lib_default;

    if s.len() == 0 {
        assert(texts_where(s, p).flatten() =~= text_where(s, p));
    } else {
        let t = s.drop_last();
        let e = s.last();
        lemma_texts_where_flatten(t, p);
        if p(e.1) {
            assert(texts_where(s, p) =~= texts_where(t, p).push(e.0));
            texts_where(t, p).lemma_flatten_push(e.0);
            assert(texts_where(s, p).flatten() == texts_where(t, p).flatten() + e.0);
        } else {
            assert(texts_where(s, p) =~= texts_where(t, p));
            assert(text_where(s, p) =~= text_where(t, p));
        }
    }
}

/// After coalescing, no two adjacent segments share a provenance.
pub proof fn lemma_coalesced_adjacent_distinct(s: Seq<SegModel>)
    ensures
        adjacent_distinct(coalesced(s)),
    decreases s.len(),
{
    if s.len() == 0 {
    } else {
        let t = s.drop_last();
        let e = s.last();
        let r = coalesced(t);
        lemma_coalesced_adjacent_distinct(t);
        if r.len() > 0 && r.last().1 == e.1 {
            let c = r.update(r.len() - 1, (r.last().0 + e.0, e.1));
            assert forall|i: int| 0 <= i < c.len() - 1 implies (#[trigger] c[i]).1 != c[i + 1].1 by {
                assert(c[i].1 == r[i].1);
                assert(c[i + 1].1 == r[i + 1].1);
            }
        } else {
            let c = r.push(e);
            assert forall|i: int| 0 <= i < c.len() - 1 implies (#[trigger] c[i]).1 != c[i + 1].1 by {
                assert(c[i].1 == r[i].1);
                if i + 1 < r.len() {
                    assert(c[i + 1].1 == r[i + 1].1);
                } else {
                    assert(c[i + 1] == e);
                }
            }
        }
    }
}

/// A segment sequence in which no two adjacent segments share a
/// provenance is a fixed point of the coalescing transform.
pub proof fn lemma_coalesced_of_distinct(s: Seq<SegModel>)
    requires
        adjacent_distinct(s),
    ensures
        coalesced(s) == s,
    decreases s.len(),
{
    if s.len() == 0 {
        assert(coalesced(s) =~= s);
    } else {
        let t = s.drop_last();
        let e = s.last();
        assert(adjacent_distinct(t));
        lemma_coalesced_of_distinct(t);
        lemma_coalesced_last_provenance(t);
        if t.len() > 0 {
            assert(t[t.len() - 1].1 != s[t.len() as int].1);
            assert(coalesced(s) =~= s);
        } else {
            assert(coalesced(s) =~= s);
        }
    }
}

/// The last segment of a coalesced sequence carries the provenance of the
/// last input segment, and coalescing a non-empty sequence is non-empty.
pub proof fn lemma_coalesced_last_provenance(s: Seq<SegModel>)
    ensures
        s.len() == 0 ==> coalesced(s).len() == 0,
        s.len() > 0 ==> coalesced(s).len() > 0 && coalesced(s).last().1 == s.last().1,
    decreases s.len(),
{
    if s.len() > 0 {
        lemma_coalesced_last_provenance(s.drop_last());
    }
}

/// Coalescing is idempotent: applying the transform twice yields the same
/// result as applying it once.
pub proof fn lemma_coalesce_idempotent(s: Seq<SegModel>)
    ensures
        coalesced(coalesced(s)) == coalesced(s),
{
    lemma_coalesced_adjacent_distinct(s);
    lemma_coalesced_of_distinct(coalesced(s));
}

/// Coalescing a non-empty sequence of segments that all carry one
/// provenance yields exactly one segment: the whole text under that
/// provenance.
pub proof fn lemma_coalesced_uniform(s: Seq<SegModel>, pv: Provenance)
    requires
        s.len() > 0,
        forall|i: int| 0 <= i < s.len() ==> (#[trigger] s[i]).1 == pv,
    ensures
        coalesced(s) == seq![(all_text(s), pv)],
    decreases s.len(),
{
    let t = s.drop_last();
    let e = s.last();
    if s.len() == 1 {
        assert(coalesced(t) =~= Seq::<SegModel>::empty());
        assert(coalesced(s) =~= coalesced(t).push(e));
        assert(all_text(s) =~= e.0);
        assert(coalesced(s) =~= seq![(all_text(s), pv)]);
    } else {
        assert(forall|i: int| 0 <= i < t.len() ==> (#[trigger] t[i]).1 == pv);
        lemma_coalesced_uniform(t, pv);
        let r = coalesced(t);
        assert(r == seq![(all_text(t), pv)]);
        assert(r.len() == 1 && r.last().1 == e.1);
        let c = r.update(0, (r.last().0 + e.0, e.1));
        assert(coalesced(s) == c);
        assert(all_text(s) == all_text(t) + e.0);
        assert(c =~= seq![(all_text(s), pv)]);
    }
}

/// Coalescing preserves the concatenated text of the whole sequence and
/// of its old-input and new-input parts: it reorders nothing, drops
/// nothing, and invents nothing.
pub proof fn lemma_coalesce_preserves_text(s: Seq<SegModel>)
    ensures
        all_text(coalesced(s)) == all_text(s),
        old_text(coalesced(s)) == old_text(s),
        new_text(coalesced(s)) == new_text(s),
{
    lemma_coalesced_text_where(s, |pv: Provenance| true);
    lemma_coalesced_text_where(s, |pv: Provenance| pv.spec_is_old());
    lemma_coalesced_text_where(s, |pv: Provenance| pv.spec_is_new());
}

/// Merge adjacent equal-provenance segments into single segments whose
/// text is the ordered concatenation of the merged texts.
pub fn coalesce(v: Vec<Segment>) -> (r: Vec<Segment>)
    ensures
        deep_segs(r@) == coalesced(deep_segs(v@)),
        adjacent_distinct(deep_segs(r@)),
        all_text(deep_segs(r@)) == all_text(deep_segs(v@)),
        old_text(deep_segs(r@)) == old_text(deep_segs(v@)),
        new_text(deep_segs(r@)) == new_text(deep_segs(v@)),
{
    let mut out: Vec<Segment> = Vec::new();
    let mut i: usize = 0;
    while i < v.len()
        invariant
            i <= v.len(),
            deep_segs(out@) == coalesced(deep_segs(v@.take(i as int))),
        decreases v.len() - i,
    {
        let text = v[i].0.clone();
        let pv = v[i].1;
        let ghost prefix = deep_segs(v@.take(i as int));
        let ghost extended = deep_segs(v@.take(i as int + 1));
        proof {
            assert(extended =~= prefix.push((v@[i as int].0@, v@[i as int].1)));
            assert(extended.drop_last() =~= prefix);
        }
        let n = out.len();
        if n > 0 && out[n - 1].1 == pv {
            let mut last = out.pop().unwrap();
            last.0.append(text.as_str());
            out.push(last);
            proof {
                let r = coalesced(prefix);
                assert(deep_segs(out@) =~= r.update(r.len() - 1, (r.last().0 + extended.last().0,
                    extended.last().1)));
            }
        } else {
            out.push((text, pv));
            proof {
                let r = coalesced(prefix);
                assert(deep_segs(out@) =~= r.push(extended.last()));
            }
        }
        i += 1;
    }
    proof {
        assert(v@.take(v@.len() as int) =~= v@);
        lemma_coalesced_adjacent_distinct(deep_segs(v@));
        lemma_coalesce_preserves_text(deep_segs(v@));
    }
    out
}

} // verus!
