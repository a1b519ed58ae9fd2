//! Diff "languages": pluggable algorithms that compare an old and a new
//! text and produce provenance-tagged segments.
//!
//! Two built-in languages are provided. [`SimpleLinewise`] tokenizes both
//! inputs by line, diffs the line sequences, re-appends a trailing newline
//! to every emitted line, and coalesces adjacent equal-provenance tokens.
//! [`SimpleCharwise`] does the same character by character, with no
//! newline handling. The underlying longest-common-subsequence primitive
//! is the `diff` crate, consumed as a black box.

use vstd::prelude::*;
use crate::Provenance;
use crate::ExtensionPoint;
use crate::segment::Segment;
use crate::segment::SegModel;
use crate::segment::deep_segs;
use crate::segment::text_where;
use crate::segment::texts_where;
use crate::segment::all_text;
use crate::segment::old_text;
use crate::segment::new_text;
use crate::segment::adjacent_distinct;
use crate::segment::coalesced;
use crate::segment::coalesce;
use crate::segment::lemma_texts_where_flatten;
use crate::segment::lemma_texts_where_nonempty;
use crate::segment::lemma_text_where_nonempty;
use crate::segment::lemma_text_where_agree;
use crate::segment::lemma_coalesced_uniform;
use crate::segment::lemma_coalesced_adjacent_distinct;
use crate::segment::lemma_coalesce_preserves_text;
use crate::segment::old_texts;
use crate::segment::new_texts;

verus! {

/// The index of the first newline character in `s`, or `s.len()` if `s`
/// holds none.
pub open spec fn first_nl(s: Seq<char>) -> int
    decreases s.len(),
{
    if s.len() == 0 {
        0
    } else if s[0] == '\n' {
        0
    } else {
        1 + first_nl(s.drop_first())
    }
}

pub proof fn lemma_first_nl(s: Seq<char>)
    ensures
        0 <= first_nl(s) <= s.len(),
        first_nl(s) < s.len() ==> s[first_nl(s)] == '\n',
        forall|j: int| 0 <= j < first_nl(s) ==> s[j] != '\n',
    decreases s.len(),
{
    if s.len() == 0 {
    } else if s[0] == '\n' {
    } else {
        lemma_first_nl(s.drop_first());
        assert forall|j: int| 0 <= j < first_nl(s) implies s[j] != '\n' by {
            if j > 0 {
                assert(s.drop_first()[j - 1] != '\n');
            }
        }
    }
}

/// A line as the `lines` tokenizer reports it: one carriage return
/// immediately before the splitting newline is stripped.
pub open spec fn strip_cr(l: Seq<char>) -> Seq<char> {
    if l.len() > 0 && l.last() == '\r' {
        l.drop_last()
    } else {
        l
    }
}

/// The lines of `s`, split at `\n` (stripping a `\r` directly before the
/// split), with no empty final line for a trailing newline.
pub open spec fn lines_of(s: Seq<char>) -> Seq<Seq<char>>
    decreases s.len(),
    via lines_of_decreases
{
    if s.len() == 0 {
        Seq::empty()
    } else if first_nl(s) >= s.len() {
        seq![s]
    } else {
        seq![strip_cr(s.take(first_nl(s)))] + lines_of(s.skip(first_nl(s) + 1))
    }
}

#[via_fn]
proof fn lines_of_decreases(s: Seq<char>) {
    lemma_first_nl(s);
}

/// `s` ends with a newline character.
pub open spec fn ends_nl(s: Seq<char>) -> bool {
    s.len() > 0 && s.last() == '\n'
}

/// Every line with a newline appended, in order.
pub open spec fn with_nl(ls: Seq<Seq<char>>) -> Seq<Seq<char>> {
    ls.map_values(|l: Seq<char>| l.push('\n'))
}

/// The concatenation of all lines, a newline appended to each: the text
/// that the line-wise language reconstructs from a side's lines.
pub open spec fn rejoin(ls: Seq<Seq<char>>) -> Seq<char> {
    with_nl(ls).flatten()
}

/// `s` holds no carriage return directly followed by a newline.
pub open spec fn no_crlf(s: Seq<char>) -> bool {
    forall|i: int| 0 <= i < s.len() - 1 ==> !((#[trigger] s[i]) == '\r' && s[i + 1] == '\n')
}

/// Splitting a text into lines and rejoining them with a newline after
/// each line reproduces the text exactly, provided the text is empty or
/// ends with a newline, and holds no `\r\n` pair (whose `\r` the
/// tokenizer would strip). Together with the contracts of the built-in
/// line-wise language this gives its round-trip law: for such inputs the
/// old-side text of its segments is the old input, and likewise for the
/// new side. An input without a trailing newline, such as a single line
/// `"a"`, is rejoined as `"a\n"` and is therefore excluded.
pub proof fn lemma_rejoin_lines_of(s: Seq<char>)
    requires
        s.len() == 0 || (s.last() == '\n' && no_crlf(s)),
    ensures
        rejoin(lines_of(s)) == s,
    decreases s.len(),
{
    broadcast use vstd::seq_lib::group_seq_lib_default;

    lemma_first_nl(s);
    if s.len() == 0 {
        assert(with_nl(lines_of(s)) =~= Seq::<Seq<char>>::empty());
        assert(rejoin(lines_of(s)) =~= s);
    } else {
        let i = first_nl(s);
        assert(i < s.len()) by {
            if i >= s.len() {
                assert(s[s.len() - 1] != '\n');
            }
        }
        let head = s.take(i);
        let rest = s.skip(i + 1);
        assert(strip_cr(head) == head) by {
            if head.len() > 0 && head.last() == '\r' {
                assert(s[i - 1] == '\r' && s[i] == '\n');
            }
        }
        assert(lines_of(s) == seq![head] + lines_of(rest));
        assert(rest.len() == 0 || (rest.last() == '\n' && no_crlf(rest))) by {
            if rest.len() > 0 {
                assert(rest.last() == s.last());
                assert forall|k: int| 0 <= k < rest.len() - 1 implies !((#[trigger] rest[k])
                    == '\r' && rest[k + 1] == '\n') by {
                    assert(rest[k] == s[i + 1 + k]);
                    assert(rest[k + 1] == s[i + 1 + k + 1]);
                }
            }
        }
        lemma_rejoin_lines_of(rest);
        assert(with_nl(seq![head] + lines_of(rest)) =~= seq![head.push('\n')] + with_nl(
            lines_of(rest),
        ));
        vstd::seq_lib::lemma_flatten_concat(seq![head.push('\n')], with_nl(lines_of(rest)));
        seq![head.push('\n')].lemma_flatten_one_element();
        assert(seq![head.push('\n')].flatten() =~= head.push('\n'));
        assert(rejoin(lines_of(s)) =~= head.push('\n') + rest);
        assert(head.push('\n') + rest =~= s);
    }
}

/// A non-empty text without a trailing newline has a non-empty final
/// line.
pub proof fn lemma_last_line_nonempty(s: Seq<char>)
    requires
        s.len() > 0,
        !ends_nl(s),
    ensures
        lines_of(s).len() > 0,
        lines_of(s).last().len() > 0,
    decreases s.len(),
{
    lemma_first_nl(s);
    let i = first_nl(s);
    if i >= s.len() {
    } else {
        let rest = s.skip(i + 1);
        assert(rest.len() > 0) by {
            if i + 1 >= s.len() {
                assert(s.last() == s[i]);
            }
        }
        assert(rest.last() == s.last());
        lemma_last_line_nonempty(rest);
        assert(lines_of(s).last() == lines_of(rest).last());
    }
}

/// A non-empty text has at least one line.
pub proof fn lemma_lines_nonempty(s: Seq<char>)
    requires
        s.len() > 0,
    ensures
        lines_of(s).len() > 0,
{
    lemma_first_nl(s);
}

/// The line tokens that the underlying diff primitive emits for one
/// side: the side's lines, followed by one empty token when the side
/// ends with a newline.
pub open spec fn line_tokens_of(s: Seq<char>) -> Seq<Seq<char>> {
    lines_of(s) + (if ends_nl(s) {
        seq![Seq::<char>::empty()]
    } else {
        Seq::empty()
    })
}

/// Every segment's text with a newline appended; provenances unchanged.
pub open spec fn map_nl_all(s: Seq<SegModel>) -> Seq<SegModel> {
    s.map_values(|e: SegModel| (e.0.push('\n'), e.1))
}

/// The newline re-appending step of the line-wise language: a newline is
/// appended to every token, except to an empty final token, which marks
/// a trailing newline already accounted for by the token before it.
pub open spec fn appended_nl(s: Seq<SegModel>) -> Seq<SegModel> {
    if s.len() > 0 && s.last().0.len() == 0 {
        map_nl_all(s.drop_last()).push(s.last())
    } else {
        map_nl_all(s)
    }
}

proof fn lemma_map_nl_texts(s: Seq<SegModel>, p: spec_fn(Provenance) -> bool)
    ensures
        texts_where(map_nl_all(s), p) == with_nl(texts_where(s, p)),
    decreases s.len(),
{
    if s.len() == 0 {
        assert(texts_where(map_nl_all(s), p) =~= with_nl(texts_where(s, p)));
    } else {
        let t = s.drop_last();
        let e = s.last();
        lemma_map_nl_texts(t, p);
        let m = map_nl_all(s);
        assert(m.drop_last() =~= map_nl_all(t));
        assert(m.last() == (e.0.push('\n'), e.1));
        if p(e.1) {
            assert(texts_where(m, p) == texts_where(map_nl_all(t), p) + seq![e.0.push('\n')]);
            assert(with_nl(texts_where(s, p)) =~= with_nl(texts_where(t, p)) + seq![e.0.push(
                '\n',
            )]);
        } else {
            assert(texts_where(m, p) =~= texts_where(map_nl_all(t), p));
            assert(with_nl(texts_where(s, p)) =~= with_nl(texts_where(t, p)));
        }
    }
}

/// How newline re-appending acts on the text list of one provenance
/// class: every text gains a newline, except an empty final token of
/// that class, which stays empty.
proof fn lemma_appended_nl_texts(t: Seq<SegModel>, p: spec_fn(Provenance) -> bool)
    ensures
        texts_where(appended_nl(t), p) == (if t.len() > 0 && t.last().0.len() == 0 && p(
            t.last().1,
        ) {
            with_nl(texts_where(t, p).drop_last()).push(Seq::<char>::empty())
        } else {
            with_nl(texts_where(t, p))
        }),
{
    if t.len() > 0 && t.last().0.len() == 0 {
        let r = t.drop_last();
        let e = t.last();
        let a = appended_nl(t);
        assert(a == map_nl_all(r).push(e));
        assert(a.drop_last() =~= map_nl_all(r));
        assert(a.last() == e);
        lemma_map_nl_texts(r, p);
        if p(e.1) {
            assert(texts_where(a, p) == with_nl(texts_where(r, p)) + seq![e.0]);
            assert(texts_where(t, p) == texts_where(r, p) + seq![e.0]);
            assert(texts_where(t, p).drop_last() =~= texts_where(r, p));
            assert(e.0 =~= Seq::<char>::empty());
            assert(texts_where(a, p) =~= with_nl(texts_where(t, p).drop_last()).push(
                Seq::<char>::empty(),
            ));
        } else {
            assert(texts_where(a, p) =~= with_nl(texts_where(r, p)));
            assert(texts_where(t, p) =~= texts_where(r, p));
        }
    } else {
        lemma_map_nl_texts(t, p);
    }
}

/// Newline re-appending keeps the number of segments and every
/// provenance.
proof fn lemma_appended_nl_shape(t: Seq<SegModel>)
    ensures
        appended_nl(t).len() == t.len(),
        forall|i: int| 0 <= i < t.len() ==> (#[trigger] appended_nl(t)[i]).1 == t[i].1,
{
    if t.len() > 0 && t.last().0.len() == 0 {
        assert forall|i: int| 0 <= i < t.len() implies (#[trigger] appended_nl(t)[i]).1 == t[i].1
        by {
            if i < t.len() - 1 {
                assert(appended_nl(t)[i] == (t[i].0.push('\n'), t[i].1));
            }
        }
    } else {
        assert forall|i: int| 0 <= i < t.len() implies (#[trigger] appended_nl(t)[i]).1 == t[i].1
        by {
            assert(appended_nl(t)[i] == (t[i].0.push('\n'), t[i].1));
        }
    }
}

/// Append a newline to every token, except to an empty final token.
fn append_newlines(v: Vec<Segment>) -> (r: Vec<Segment>)
    ensures
        deep_segs(r@) == appended_nl(deep_segs(v@)),
{
    let mut out: Vec<Segment> = Vec::new();
    let mut i: usize = 0;
    while i < v.len()
        invariant
            i <= v.len(),
            out@.len() == i,
            forall|j: int|
                0 <= j < i ==> (#[trigger] deep_segs(out@)[j]) == (if j < v@.len() - 1
                    || deep_segs(v@)[j].0.len() > 0 {
                    (deep_segs(v@)[j].0.push('\n'), deep_segs(v@)[j].1)
                } else {
                    deep_segs(v@)[j]
                }),
        decreases v.len() - i,
    {
        let pv = v[i].1;
        let ghost prev = out@;
        if i + 1 < v.len() || !v[i].0.as_str().is_empty() {
            let mut t = v[i].0.clone();
            t.append("\n");
            proof {
                reveal_strlit("\n");
                assert("\n"@ =~= seq!['\n']);
                assert(t@ =~= v@[i as int].0@.push('\n'));
            }
            out.push((t, pv));
        } else {
            let t = v[i].0.clone();
            out.push((t, pv));
        }
        proof {
            let dv = deep_segs(v@);
            assert(dv[i as int] == (v@[i as int].0@, v@[i as int].1));
            assert forall|j: int| 0 <= j < i + 1 implies (#[trigger] deep_segs(out@)[j]) == (if j
                < dv.len() - 1 || dv[j].0.len() > 0 {
                (dv[j].0.push('\n'), dv[j].1)
            } else {
                dv[j]
            }) by {
                if j < i {
                    assert(out@[j] == prev[j]);
                    assert(deep_segs(out@)[j] == deep_segs(prev)[j]);
                } else {
                    assert(deep_segs(out@)[j] == (out@[j].0@, out@[j].1));
                }
            }
        }
        i += 1;
    }
    proof {
        lemma_appended_nl_shape(deep_segs(v@));
        assert(deep_segs(out@) =~= appended_nl(deep_segs(v@)));
    }
    out
}

/// A pluggable diff algorithm: from an old and a new text it computes an
/// ordered sequence of provenance-tagged segments. Each implementation
/// states its own exact semantics through `diff_ens`.
pub trait Language: ExtensionPoint {
    /// What this language's `diff` promises of its result.
    spec fn diff_ens(&self, old: Seq<char>, new: Seq<char>, result: Seq<SegModel>) -> bool;

    fn diff(&self, old: String, new: String) -> (r: Vec<Segment>)
        ensures
            self.diff_ens(old@, new@, deep_segs(r@)),
    ;
}

/// Relies on `diff::chars`: it computes a longest-common-subsequence
/// diff of the two inputs' characters in which the left-tagged and
/// both-tagged tokens, in order, are exactly the old input's characters,
/// the right-tagged and both-tagged tokens, in order, are exactly the
/// new input's characters (a both-tagged token carries one character
/// common to both sides), and equal inputs yield only both-tagged
/// tokens. Each token is one character.
#[verifier::external_body]
fn diff_chars_raw(old: &str, new: &str) -> (r: Vec<Segment>)
    ensures
        forall|i: int|
            0 <= i < deep_segs(r@).len() ==> (#[trigger] deep_segs(r@)[i]).0.len() == 1,
        old_text(deep_segs(r@)) == old@,
        new_text(deep_segs(r@)) == new@,
        old@ == new@ ==> forall|i: int|
            0 <= i < deep_segs(r@).len() ==> (#[trigger] deep_segs(r@)[i]).1
                == Provenance::Shared,
{
    diff::chars(old, new)
        .into_iter()
        .map(|cr| match cr {
            diff::Result::Left(c) => (c.to_string(), Provenance::Old),
            diff::Result::Both(c, _) => (c.to_string(), Provenance::Shared),
            diff::Result::Right(c) => (c.to_string(), Provenance::New),
        })
        .collect()
}

/// Relies on `diff::lines`: it computes a longest-common-subsequence
/// diff of the two inputs' lines (split as `str::lines` splits, plus one
/// empty token at the very end of the diff for a side that ends with a
/// newline) in which the left-tagged and both-tagged tokens, in order,
/// are exactly the old side's tokens, the right-tagged and both-tagged
/// tokens, in order, are exactly the new side's tokens (a both-tagged
/// token carries one line common to both sides), and equal inputs yield
/// only both-tagged tokens.
#[verifier::external_body]
fn diff_lines_raw(old: &str, new: &str) -> (r: Vec<Segment>)
    ensures
        old_texts(deep_segs(r@)) == line_tokens_of(old@),
        new_texts(deep_segs(r@)) == line_tokens_of(new@),
        ends_nl(old@) ==> deep_segs(r@).len() > 0 && deep_segs(r@).last().1.spec_is_old()
            && deep_segs(r@).last().0.len() == 0,
        ends_nl(new@) ==> deep_segs(r@).len() > 0 && deep_segs(r@).last().1.spec_is_new()
            && deep_segs(r@).last().0.len() == 0,
        old@ == new@ ==> forall|i: int|
            0 <= i < deep_segs(r@).len() ==> (#[trigger] deep_segs(r@)[i]).1
                == Provenance::Shared,
{
    diff::lines(old, new)
        .into_iter()
        .map(|cr| match cr {
            diff::Result::Left(x) => (x.to_string(), Provenance::Old),
            diff::Result::Both(x, _) => (x.to_string(), Provenance::Shared),
            diff::Result::Right(x) => (x.to_string(), Provenance::New),
        })
        .collect()
}

/// The exact semantics of the character-wise language: the old-side text
/// of the result is the old input and the new-side text is the new input
/// (the round-trip law), no two adjacent segments share a provenance,
/// equal inputs yield one shared segment (or nothing when empty), and an
/// empty side yields one segment carrying the whole other side (or
/// nothing when both are empty).
pub open spec fn charwise_ens(old: Seq<char>, new: Seq<char>, r: Seq<SegModel>) -> bool {
    &&& old_text(r) == old
    &&& new_text(r) == new
    &&& adjacent_distinct(r)
    &&& (old == new ==> r == (if old.len() == 0 {
        Seq::<SegModel>::empty()
    } else {
        seq![(old, Provenance::Shared)]
    }))
    &&& (old.len() == 0 ==> r == (if new.len() == 0 {
        Seq::<SegModel>::empty()
    } else {
        seq![(new, Provenance::New)]
    }))
    &&& (new.len() == 0 ==> r == (if old.len() == 0 {
        Seq::<SegModel>::empty()
    } else {
        seq![(old, Provenance::Old)]
    }))
}

proof fn charwise_correct(t: Seq<SegModel>, old: Seq<char>, new: Seq<char>)
    requires
        forall|i: int| 0 <= i < t.len() ==> (#[trigger] t[i]).0.len() == 1,
        old_text(t) == old,
        new_text(t) == new,
        old == new ==> forall|i: int| 0 <= i < t.len() ==> (#[trigger] t[i]).1
            == Provenance::Shared,
    ensures
        charwise_ens(old, new, coalesced(t)),
{
    let c = coalesced(t);
    let pold = |pv: Provenance| pv.spec_is_old();
    let pnew = |pv: Provenance| pv.spec_is_new();
    let pall = |pv: Provenance| true;
    lemma_coalesce_preserves_text(t);
    lemma_coalesced_adjacent_distinct(t);
    if old == new {
        if old.len() == 0 {
            assert(t.len() == 0) by {
                if t.len() > 0 {
                    assert(t[0].1 == Provenance::Shared);
                    lemma_text_where_nonempty(t, pold, 0);
                }
            }
        } else {
            assert(t.len() > 0) by {
                if t.len() == 0 {
                    assert(old_text(t) =~= Seq::<char>::empty());
                }
            }
            lemma_coalesced_uniform(t, Provenance::Shared);
            lemma_text_where_agree(t, pall, pold);
        }
    }
    if old.len() == 0 {
        assert forall|i: int| 0 <= i < t.len() implies (#[trigger] t[i]).1 == Provenance::New by {
            if t[i].1 != Provenance::New {
                lemma_text_where_nonempty(t, pold, i);
            }
        }
        if new.len() == 0 {
            assert(t.len() == 0) by {
                if t.len() > 0 {
                    lemma_text_where_nonempty(t, pnew, 0);
                }
            }
        } else {
            assert(t.len() > 0) by {
                if t.len() == 0 {
                    assert(new_text(t) =~= Seq::<char>::empty());
                }
            }
            lemma_coalesced_uniform(t, Provenance::New);
            lemma_text_where_agree(t, pall, pnew);
        }
    }
    if new.len() == 0 {
        assert forall|i: int| 0 <= i < t.len() implies (#[trigger] t[i]).1 == Provenance::Old by {
            if t[i].1 != Provenance::Old {
                lemma_text_where_nonempty(t, pnew, i);
            }
        }
        if old.len() == 0 {
            assert(t.len() == 0) by {
                if t.len() > 0 {
                    lemma_text_where_nonempty(t, pold, 0);
                }
            }
        } else {
            assert(t.len() > 0) by {
                if t.len() == 0 {
                    assert(old_text(t) =~= Seq::<char>::empty());
                }
            }
            lemma_coalesced_uniform(t, Provenance::Old);
            lemma_text_where_agree(t, pall, pold);
        }
    }
}

/// A "language" that implements a naive character-by-character diff.
#[derive(Clone, Copy, Debug, PartialEq, Eq, PartialOrd, Ord, Hash, Default, Structural)]
pub struct SimpleCharwise;

impl ExtensionPoint for SimpleCharwise {
    open spec fn spec_name(&self) -> Seq<char> {
        "simple-charwise"@
    }

    open spec fn spec_description(&self) -> Seq<char> {
        "A “language” that implements a naïve character-by-character diff"@
    }

    fn name(&self) -> (r: String) {
        "simple-charwise".to_owned()
    }

    fn description(&self) -> (r: String) {
        "A “language” that implements a naïve character-by-character diff".to_owned()
    }
}

impl Language for SimpleCharwise {
    open spec fn diff_ens(&self, old: Seq<char>, new: Seq<char>, result: Seq<SegModel>) -> bool {
        charwise_ens(old, new, result)
    }

    fn diff(&self, old: String, new: String) -> (r: Vec<Segment>) {
        let toks = diff_chars_raw(old.as_str(), new.as_str());
        let ghost t = deep_segs(toks@);
        let segs = coalesce(toks);
        proof {
            charwise_correct(t, old@, new@);
        }
        segs
    }
}

/// The exact semantics of the line-wise language: the old-side text of
/// the result is the old input split into lines and rejoined with a
/// newline after every line, and likewise for the new side (for an
/// input that is empty or newline-terminated and free of `\r\n` this is
/// the input itself: see [`lemma_rejoin_lines_of`]); no two adjacent
/// segments share a provenance; equal inputs yield one shared segment
/// (or nothing when empty); an empty side yields one segment carrying
/// the whole rejoined other side (or nothing when both are empty).
pub open spec fn linewise_ens(old: Seq<char>, new: Seq<char>, r: Seq<SegModel>) -> bool {
    &&& old_text(r) == rejoin(lines_of(old))
    &&& new_text(r) == rejoin(lines_of(new))
    &&& adjacent_distinct(r)
    &&& (old == new ==> r == (if old.len() == 0 {
        Seq::<SegModel>::empty()
    } else {
        seq![(rejoin(lines_of(old)), Provenance::Shared)]
    }))
    &&& (old.len() == 0 ==> r == (if new.len() == 0 {
        Seq::<SegModel>::empty()
    } else {
        seq![(rejoin(lines_of(new)), Provenance::New)]
    }))
    &&& (new.len() == 0 ==> r == (if old.len() == 0 {
        Seq::<SegModel>::empty()
    } else {
        seq![(rejoin(lines_of(old)), Provenance::Old)]
    }))
}

/// The round-trip law of the line-wise language: on inputs that are
/// empty or newline-terminated and free of `\r\n`, the old-side text of
/// its segments is exactly the old input, and the new-side text exactly
/// the new input. (The character-wise language states the same law
/// unconditionally in [`charwise_ens`].)
pub proof fn lemma_linewise_round_trip(old: Seq<char>, new: Seq<char>, r: Seq<SegModel>)
    requires
        linewise_ens(old, new, r),
        old.len() == 0 || (old.last() == '\n' && no_crlf(old)),
        new.len() == 0 || (new.last() == '\n' && no_crlf(new)),
    ensures
        old_text(r) == old,
        new_text(r) == new,
{
    lemma_rejoin_lines_of(old);
    lemma_rejoin_lines_of(new);
}

/// Newline re-appending turns one side's line tokens back into that
/// side's rejoined text.
proof fn linewise_side(t: Seq<SegModel>, s: Seq<char>, p: spec_fn(Provenance) -> bool)
    requires
        texts_where(t, p) == line_tokens_of(s),
        ends_nl(s) ==> t.len() > 0 && p(t.last().1) && t.last().0.len() == 0,
    ensures
        text_where(appended_nl(t), p) == rejoin(lines_of(s)),
{
    broadcast use vstd::seq_lib::group_seq_lib_default;

    let a = appended_nl(t);
    let ghost lt = line_tokens_of(s);
    lemma_appended_nl_texts(t, p);
    lemma_texts_where_flatten(a, p);
    if t.len() > 0 && t.last().0.len() == 0 && p(t.last().1) {
        assert(texts_where(t, p) == texts_where(t.drop_last(), p) + seq![t.last().0]);
        assert(lt.len() > 0 && lt.last().len() == 0);
        assert(ends_nl(s)) by {
            if !ends_nl(s) {
                assert(lt =~= lines_of(s));
                if s.len() == 0 {
                    assert(lines_of(s).len() == 0);
                } else {
                    lemma_last_line_nonempty(s);
                }
            }
        }
        assert(lt.drop_last() =~= lines_of(s));
        assert(texts_where(a, p) == with_nl(lt.drop_last()).push(Seq::<char>::empty()));
        with_nl(lines_of(s)).lemma_flatten_push(Seq::<char>::empty());
        assert(texts_where(a, p).flatten() == with_nl(lines_of(s)).flatten()
            + Seq::<char>::empty());
        assert(text_where(a, p) =~= rejoin(lines_of(s)));
    } else {
        assert(!ends_nl(s));
        assert(lt =~= lines_of(s));
        assert(texts_where(a, p) == with_nl(lines_of(s)));
    }
}

proof fn linewise_correct(t: Seq<SegModel>, old: Seq<char>, new: Seq<char>)
    requires
        old_texts(t) == line_tokens_of(old),
        new_texts(t) == line_tokens_of(new),
        ends_nl(old) ==> t.len() > 0 && t.last().1.spec_is_old() && t.last().0.len() == 0,
        ends_nl(new) ==> t.len() > 0 && t.last().1.spec_is_new() && t.last().0.len() == 0,
        old == new ==> forall|i: int| 0 <= i < t.len() ==> (#[trigger] t[i]).1
            == Provenance::Shared,
    ensures
        linewise_ens(old, new, coalesced(appended_nl(t))),
{
    let a = appended_nl(t);
    let c = coalesced(a);
    let pold = |pv: Provenance| pv.spec_is_old();
    let pnew = |pv: Provenance| pv.spec_is_new();
    let pall = |pv: Provenance| true;
    linewise_side(t, old, pold);
    linewise_side(t, new, pnew);
    lemma_appended_nl_shape(t);
    lemma_coalesce_preserves_text(a);
    lemma_coalesced_adjacent_distinct(a);
    if old == new {
        if old.len() == 0 {
            assert(line_tokens_of(old) =~= Seq::<Seq<char>>::empty());
            assert(t.len() == 0) by {
                if t.len() > 0 {
                    assert(t[0].1 == Provenance::Shared);
                    lemma_texts_where_nonempty(t, pold, 0);
                }
            }
            assert(a.len() == 0);
        } else {
            lemma_lines_nonempty(old);
            assert(line_tokens_of(old).len() > 0);
            assert(t.len() > 0) by {
                if t.len() == 0 {
                    assert(texts_where(t, pold) =~= Seq::<Seq<char>>::empty());
                }
            }
            assert(forall|i: int|
                0 <= i < a.len() ==> (#[trigger] a[i]).1 == Provenance::Shared);
            lemma_coalesced_uniform(a, Provenance::Shared);
            lemma_text_where_agree(a, pall, pold);
        }
    }
    if old.len() == 0 {
        assert(line_tokens_of(old) =~= Seq::<Seq<char>>::empty());
        assert forall|i: int| 0 <= i < t.len() implies (#[trigger] t[i]).1 == Provenance::New by {
            if t[i].1 != Provenance::New {
                lemma_texts_where_nonempty(t, pold, i);
            }
        }
        if new.len() == 0 {
            assert(line_tokens_of(new) =~= Seq::<Seq<char>>::empty());
            assert(t.len() == 0) by {
                if t.len() > 0 {
                    lemma_texts_where_nonempty(t, pnew, 0);
                }
            }
            assert(a.len() == 0);
        } else {
            lemma_lines_nonempty(new);
            assert(line_tokens_of(new).len() > 0);
            assert(t.len() > 0) by {
                if t.len() == 0 {
                    assert(texts_where(t, pnew) =~= Seq::<Seq<char>>::empty());
                }
            }
            assert(forall|i: int| 0 <= i < a.len() ==> (#[trigger] a[i]).1 == Provenance::New);
            lemma_coalesced_uniform(a, Provenance::New);
            lemma_text_where_agree(a, pall, pnew);
        }
    }
    if new.len() == 0 {
        assert(line_tokens_of(new) =~= Seq::<Seq<char>>::empty());
        assert forall|i: int| 0 <= i < t.len() implies (#[trigger] t[i]).1 == Provenance::Old by {
            if t[i].1 != Provenance::Old {
                lemma_texts_where_nonempty(t, pnew, i);
            }
        }
        if old.len() == 0 {
            assert(t.len() == 0) by {
                if t.len() > 0 {
                    lemma_texts_where_nonempty(t, pold, 0);
                }
            }
            assert(a.len() == 0);
        } else {
            lemma_lines_nonempty(old);
            assert(line_tokens_of(old).len() > 0);
            assert(t.len() > 0) by {
                if t.len() == 0 {
                    assert(texts_where(t, pold) =~= Seq::<Seq<char>>::empty());
                }
            }
            assert(forall|i: int| 0 <= i < a.len() ==> (#[trigger] a[i]).1 == Provenance::Old);
            lemma_coalesced_uniform(a, Provenance::Old);
            lemma_text_where_agree(a, pall, pold);
        }
    }
}

/// A "language" that implements a naive line-by-line diff.
#[derive(Clone, Copy, Debug, PartialEq, Eq, PartialOrd, Ord, Hash, Default, Structural)]
pub struct SimpleLinewise;

impl ExtensionPoint for SimpleLinewise {
    open spec fn spec_name(&self) -> Seq<char> {
        "simple-linewise"@
    }

    open spec fn spec_description(&self) -> Seq<char> {
        "A “language” that implements a naïve line-by-line diff"@
    }

    fn name(&self) -> (r: String) {
        "simple-linewise".to_owned()
    }

    fn description(&self) -> (r: String) {
        "A “language” that implements a naïve line-by-line diff".to_owned()
    }
}

impl Language for SimpleLinewise {
    open spec fn diff_ens(&self, old: Seq<char>, new: Seq<char>, result: Seq<SegModel>) -> bool {
        linewise_ens(old, new, result)
    }

    fn diff(&self, old: String, new: String) -> (r: Vec<Segment>) {
        let toks = diff_lines_raw(old.as_str(), new.as_str());
        let ghost t = deep_segs(toks@);
        let withnl = append_newlines(toks);
        let segs = coalesce(withnl);
        proof {
            linewise_correct(t, old@, new@);
        }
        segs
    }
}

} // verus!
