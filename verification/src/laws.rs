//! The laws the library states of itself: marker substitution leaves no
//! marker behind and puts the corresponding HTML fragment in the output;
//! text runs inside code blocks and non-text events pass through unchanged;
//! marker-free input flows through the pipeline untouched by the rewriter.

use vstd::prelude::*;
use pulldown_cmark::Event;
use crate::events::parse_of;
use crate::events::render_of;
use crate::events::text_of;
use crate::rewrite::fold_txt_spec;
use crate::rewrite::next_depth;
use crate::rewrite::rewrite_event;
use crate::rewrite::rewrite_from;
use crate::text::details_close;
use crate::text::details_open;
use crate::text::has_marker;
use crate::text::marker_answer;
use crate::text::marker_fold;
use crate::text::marker_question;
use crate::text::occurs;
use crate::text::occurs_at;
use crate::text::replace_all;
use crate::text::subst_markers;
use crate::text::summary_close;

verus! {

/// `r` holds no `#` at all.
pub open spec fn hash_free(r: Seq<char>) -> bool {
    forall|k: int| 0 <= k < r.len() ==> r[k] != '#'
}

proof fn lemma_occurs_at_2(s: Seq<char>, pat: Seq<char>, i: int)
    requires
        pat.len() == 2,
        0 <= i,
        i + 2 <= s.len(),
    ensures
        occurs_at(s, pat, i) <==> (s[i] == pat[0] && s[i + 1] == pat[1]),
{
    if s[i] == pat[0] && s[i + 1] == pat[1] {
        assert(s.subrange(i, i + 2) =~= pat);
    }
    if occurs_at(s, pat, i) {
        assert(s.subrange(i, i + 2)[0] == s[i]);
        assert(s.subrange(i, i + 2)[1] == s[i + 1]);
    }
}

proof fn lemma_no_occurs_skip(s: Seq<char>, q: Seq<char>, k: int)
    requires
        !occurs(s, q),
        0 <= k <= s.len(),
    ensures
        !occurs(s.skip(k), q),
{
    assert forall|i: int| !occurs_at(s.skip(k), q, i) by {
        if 0 <= i && i + q.len() <= s.len() - k {
            assert(s.skip(k).subrange(i, i + q.len()) =~= s.subrange(k + i, k + i + q.len()));
            if s.skip(k).subrange(i, i + q.len()) == q {
                assert(occurs_at(s, q, k + i));
            }
        }
    }
}

proof fn lemma_occurs_shift_right(a: Seq<char>, b: Seq<char>, q: Seq<char>, i: int)
    requires
        occurs_at(b, q, i),
    ensures
        occurs_at(a + b, q, a.len() + i),
{
    assert((a + b).subrange(a.len() + i, a.len() + i + q.len()) =~= b.subrange(i, i + q.len()));
}

/// One substitution pass of a two-character `#`-marker never leaves, and
/// never creates, an occurrence of `['#', x]`, as long as the replacement
/// text is free of `#` and does not begin with `x`: either `x` is the
/// marker's own second character, or the input held no `['#', x]` already.
proof fn lemma_replace_keeps_clean(s: Seq<char>, pat: Seq<char>, rep: Seq<char>, x: char)
    requires
        pat.len() == 2,
        pat[0] == '#',
        pat[1] != '#',
        rep.len() > 0,
        hash_free(rep),
        rep[0] != x,
        x != '#',
        x == pat[1] || !occurs(s, seq!['#', x]),
    ensures
        !occurs(replace_all(s, pat, rep), seq!['#', x]),
        replace_all(s, pat, rep).len() > 0 ==> (replace_all(s, pat, rep)[0] == rep[0] || (s.len()
            > 0 && replace_all(s, pat, rep)[0] == s[0])),
    decreases s.len(),
{
    let q = seq!['#', x];
    let r = replace_all(s, pat, rep);
    if s.len() < 2 {
        assert(r == s);
        assert forall|i: int| !occurs_at(r, q, i) by {
            if 0 <= i && i + 2 <= r.len() {
                assert(false);
            }
        }
    } else if s.take(2) == pat {
        let s2 = s.skip(2);
        if !(x == pat[1]) {
            lemma_no_occurs_skip(s, q, 2);
        }
        lemma_replace_keeps_clean(s2, pat, rep, x);
        let r2 = replace_all(s2, pat, rep);
        assert(r == rep + r2);
        assert forall|i: int| !occurs_at(r, q, i) by {
            if 0 <= i && i + 2 <= r.len() {
                lemma_occurs_at_2(r, q, i);
                if i + 1 < rep.len() {
                    assert(r[i] == rep[i]);
                } else if i < rep.len() {
                    assert(r[i] == rep[i]);
                } else {
                    assert(r[i] == r2[i - rep.len()]);
                    assert(r[i + 1] == r2[i + 1 - rep.len()]);
                    lemma_occurs_at_2(r2, q, i - rep.len());
                    assert(!occurs_at(r2, q, i - rep.len()));
                }
            }
        }
    } else {
        let s1 = s.skip(1);
        if !(x == pat[1]) {
            lemma_no_occurs_skip(s, q, 1);
        }
        lemma_replace_keeps_clean(s1, pat, rep, x);
        let r1 = replace_all(s1, pat, rep);
        assert(r == seq![s[0]] + r1);
        assert forall|i: int| !occurs_at(r, q, i) by {
            if 0 <= i && i + 2 <= r.len() {
                lemma_occurs_at_2(r, q, i);
                if i == 0 {
                    if r[0] == '#' && r[1] == x {
                        assert(r1.len() > 0);
                        assert(r[1] == r1[0]);
                        if r1[0] == rep[0] {
                            assert(false);
                        } else {
                            assert(s1.len() > 0);
                            assert(r1[0] == s1[0]);
                            assert(s[1] == x);
                            if x == pat[1] {
                                assert(s.take(2) =~= pat);
                                assert(false);
                            } else {
                                lemma_occurs_at_2(s, q, 0);
                                assert(occurs_at(s, q, 0));
                                assert(false);
                            }
                        }
                    }
                } else {
                    assert(r[i] == r1[i - 1]);
                    assert(r[i + 1] == r1[i]);
                    lemma_occurs_at_2(r1, q, i - 1);
                    assert(!occurs_at(r1, q, i - 1));
                }
            }
        }
    }
}

/// Replacing `pat` puts `rep` into the output wherever `pat` occurred.
proof fn lemma_replace_introduces(s: Seq<char>, pat: Seq<char>, rep: Seq<char>)
    requires
        pat.len() > 0,
        occurs(s, pat),
    ensures
        occurs(replace_all(s, pat, rep), rep),
    decreases s.len(),
{
    let r = replace_all(s, pat, rep);
    let j = choose|j: int| occurs_at(s, pat, j);
    if s.len() < pat.len() {
        assert(false);
    } else if s.take(pat.len() as int) == pat {
        let r2 = replace_all(s.skip(pat.len() as int), pat, rep);
        assert(r == rep + r2);
        assert((rep + r2).subrange(0, rep.len() as int) =~= rep);
        assert(occurs_at(r, rep, 0));
    } else {
        if j == 0 {
            assert(s.subrange(0, pat.len() as int) =~= s.take(pat.len() as int));
            assert(false);
        }
        let s1 = s.skip(1);
        assert(s1.subrange(j - 1, j - 1 + pat.len()) =~= s.subrange(j, j + pat.len()));
        assert(occurs_at(s1, pat, j - 1));
        lemma_replace_introduces(s1, pat, rep);
        let r1 = replace_all(s1, pat, rep);
        let k = choose|k: int| occurs_at(r1, rep, k);
        lemma_occurs_shift_right(seq![s[0]], r1, rep, k);
        assert(occurs_at(r, rep, 1 + k));
    }
}

/// An occurrence of the two-character marker `['#', y]` survives the pass
/// that replaces a different marker `['#', z]`.
proof fn lemma_other_marker_survives(s: Seq<char>, pat: Seq<char>, rep: Seq<char>, q: Seq<char>)
    requires
        pat.len() == 2,
        pat[0] == '#',
        pat[1] != '#',
        q.len() == 2,
        q[0] == '#',
        q[1] != '#',
        q[1] != pat[1],
        occurs(s, q),
    ensures
        occurs(replace_all(s, pat, rep), q),
    decreases s.len(),
{
    let r = replace_all(s, pat, rep);
    let j = choose|j: int| occurs_at(s, q, j);
    lemma_occurs_at_2(s, q, j);
    if s.len() < 2 {
        assert(false);
    } else if s.take(2) == pat {
        if j == 0 {
            assert(s[1] == q[1]);
            assert(s.take(2)[1] == s[1]);
            assert(false);
        }
        if j == 1 {
            assert(s[1] == '#');
            assert(s.take(2)[1] == s[1]);
            assert(false);
        }
        let s2 = s.skip(2);
        assert(s2.subrange(j - 2, j) =~= s.subrange(j, j + 2));
        assert(occurs_at(s2, q, j - 2));
        lemma_other_marker_survives(s2, pat, rep, q);
        let r2 = replace_all(s2, pat, rep);
        let k = choose|k: int| occurs_at(r2, q, k);
        lemma_occurs_shift_right(rep, r2, q, k);
        assert(r == rep + r2);
    } else {
        let s1 = s.skip(1);
        let r1 = replace_all(s1, pat, rep);
        assert(r == seq![s[0]] + r1);
        if j == 0 {
            assert(s[0] == '#' && s[1] == q[1]);
            assert(s1[0] == q[1]);
            assert(s1[0] != '#');
            if s1.len() < 2 {
                assert(r1 == s1);
            } else if s1.take(2) == pat {
                assert(s1.take(2)[0] == s1[0]);
                assert(false);
            }
            assert(r1.len() > 0 && r1[0] == s1[0]);
            assert(r[0] == '#');
            assert(r[1] == q[1]);
            lemma_occurs_at_2(r, q, 0);
        } else {
            assert(s1.subrange(j - 1, j + 1) =~= s.subrange(j, j + 2));
            assert(occurs_at(s1, q, j - 1));
            lemma_other_marker_survives(s1, pat, rep, q);
            let k = choose|k: int| occurs_at(r1, q, k);
            lemma_occurs_shift_right(seq![s[0]], r1, q, k);
        }
    }
}

/// A `#`-free piece of text beginning the input also begins the output of a
/// `#`-marker pass.
proof fn lemma_clean_prefix_survives(s: Seq<char>, pat: Seq<char>, rep: Seq<char>, w: Seq<char>)
    requires
        pat.len() == 2,
        pat[0] == '#',
        w.len() >= 1,
        hash_free(w),
        w.len() <= s.len(),
        s.take(w.len() as int) == w,
    ensures
        replace_all(s, pat, rep).len() >= w.len(),
        replace_all(s, pat, rep).take(w.len() as int) == w,
    decreases w.len(),
{
    let r = replace_all(s, pat, rep);
    assert(s[0] == s.take(w.len() as int)[0]);
    assert(s[0] == w[0]);
    assert(w[0] != '#');
    if s.len() < 2 {
        assert(r == s);
    } else {
        if s.take(2) == pat {
            assert(s.take(2)[0] == s[0]);
            assert(false);
        }
        let s1 = s.skip(1);
        let r1 = replace_all(s1, pat, rep);
        assert(r == seq![s[0]] + r1);
        if w.len() == 1 {
            assert(r.take(1) =~= w);
        } else {
            let w1 = w.skip(1);
            assert(s1.take(w1.len() as int) =~= s.take(w.len() as int).skip(1));
            assert(w1 =~= w.skip(1));
            lemma_clean_prefix_survives(s1, pat, rep, w1);
            assert(r.take(w.len() as int) =~= seq![w[0]] + r1.take(w1.len() as int));
            assert(seq![w[0]] + w1 =~= w);
        }
    }
}

/// An occurrence of a `#`-free piece of text survives a `#`-marker pass as
/// long as the pass's marker cannot end right at the piece's first
/// character.
proof fn lemma_clean_occurrence_survives(s: Seq<char>, pat: Seq<char>, rep: Seq<char>, w: Seq<char>)
    requires
        pat.len() == 2,
        pat[0] == '#',
        pat[1] != '#',
        w.len() >= 1,
        hash_free(w),
        w[0] != pat[1],
        occurs(s, w),
    ensures
        occurs(replace_all(s, pat, rep), w),
    decreases s.len(),
{
    let r = replace_all(s, pat, rep);
    let j = choose|j: int| occurs_at(s, w, j);
    if j == 0 {
        assert(s.take(w.len() as int) =~= s.subrange(0, w.len() as int));
        lemma_clean_prefix_survives(s, pat, rep, w);
        assert(r.take(w.len() as int) =~= r.subrange(0, w.len() as int));
        assert(occurs_at(r, w, 0));
    } else if s.len() < 2 {
        assert(r == s);
    } else if s.take(2) == pat {
        if j == 1 {
            assert(s[1] == w[0]);
            assert(s.take(2)[1] == s[1]);
            assert(false);
        }
        let s2 = s.skip(2);
        assert(s2.subrange(j - 2, j - 2 + w.len()) =~= s.subrange(j, j + w.len()));
        assert(occurs_at(s2, w, j - 2));
        lemma_clean_occurrence_survives(s2, pat, rep, w);
        let r2 = replace_all(s2, pat, rep);
        let k = choose|k: int| occurs_at(r2, w, k);
        lemma_occurs_shift_right(rep, r2, w, k);
        assert(r == rep + r2);
    } else {
        let s1 = s.skip(1);
        assert(s1.subrange(j - 1, j - 1 + w.len()) =~= s.subrange(j, j + w.len()));
        assert(occurs_at(s1, w, j - 1));
        lemma_clean_occurrence_survives(s1, pat, rep, w);
        let r1 = replace_all(s1, pat, rep);
        let k = choose|k: int| occurs_at(r1, w, k);
        lemma_occurs_shift_right(seq![s[0]], r1, w, k);
        assert(r == seq![s[0]] + r1);
    }
}

/// Law (marker substitution completeness, second half): wherever a marker
/// occurs in the text, the output holds the corresponding HTML fragment.
pub proof fn lemma_fragments_introduced(s: Seq<char>)
    ensures
        occurs(s, marker_fold()) ==> occurs(subst_markers(s), details_open()),
        occurs(s, marker_question()) ==> occurs(subst_markers(s), summary_close()),
        occurs(s, marker_answer()) ==> occurs(subst_markers(s), details_close()),
{
    let s1 = replace_all(s, marker_fold(), details_open());
    let s2 = replace_all(s1, marker_question(), summary_close());
    let s3 = replace_all(s2, marker_answer(), details_close());
    assert(subst_markers(s) == s3);
    if occurs(s, marker_fold()) {
        lemma_replace_introduces(s, marker_fold(), details_open());
        lemma_clean_occurrence_survives(s1, marker_question(), summary_close(), details_open());
        lemma_clean_occurrence_survives(s2, marker_answer(), details_close(), details_open());
    }
    if occurs(s, marker_question()) {
        lemma_other_marker_survives(s, marker_fold(), details_open(), marker_question());
        lemma_replace_introduces(s1, marker_question(), summary_close());
        lemma_clean_occurrence_survives(s2, marker_answer(), details_close(), summary_close());
    }
    if occurs(s, marker_answer()) {
        lemma_other_marker_survives(s, marker_fold(), details_open(), marker_answer());
        lemma_other_marker_survives(s1, marker_question(), summary_close(), marker_answer());
        lemma_replace_introduces(s2, marker_answer(), details_close());
    }
}

/// Law (marker substitution completeness, first half): after the three
/// substitutions, no raw marker token remains anywhere in the text.
pub proof fn lemma_markers_eliminated(s: Seq<char>)
    ensures
        !occurs(subst_markers(s), marker_fold()),
        !occurs(subst_markers(s), marker_question()),
        !occurs(subst_markers(s), marker_answer()),
{
    let s1 = replace_all(s, marker_fold(), details_open());
    let s2 = replace_all(s1, marker_question(), summary_close());
    let s3 = replace_all(s2, marker_answer(), details_close());
    assert(seq!['#', 'f'] =~= marker_fold());
    assert(seq!['#', 'q'] =~= marker_question());
    assert(seq!['#', 'a'] =~= marker_answer());
    lemma_replace_keeps_clean(s, marker_fold(), details_open(), 'f');
    lemma_replace_keeps_clean(s1, marker_question(), summary_close(), 'q');
    lemma_replace_keeps_clean(s1, marker_question(), summary_close(), 'f');
    lemma_replace_keeps_clean(s2, marker_answer(), details_close(), 'a');
    lemma_replace_keeps_clean(s2, marker_answer(), details_close(), 'f');
    lemma_replace_keeps_clean(s2, marker_answer(), details_close(), 'q');
    assert(subst_markers(s) == s3);
}

/// The code-block depth standing before the event at position `i`, given
/// the depth `d0` at the front of the sequence.
pub open spec fn depth_at(evs: Seq<Event<'static>>, d0: nat, i: int) -> nat
    decreases i,
{
    if i <= 0 {
        d0
    } else {
        next_depth(evs[i - 1], depth_at(evs, d0, i - 1))
    }
}

proof fn lemma_depth_at_skip(evs: Seq<Event<'static>>, d0: nat, i: int)
    requires
        1 <= i <= evs.len(),
    ensures
        depth_at(evs.skip(1), next_depth(evs[0], d0), i - 1) == depth_at(evs, d0, i),
    decreases i,
{
    if i == 1 {
        assert(depth_at(evs.skip(1), next_depth(evs[0], d0), 0) == next_depth(evs[0], d0));
        assert(depth_at(evs, d0, 0) == d0);
        assert(depth_at(evs, d0, 1) == next_depth(evs[0], depth_at(evs, d0, 0)));
    } else {
        lemma_depth_at_skip(evs, d0, i - 1);
        assert(evs.skip(1)[i - 2] == evs[i - 1]);
        assert(depth_at(evs.skip(1), next_depth(evs[0], d0), i - 1) == next_depth(
            evs.skip(1)[i - 2],
            depth_at(evs.skip(1), next_depth(evs[0], d0), i - 2),
        ));
        assert(depth_at(evs, d0, i) == next_depth(evs[i - 1], depth_at(evs, d0, i - 1)));
    }
}

proof fn lemma_rewrite_from_len(evs: Seq<Event<'static>>, d: nat)
    ensures
        rewrite_from(evs, d).len() == evs.len(),
    decreases evs.len(),
{
    if evs.len() > 0 {
        lemma_rewrite_from_len(evs.skip(1), next_depth(evs[0], d));
    }
}

/// Law (positional substitution): the rewriter maps the stream pointwise —
/// the event at position `i` of the output is the rewrite of the event at
/// position `i` of the input where that event stands outside every code
/// block, and the input event itself where it stands inside one.
pub proof fn lemma_rewrite_pointwise(evs: Seq<Event<'static>>, d0: nat, i: int)
    requires
        0 <= i < evs.len(),
    ensures
        rewrite_from(evs, d0).len() == evs.len(),
        rewrite_from(evs, d0)[i] == (if depth_at(evs, d0, i) == 0 {
            rewrite_event(evs[i])
        } else {
            evs[i]
        }),
    decreases i,
{
    lemma_rewrite_from_len(evs, d0);
    if i > 0 {
        lemma_rewrite_pointwise(evs.skip(1), next_depth(evs[0], d0), i - 1);
        lemma_depth_at_skip(evs, d0, i);
        assert(evs.skip(1)[i - 1] == evs[i]);
        assert(rewrite_from(evs, d0)[i] == rewrite_from(evs.skip(1), next_depth(evs[0], d0))[i
            - 1]);
    }
}

/// Law (verbatim-region immunity, fenced code): an event standing inside a
/// code block — at positive code-block depth — passes through the rewriter
/// unchanged, wherever it stands in the stream.
pub proof fn lemma_code_block_immunity(evs: Seq<Event<'static>>, d0: nat, i: int)
    requires
        0 <= i < evs.len(),
        depth_at(evs, d0, i) > 0,
    ensures
        rewrite_from(evs, d0).len() == evs.len(),
        rewrite_from(evs, d0)[i] == evs[i],
{
    lemma_rewrite_pointwise(evs, d0, i);
}

/// Law (verbatim-region immunity, inline code and raw HTML): an event that
/// is no text run — inline code, an HTML span or block line, any structural
/// tag — passes through the rewriter unchanged.
pub proof fn lemma_non_text_immunity(evs: Seq<Event<'static>>, d0: nat, i: int)
    requires
        0 <= i < evs.len(),
        text_of(evs[i]) is None,
    ensures
        rewrite_from(evs, d0).len() == evs.len(),
        rewrite_from(evs, d0)[i] == evs[i],
{
    lemma_rewrite_pointwise(evs, d0, i);
}

/// The event carries no marker: it is no text run, or a text run whose
/// characters hold none of the three markers.
pub open spec fn marker_free_event(e: Event<'static>) -> bool {
    text_of(e) matches Some(t) ==> !has_marker(t)
}

/// Law (round-trip fidelity, the rewriter's half): when no text run holds a
/// marker, the rewriter hands every event through unchanged.
pub proof fn lemma_marker_free_unchanged(evs: Seq<Event<'static>>, d: nat)
    requires
        forall|i: int| 0 <= i < evs.len() ==> marker_free_event(#[trigger] evs[i]),
    ensures
        rewrite_from(evs, d) == evs,
    decreases evs.len(),
{
    if evs.len() == 0 {
        assert(rewrite_from(evs, d) =~= evs);
    } else {
        assert(marker_free_event(evs[0]));
        assert(rewrite_event(evs[0]) == evs[0]);
        assert(forall|i: int|
            0 <= i < evs.skip(1).len() ==> marker_free_event(#[trigger] evs.skip(1)[i]));
        lemma_marker_free_unchanged(evs.skip(1), next_depth(evs[0], d));
        assert(rewrite_from(evs, d) =~= evs);
    }
}

/// Law (round-trip fidelity, at the pipeline): on input whose text runs are
/// all marker-free, the whole transform is the bare parse-and-serialize
/// round trip.
pub proof fn lemma_marker_free_round_trip(s: Seq<char>)
    requires
        forall|i: int|
            0 <= i < parse_of(s).len() ==> marker_free_event(#[trigger] parse_of(s)[i]),
    ensures
        fold_txt_spec(s) == render_of(parse_of(s)),
{
    lemma_marker_free_unchanged(parse_of(s), 0);
}

} // verus!
