//! Verified text-level logic: literal substring substitution of the three
//! fold markers, and HTML escaping of special characters.

use vstd::prelude::*;

verus! {

/// Leftmost, non-overlapping replacement of every occurrence of `pat` in `s`
/// by `rep` (the semantics of a single textual substitution pass).
pub open spec fn replace_all(s: Seq<char>, pat: Seq<char>, rep: Seq<char>) -> Seq<char>
    decreases s.len(),
{
    if pat.len() == 0 || s.len() < pat.len() {
        s
    } else if s.take(pat.len() as int) == pat {
        rep + replace_all(s.skip(pat.len() as int), pat, rep)
    } else {
        seq![s[0]] + replace_all(s.skip(1), pat, rep)
    }
}

pub open spec fn marker_fold() -> Seq<char> {
    seq!['#', 'f']
}

pub open spec fn marker_question() -> Seq<char> {
    seq!['#', 'q']
}

pub open spec fn marker_answer() -> Seq<char> {
    seq!['#', 'a']
}

pub open spec fn details_open() -> Seq<char> {
    seq!['<', 'd', 'e', 't', 'a', 'i', 'l', 's', '>', '<', 's', 'u', 'm', 'm', 'a', 'r', 'y', '>']
}

pub open spec fn summary_close() -> Seq<char> {
    seq!['<', '/', 's', 'u', 'm', 'm', 'a', 'r', 'y', '>']
}

pub open spec fn details_close() -> Seq<char> {
    seq!['<', '/', 'd', 'e', 't', 'a', 'i', 'l', 's', '>']
}

/// The three marker substitutions, in their fixed order.
pub open spec fn subst_markers(s: Seq<char>) -> Seq<char> {
    replace_all(
        replace_all(replace_all(s, marker_fold(), details_open()), marker_question(), summary_close()),
        marker_answer(),
        details_close(),
    )
}

/// `pat` stands in `s` starting at position `i`.
pub open spec fn occurs_at(s: Seq<char>, pat: Seq<char>, i: int) -> bool {
    0 <= i && i + pat.len() <= s.len() && s.subrange(i, i + pat.len()) == pat
}

/// `pat` stands somewhere in `s`.
pub open spec fn occurs(s: Seq<char>, pat: Seq<char>) -> bool {
    exists|i: int| occurs_at(s, pat, i)
}

/// `s` holds at least one of the three markers.
pub open spec fn has_marker(s: Seq<char>) -> bool {
    occurs(s, marker_fold()) || occurs(s, marker_question()) || occurs(s, marker_answer())
}

/// What one character becomes under HTML escaping.
pub open spec fn escape_char(c: char) -> Seq<char> {
    if c == '<' {
        seq!['&', 'l', 't', ';']
    } else if c == '>' {
        seq!['&', 'g', 't', ';']
    } else if c == '"' {
        seq!['&', 'q', 'u', 'o', 't', ';']
    } else if c == '&' {
        seq!['&', 'a', 'm', 'p', ';']
    } else {
        seq![c]
    }
}

/// HTML escaping of a whole character sequence.
pub open spec fn escape_seq(s: Seq<char>) -> Seq<char>
    decreases s.len(),
{
    if s.len() == 0 {
        Seq::empty()
    } else {
        escape_char(s[0]) + escape_seq(s.skip(1))
    }
}

proof fn lemma_escape_snoc(t: Seq<char>, c: char)
    ensures
        escape_seq(t.push(c)) == escape_seq(t) + escape_char(c),
    decreases t.len(),
{
    if t.len() == 0 {
        assert(t.push(c).skip(1) =~= Seq::<char>::empty());
        assert(t.push(c)[0] == c);
        assert(escape_seq(Seq::<char>::empty()) =~= Seq::<char>::empty());
        assert(escape_seq(t.push(c)) =~= escape_char(c));
        assert(escape_seq(t) + escape_char(c) =~= escape_char(c));
    } else {
        assert(t.push(c).skip(1) =~= t.skip(1).push(c));
        lemma_escape_snoc(t.skip(1), c);
        assert(escape_seq(t.push(c)) =~= escape_seq(t) + escape_char(c));
    }
}

/// The characters of `s`, in order, as a vector.
pub fn chars_of(s: &str) -> (v: Vec<char>)
    ensures
        v@ == s@,
{
    let mut v: Vec<char> = Vec::new();
    for c in it: s.chars()
        invariant
            it.seq() == s@,
            v@ == it.seq().take(it.index() as int),
    {
        v.push(c);
    }
    proof {
        assert(v@ =~= s@);
    }
    v
}

/// Relies on `String`'s `FromIterator<&char>` implementation: collecting
/// copies exactly the given characters, in order, into a new string.
#[verifier::external_body]
pub(crate) fn string_from_chars(v: &Vec<char>) -> (r: String)
    ensures
        r@ == v@,
{
    v.iter().collect()
}

/// Does `pat` stand in `v` at position `i`?
fn match_at(v: &Vec<char>, i: usize, pat: &Vec<char>) -> (r: bool)
    requires
        i + pat@.len() <= v@.len(),
    ensures
        r == (v@.subrange(i as int, i + pat@.len()) == pat@),
{
    let n: usize = v.len();
    let mut j: usize = 0;
    while j < pat.len()
        invariant
            j <= pat@.len(),
            n == v@.len(),
            i + pat@.len() <= n,
            forall|k: int| 0 <= k < j ==> v@[i + k] == pat@[k],
        decreases pat@.len() - j,
    {
        if v[i + j] != pat[j] {
            proof {
                assert(v@.subrange(i as int, i + pat@.len())[j as int] != pat@[j as int]);
            }
            return false;
        }
        j += 1;
    }
    proof {
        assert(v@.subrange(i as int, i + pat@.len()) =~= pat@);
    }
    true
}

/// Is there an occurrence of `pat` anywhere in `v`?
fn contains_pat(v: &Vec<char>, pat: &Vec<char>) -> (r: bool)
    requires
        pat@.len() > 0,
    ensures
        r == occurs(v@, pat@),
{
    if pat.len() > v.len() {
        proof {
            assert forall|i: int| !occurs_at(v@, pat@, i) by {
                if 0 <= i && i + pat@.len() <= v@.len() {
                    assert(false);
                }
            }
        }
        return false;
    }
    let vn: usize = v.len();
    let last: usize = vn - pat.len();
    let mut i: usize = 0;
    while i <= last
        invariant
            vn == v@.len(),
            last == v@.len() - pat@.len(),
            pat@.len() > 0,
            last + 1 <= vn,
            i <= last + 1,
            forall|k: int| 0 <= k < i ==> !occurs_at(v@, pat@, k),
        decreases last + 1 - i,
    {
        if match_at(v, i, pat) {
            proof {
                assert(occurs_at(v@, pat@, i as int));
            }
            return true;
        }
        i += 1;
    }
    proof {
        assert forall|k: int| !occurs_at(v@, pat@, k) by {
            if 0 <= k && k + pat@.len() <= v@.len() {
                assert(k < i);
            }
        }
    }
    false
}

fn marker_fold_chars() -> (r: Vec<char>)
    ensures
        r@ == marker_fold(),
{
    let mut r: Vec<char> = Vec::new();
    r.push('#');
    r.push('f');
    proof {
        assert(r@ =~= marker_fold());
    }
    r
}

fn marker_question_chars() -> (r: Vec<char>)
    ensures
        r@ == marker_question(),
{
    let mut r: Vec<char> = Vec::new();
    r.push('#');
    r.push('q');
    proof {
        assert(r@ =~= marker_question());
    }
    r
}

fn marker_answer_chars() -> (r: Vec<char>)
    ensures
        r@ == marker_answer(),
{
    let mut r: Vec<char> = Vec::new();
    r.push('#');
    r.push('a');
    proof {
        assert(r@ =~= marker_answer());
    }
    r
}

/// Does `s` hold any of the three fold markers?
pub fn str_has_marker(s: &str) -> (r: bool)
    ensures
        r == has_marker(s@),
{
    let v = chars_of(s);
    let f = marker_fold_chars();
    let q = marker_question_chars();
    let a = marker_answer_chars();
    contains_pat(&v, &f) || contains_pat(&v, &q) || contains_pat(&v, &a)
}

fn push_str_chars(out: &mut Vec<char>, piece: &str)
    ensures
        final(out)@ == old(out)@ + piece@,
{
    let v = chars_of(piece);
    let mut k: usize = 0;
    while k < v.len()
        invariant
            k <= v@.len(),
            v@ == piece@,
            out@ == old(out)@ + piece@.take(k as int),
        decreases v@.len() - k,
    {
        out.push(v[k]);
        proof {
            assert(old(out)@ + piece@.take(k as int) + seq![piece@[k as int]] =~= old(out)@
                + piece@.take(k as int + 1));
        }
        k += 1;
    }
    proof {
        assert(old(out)@ + piece@.take(piece@.len() as int) =~= old(out)@ + piece@);
    }
}

/// One substitution pass: replace every occurrence of `pat` in `v` by `rep`,
/// leftmost first, never overlapping.
fn replace_chars(v: &Vec<char>, pat: &Vec<char>, rep: &Vec<char>) -> (r: Vec<char>)
    requires
        pat@.len() > 0,
    ensures
        r@ == replace_all(v@, pat@, rep@),
{
    let mut out: Vec<char> = Vec::new();
    let mut i: usize = 0;
    proof {
        assert(v@.skip(0) =~= v@);
        assert(Seq::<char>::empty() + replace_all(v@, pat@, rep@) =~= replace_all(
            v@,
            pat@,
            rep@,
        ));
    }
    while i < v.len()
        invariant
            i <= v@.len(),
            pat@.len() > 0,
            replace_all(v@, pat@, rep@) == out@ + replace_all(v@.skip(i as int), pat@, rep@),
        decreases v@.len() - i,
    {
        let ghost old_out = out@;
        let ghost oi = i as int;
        let ghost t = v@.skip(oi);
        if pat.len() <= v.len() - i && match_at(v, i, pat) {
            let mut k: usize = 0;
            while k < rep.len()
                invariant
                    k <= rep@.len(),
                    out@ == old_out + rep@.take(k as int),
                decreases rep@.len() - k,
            {
                out.push(rep[k]);
                proof {
                    assert(old_out + rep@.take(k as int) + seq![rep@[k as int]] =~= old_out
                        + rep@.take(k as int + 1));
                }
                k += 1;
            }
            i += pat.len();
            proof {
                assert(out@ =~= old_out + rep@);
                assert(t.take(pat@.len() as int) =~= v@.subrange(oi, oi + pat@.len()));
                assert(replace_all(t, pat@, rep@) == rep@ + replace_all(
                    t.skip(pat@.len() as int),
                    pat@,
                    rep@,
                ));
                assert(t.skip(pat@.len() as int) =~= v@.skip(i as int));
                assert(old_out + replace_all(t, pat@, rep@) =~= out@ + replace_all(
                    v@.skip(i as int),
                    pat@,
                    rep@,
                ));
            }
        } else {
            out.push(v[i]);
            i += 1;
            proof {
                if t.len() >= pat@.len() {
                    assert(t.take(pat@.len() as int) =~= v@.subrange(oi, oi + pat@.len()));
                    assert(t.take(pat@.len() as int) != pat@);
                    assert(replace_all(t, pat@, rep@) == seq![t[0]] + replace_all(
                        t.skip(1),
                        pat@,
                        rep@,
                    ));
                } else {
                    assert(replace_all(t, pat@, rep@) == t);
                    assert(t.skip(1).len() < pat@.len());
                    assert(replace_all(t.skip(1), pat@, rep@) == t.skip(1));
                    assert(t =~= seq![t[0]] + t.skip(1));
                }
                assert(t[0] == v@[oi]);
                assert(t.skip(1) =~= v@.skip(i as int));
                assert(old_out + replace_all(t, pat@, rep@) =~= out@ + replace_all(
                    v@.skip(i as int),
                    pat@,
                    rep@,
                ));
            }
        }
    }
    proof {
        assert(v@.skip(v@.len() as int) =~= Seq::<char>::empty());
        assert(replace_all(v@, pat@, rep@) =~= out@);
    }
    out
}

fn details_open_chars() -> (r: Vec<char>)
    ensures
        r@ == details_open(),
{
    let mut r: Vec<char> = Vec::new();
    push_str_chars(&mut r, "<details><summary>");
    proof {
        reveal_strlit("<details><summary>");
        assert(r@ =~= details_open());
    }
    r
}

fn summary_close_chars() -> (r: Vec<char>)
    ensures
        r@ == summary_close(),
{
    let mut r: Vec<char> = Vec::new();
    push_str_chars(&mut r, "</summary>");
    proof {
        reveal_strlit("</summary>");
        assert(r@ =~= summary_close());
    }
    r
}

fn details_close_chars() -> (r: Vec<char>)
    ensures
        r@ == details_close(),
{
    let mut r: Vec<char> = Vec::new();
    push_str_chars(&mut r, "</details>");
    proof {
        reveal_strlit("</details>");
        assert(r@ =~= details_close());
    }
    r
}

/// Substitute the three fold markers in `s`, in their fixed order:
/// `#f` becomes `<details><summary>`, `#q` becomes `</summary>`,
/// `#a` becomes `</details>`.
pub fn rewrite_text(s: &str) -> (r: String)
    ensures
        r@ == subst_markers(s@),
{
    let v = chars_of(s);
    let f = marker_fold_chars();
    let q = marker_question_chars();
    let a = marker_answer_chars();
    let open = details_open_chars();
    let sclose = summary_close_chars();
    let dclose = details_close_chars();
    let v1 = replace_chars(&v, &f, &open);
    let v2 = replace_chars(&v1, &q, &sclose);
    let v3 = replace_chars(&v2, &a, &dclose);
    string_from_chars(&v3)
}

/// Escape the four HTML-significant characters of `s`, leaving every other
/// character as it stands.
pub fn escape_html(s: &str) -> (r: String)
    ensures
        r@ == escape_seq(s@),
{
    let mut out: Vec<char> = Vec::new();
    for c in it: s.chars()
        invariant
            it.seq() == s@,
            out@ == escape_seq(it.seq().take(it.index() as int)),
    {
        proof {
            lemma_escape_snoc(it.seq().take(it.index() as int), c);
            assert(it.seq().take(it.index() as int).push(c) =~= it.seq().take(
                it.index() as int + 1,
            ));
        }
        if c == '<' {
            push_str_chars(&mut out, "&lt;");
            proof {
                reveal_strlit("&lt;");
                assert(out@ =~= escape_seq(it.seq().take(it.index() as int)) + escape_char(c));
            }
        } else if c == '>' {
            push_str_chars(&mut out, "&gt;");
            proof {
                reveal_strlit("&gt;");
                assert(out@ =~= escape_seq(it.seq().take(it.index() as int)) + escape_char(c));
            }
        } else if c == '"' {
            push_str_chars(&mut out, "&quot;");
            proof {
                reveal_strlit("&quot;");
                assert(out@ =~= escape_seq(it.seq().take(it.index() as int)) + escape_char(c));
            }
        } else if c == '&' {
            push_str_chars(&mut out, "&amp;");
            proof {
                reveal_strlit("&amp;");
                assert(out@ =~= escape_seq(it.seq().take(it.index() as int)) + escape_char(c));
            }
        } else {
            out.push(c);
            proof {
                assert(out@ =~= escape_seq(it.seq().take(it.index() as int)) + escape_char(c));
            }
        }
    }
    proof {
        assert(s@.take(s@.len() as int) =~= s@);
    }
    string_from_chars(&out)
}

} // verus!
