//! The marker rewriter: parse a chapter's markdown into events, substitute
//! the fold markers in every text run that stands outside a code block, and
//! serialize the events back to markdown.

use vstd::prelude::*;
use pulldown_cmark::Event;
use crate::events::code_end;
use crate::events::code_start;
use crate::events::event_text;
use crate::events::is_code_end;
use crate::events::is_code_start;
use crate::events::make_raw_event;
use crate::events::parse_markdown;
use crate::events::parse_of;
use crate::events::raw_event;
use crate::events::render_markdown;
use crate::events::render_of;
use crate::events::text_of;
use crate::text::has_marker;
use crate::text::rewrite_text;
use crate::text::str_has_marker;
use crate::text::subst_markers;

verus! {

/// A serialization failure, carrying its descriptive message.
#[derive(Debug)]
pub struct FoldError {
    pub message: String,
}

/// What one event becomes outside of code blocks: a text run that holds a
/// marker is replaced by a raw event carrying the substituted text, so the
/// HTML fragments reach the output literally; everything else stands
/// unchanged.
pub open spec fn rewrite_event(e: Event<'static>) -> Event<'static> {
    match text_of(e) {
        Some(t) => if has_marker(t) {
            raw_event(subst_markers(t))
        } else {
            e
        },
        None => e,
    }
}

/// The code-block depth after one event: starts of code blocks push, ends
/// pop (never below zero; the parser keeps them balanced).
pub open spec fn next_depth(e: Event<'static>, depth: nat) -> nat {
    if code_start(e) {
        depth + 1
    } else if code_end(e) && depth > 0 {
        (depth - 1) as nat
    } else {
        depth
    }
}

/// The rewritten event sequence, starting at the given code-block depth:
/// events at depth zero are rewritten, events inside a code block stand
/// unchanged.
pub open spec fn rewrite_from(evs: Seq<Event<'static>>, depth: nat) -> Seq<Event<'static>>
    decreases evs.len(),
{
    if evs.len() == 0 {
        Seq::empty()
    } else {
        let e2 = if depth == 0 {
            rewrite_event(evs[0])
        } else {
            evs[0]
        };
        seq![e2] + rewrite_from(evs.skip(1), next_depth(evs[0], depth))
    }
}

/// The whole rewritten event sequence of a chapter.
pub open spec fn rewrite_all(evs: Seq<Event<'static>>) -> Seq<Event<'static>> {
    rewrite_from(evs, 0)
}

/// What the whole pipeline yields for a chapter's text: the rewritten
/// markdown, or the serializer's error text.
pub open spec fn fold_txt_spec(s: Seq<char>) -> Result<Seq<char>, Seq<char>> {
    render_of(rewrite_all(parse_of(s)))
}

/// The prefix that a serialization failure's message carries.
pub open spec fn fold_error_prefix() -> Seq<char> {
    "Markdown Serialization failed: "@
}

/// The full message reported for the serializer error text `m`.
pub open spec fn fold_error_message(m: Seq<char>) -> Seq<char> {
    fold_error_prefix() + m
}

/// Rewrite the events in place: every text run outside a code block gets its
/// markers substituted.
fn rewrite_events(evs: &mut Vec<Event<'static>>)
    ensures
        final(evs)@ == rewrite_all(old(evs)@),
{
    let ghost orig = evs@;
    let n: usize = evs.len();
    let mut depth: usize = 0;
    let mut i: usize = 0;
    proof {
        assert(orig.skip(0) =~= orig);
        assert(orig.take(0) =~= Seq::<Event<'static>>::empty());
    }
    while i < n
        invariant
            n == orig.len(),
            i <= n,
            depth <= i,
            evs@.len() == orig.len(),
            evs@.skip(i as int) == orig.skip(i as int),
            rewrite_all(orig) == evs@.take(i as int) + rewrite_from(
                orig.skip(i as int),
                depth as nat,
            ),
        decreases n - i,
    {
        let ghost t = orig.skip(i as int);
        let ghost before = evs@;
        proof {
            assert(t[0] == orig[i as int]);
            assert(evs@[i as int] == orig[i as int]);
        }
        let starts = is_code_start(&evs[i]);
        let ends = is_code_end(&evs[i]);
        if depth == 0 {
            let replaced: Option<String> = match event_text(&evs[i]) {
                Some(txt) => {
                    if str_has_marker(txt.as_str()) {
                        Some(rewrite_text(txt.as_str()))
                    } else {
                        None
                    }
                },
                None => None,
            };
            match replaced {
                Some(new_txt) => {
                    let e2 = make_raw_event(new_txt);
                    evs[i] = e2;
                },
                None => {},
            }
        }
        proof {
            assert(evs@.take(i as int) =~= before.take(i as int));
            assert(evs@[i as int] == (if depth == 0 {
                rewrite_event(orig[i as int])
            } else {
                orig[i as int]
            }));
            assert(rewrite_from(t, depth as nat) == seq![evs@[i as int]] + rewrite_from(
                t.skip(1),
                next_depth(orig[i as int], depth as nat),
            ));
            assert(t.skip(1) =~= orig.skip(i + 1));
            assert(evs@.take(i as int) + (seq![evs@[i as int]] + rewrite_from(
                orig.skip(i + 1),
                next_depth(orig[i as int], depth as nat),
            )) =~= evs@.take(i + 1) + rewrite_from(
                orig.skip(i + 1),
                next_depth(orig[i as int], depth as nat),
            ));
            assert(evs@.skip(i + 1) =~= orig.skip(i + 1));
        }
        if starts {
            depth += 1;
        } else if ends && depth > 0 {
            depth -= 1;
        }
        i += 1;
    }
    proof {
        assert(orig.skip(n as int) =~= Seq::<Event<'static>>::empty());
        assert(rewrite_from(orig.skip(n as int), depth as nat) =~= Seq::<Event<'static>>::empty());
        assert(evs@.take(n as int) =~= evs@);
        assert(evs@.take(n as int) + Seq::<Event<'static>>::empty() =~= evs@);
    }
}

/// Transform one chapter's markdown: parse, substitute the fold markers in
/// every text run outside code blocks, and serialize back to markdown. A
/// serialization failure is wrapped into a descriptive error.
pub fn fold_txt(content: &str) -> (r: Result<String, FoldError>)
    ensures
        (match r {
            Ok(s) => fold_txt_spec(content@) == Ok::<Seq<char>, Seq<char>>(s@),
            Err(e) => fold_txt_spec(content@) matches Err(m) && e.message@ == fold_error_message(
                m,
            ),
        }),
{
    let mut evs = parse_markdown(content);
    rewrite_events(&mut evs);
    match render_markdown(&evs) {
        Ok(s) => Ok(s),
        Err(m) => {
            let mut message = String::new();
            message.append("Markdown Serialization failed: ");
            message.append(m.as_str());
            proof {
                assert(message@ =~= fold_error_message(m@));
            }
            Err(FoldError { message })
        },
    }
}

} // verus!
