//! The trusted boundary around the markdown parser and serializer.
//!
//! The event stream itself is opaque to the verifier: what the logic needs of
//! an event — whether it is a text run, whether it opens or closes a fenced
//! code block, and which characters a text run carries — is exposed through
//! named results of the declarations below. Everything that decides or
//! transforms stands outside this module, in verified code.

use vstd::prelude::*;
use pulldown_cmark::Event;
use pulldown_cmark::Options;
use pulldown_cmark::Parser;
use pulldown_cmark::Tag;
use pulldown_cmark::TagEnd;

verus! {

#[verifier::external_type_specification]
#[verifier::external_body]
pub struct ExEvent<'a>(Event<'a>);

/// The event sequence that the markdown parser yields for `s`, with the
/// tables, footnotes, strikethrough and task-list extensions enabled.
pub uninterp spec fn parse_of(s: Seq<char>) -> Seq<Event<'static>>;

/// The characters of a text-run event; nothing for every other event.
pub uninterp spec fn text_of(e: Event<'static>) -> Option<Seq<char>>;

/// The raw-HTML event that carries exactly the characters `s`, which the
/// serializer emits verbatim.
pub uninterp spec fn raw_event(s: Seq<char>) -> Event<'static>;

/// Whether an event opens a fenced or indented code block.
pub uninterp spec fn code_start(e: Event<'static>) -> bool;

/// Whether an event closes a code block.
pub uninterp spec fn code_end(e: Event<'static>) -> bool;

/// What serializing an event sequence back to markdown yields: the rendered
/// text, or the serializer's error text.
pub uninterp spec fn render_of(evs: Seq<Event<'static>>) -> Result<Seq<char>, Seq<char>>;

/// Relies on `pulldown_cmark::Parser::new_ext`: parsing is a pure function of
/// the input text and the fixed extension set (tables, footnotes,
/// strikethrough, task lists); `into_static` only unties the events from the
/// input's lifetime.
#[verifier::external_body]
pub(crate) fn parse_markdown(content: &str) -> (evs: Vec<Event<'static>>)
    ensures
        evs@ == parse_of(content@),
{
    let mut opts = Options::empty();
    opts.insert(Options::ENABLE_TABLES);
    opts.insert(Options::ENABLE_FOOTNOTES);
    opts.insert(Options::ENABLE_STRIKETHROUGH);
    opts.insert(Options::ENABLE_TASKLISTS);
    let mut evs = Vec::new();
    for e in Parser::new_ext(content, opts) {
        evs.push(e.into_static());
    }
    evs
}

/// Relies on `pulldown_cmark::Event`: only the `Text` variant is a text run,
/// and it carries exactly the characters of its payload.
#[verifier::external_body]
pub(crate) fn event_text(e: &Event<'static>) -> (r: Option<String>)
    ensures
        (match r {
            Some(t) => text_of(*e) == Some(t@),
            None => text_of(*e) is None,
        }),
{
    match e {
        Event::Text(t) => Some(t.as_ref().to_owned()),
        _ => None,
    }
}

/// Relies on `pulldown_cmark::Event::InlineHtml`: the built event carries
/// exactly the given characters, and the serializer writes inline HTML
/// unchanged — so the substituted fragments stay literal HTML in the
/// output, as does the text around them.
#[verifier::external_body]
pub(crate) fn make_raw_event(s: String) -> (e: Event<'static>)
    ensures
        e == raw_event(s@),
{
    Event::InlineHtml(s.into())
}

/// Relies on `pulldown_cmark::Event::Start` and `Tag::CodeBlock`: exactly the
/// start-of-code-block event opens a code block.
#[verifier::external_body]
pub(crate) fn is_code_start(e: &Event<'static>) -> (r: bool)
    ensures
        r == code_start(*e),
{
    matches!(e, Event::Start(Tag::CodeBlock(_)))
}

/// Relies on `pulldown_cmark::Event::End` and `TagEnd::CodeBlock`: exactly the
/// end-of-code-block event closes a code block.
#[verifier::external_body]
pub(crate) fn is_code_end(e: &Event<'static>) -> (r: bool)
    ensures
        r == code_end(*e),
{
    matches!(e, Event::End(TagEnd::CodeBlock))
}

/// Relies on `pulldown_cmark_to_cmark::cmark_with_options`: serialization is a
/// pure function of the event sequence, given the fixed formatting options
/// (the parser's extension flags, one newline after a code block) and a plain
/// string as the output; on failure the result is the serializer error's
/// display text.
#[verifier::external_body]
pub(crate) fn render_markdown(evs: &Vec<Event<'static>>) -> (r: Result<String, String>)
    ensures
        (match r {
            Ok(s) => render_of(evs@) == Ok::<Seq<char>, Seq<char>>(s@),
            Err(m) => render_of(evs@) == Err::<Seq<char>, Seq<char>>(m@),
        }),
{
    let mut popts = Options::empty();
    popts.insert(Options::ENABLE_TABLES);
    popts.insert(Options::ENABLE_FOOTNOTES);
    popts.insert(Options::ENABLE_STRIKETHROUGH);
    popts.insert(Options::ENABLE_TASKLISTS);
    let mut copts = pulldown_cmark_to_cmark::Options::default();
    copts.newlines_after_codeblock = 1;
    let mut buf = String::new();
    match pulldown_cmark_to_cmark::cmark_with_options(evs.iter(), &mut buf, popts, copts) {
        Ok(_) => Ok(buf),
        Err(err) => Err(format!("{}", err)),
    }
}

} // verus!
