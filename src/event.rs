//! The event model of a markdown document: the parser's event stream, with
//! the kinds that this library reads or rewrites lifted out as plain values
//! and every other kind carried through untouched.

use vstd::prelude::*;
use pulldown_cmark::{Event, Options, Parser, Tag, TagEnd};
use pulldown_cmark_to_cmark::cmark;
use std::rc::Rc;

verus! {

#[verifier::external_type_specification]
#[verifier::external_body]
pub struct ExCmarkEvent<'a>(Event<'a>);

/// A parser event carried through as the parser gave it, with the text it
/// was parsed from and its position in the parser's stream. Only parsing
/// makes one, so those two determine the event.
pub struct RawEvent {
    event: Event<'static>,
    source: Rc<String>,
    index: usize,
}

/// Where a carried parser event comes from: the parsed text and the
/// event's position in the parser's stream for that text.
pub struct Origin {
    pub source: Seq<char>,
    pub index: nat,
}

impl View for RawEvent {
    type V = Origin;

    closed spec fn view(&self) -> Origin {
        Origin { source: self.source@, index: self.index as nat }
    }
}

/// One event of a markdown document.
pub enum MdEvent {
    Text(String),
    Code(String),
    HeadingStart { level: u8, raw: RawEvent },
    HeadingEnd { level: u8, raw: RawEvent },
    ImageStart { url: String, raw: RawEvent },
    HtmlBlockStart(RawEvent),
    HtmlBlockEnd(RawEvent),
    Html(String),
    InlineHtml(String),
    SoftBreak,
    Other(RawEvent),
}

/// What the library sees of an event: its text, level or URL where the
/// library reads or rewrites it, and the origin of what it carries through.
pub enum EventView {
    Text(Seq<char>),
    Code(Seq<char>),
    HeadingStart { level: nat, origin: Origin },
    HeadingEnd { level: nat, origin: Origin },
    ImageStart { url: Seq<char>, origin: Origin },
    HtmlBlockStart(Origin),
    HtmlBlockEnd(Origin),
    Html(Seq<char>),
    InlineHtml(Seq<char>),
    SoftBreak,
    Other(Origin),
}

impl View for MdEvent {
    type V = EventView;

    open spec fn view(&self) -> EventView {
        match self {
            MdEvent::Text(s) => EventView::Text(s@),
            MdEvent::Code(s) => EventView::Code(s@),
            MdEvent::HeadingStart { level, raw } => EventView::HeadingStart { level: *level as nat, origin: raw@ },
            MdEvent::HeadingEnd { level, raw } => EventView::HeadingEnd { level: *level as nat, origin: raw@ },
            MdEvent::ImageStart { url, raw } => EventView::ImageStart { url: url@, origin: raw@ },
            MdEvent::HtmlBlockStart(raw) => EventView::HtmlBlockStart(raw@),
            MdEvent::HtmlBlockEnd(raw) => EventView::HtmlBlockEnd(raw@),
            MdEvent::Html(s) => EventView::Html(s@),
            MdEvent::InlineHtml(s) => EventView::InlineHtml(s@),
            MdEvent::SoftBreak => EventView::SoftBreak,
            MdEvent::Other(raw) => EventView::Other(raw@),
        }
    }
}

/// The views of a sequence of events.
pub open spec fn views(events: Seq<MdEvent>) -> Seq<EventView> {
    events.map_values(|e: MdEvent| e@)
}

/// `v` in reverse order, so that popping it yields `v` from the front.
pub fn into_reversed(v: Vec<MdEvent>) -> (r: Vec<MdEvent>)
    ensures
        r@.len() == v@.len(),
        forall|k: int| 0 <= k < r@.len() ==> r@[k] == v@[v@.len() - 1 - k],
{
    let ghost orig = v@;
    let n = v.len();
    let mut v = v;
    let mut rev: Vec<MdEvent> = Vec::new();
    while v.len() > 0
        invariant
            v@.len() + rev@.len() == n,
            n == orig.len(),
            v@ == orig.take(v@.len() as int),
            forall|k: int| 0 <= k < rev@.len() ==> rev@[k] == orig[n - 1 - k],
        decreases v.len(),
    {
        let e = v.pop().unwrap();
        rev.push(e);
    }
    rev
}

/// The state of the pass that joins split raw HTML: the events put out so
/// far, and the HTML text gathered inside an HTML block or a run of inline HTML.
pub struct MergeState {
    pub out: Seq<EventView>,
    pub in_html: bool,
    pub html: Seq<char>,
    pub in_inline: bool,
    pub inline: Seq<char>,
}

/// The state before any event.
pub open spec fn merge_start() -> MergeState {
    MergeState {
        out: Seq::empty(),
        in_html: false,
        html: Seq::empty(),
        in_inline: false,
        inline: Seq::empty(),
    }
}

/// One step of the join: the HTML lines of a block are gathered until the
/// block ends and then put out as one `Html` event before the block's end;
/// consecutive inline HTML, with the soft breaks among it, becomes one
/// `InlineHtml` event, put out before the next event of another kind.
pub open spec fn merge_step(st: MergeState, e: EventView) -> MergeState {
    match e {
        EventView::HtmlBlockStart(_) => MergeState { out: st.out.push(e), in_html: true, ..st },
        EventView::HtmlBlockEnd(_) => MergeState {
            out: st.out.push(EventView::Html(st.html)).push(e),
            in_html: false,
            html: Seq::empty(),
            ..st
        },
        EventView::InlineHtml(c) => MergeState {
            in_inline: true,
            inline: if st.in_inline { st.inline + c } else { c },
            ..st
        },
        _ => {
            if st.in_html && e is Html {
                MergeState { html: st.html + e->Html_0, ..st }
            } else if st.in_inline && e is SoftBreak {
                MergeState { inline: st.inline + seq!['\n'], ..st }
            } else if st.in_inline {
                MergeState {
                    out: st.out.push(EventView::InlineHtml(st.inline)).push(e),
                    in_inline: false,
                    inline: Seq::empty(),
                    ..st
                }
            } else {
                MergeState { out: st.out.push(e), ..st }
            }
        },
    }
}

/// The state after the join has read `evs`.
pub open spec fn merge_fold(evs: Seq<EventView>) -> MergeState
    decreases evs.len(),
{
    if evs.len() == 0 {
        merge_start()
    } else {
        merge_step(merge_fold(evs.drop_last()), evs.last())
    }
}

/// The joined event stream: a run of inline HTML still open at the end is
/// put out too, unless its text is empty.
pub open spec fn merged(evs: Seq<EventView>) -> Seq<EventView> {
    let st = merge_fold(evs);
    if st.in_inline && st.inline.len() > 0 {
        st.out.push(EventView::InlineHtml(st.inline))
    } else {
        st.out
    }
}

/// Joins raw HTML that the parser split: adjacent HTML of one kind reaches
/// later passes as one fragment.
pub fn merge_html(events: Vec<MdEvent>) -> (r: Vec<MdEvent>)
    ensures
        views(r@) == merged(views(events@)),
{
    let ghost orig = events@;
    let n = events.len();
    let mut rev = into_reversed(events);
    let mut out: Vec<MdEvent> = Vec::new();
    let mut in_html = false;
    let mut html = String::new();
    let mut in_inline = false;
    let mut inline = String::new();
    let ghost mut i: int = 0;
    proof {
        reveal_strlit("\n");
        assert(views(orig).take(0) =~= Seq::<EventView>::empty());
        assert(views(out@) =~= Seq::<EventView>::empty());
        assert(html@ =~= Seq::<char>::empty());
        assert(inline@ =~= Seq::<char>::empty());
    }
    while rev.len() > 0
        invariant
            0 <= i <= n,
            rev@.len() + i == n,
            n == orig.len(),
            forall|k: int| 0 <= k < rev@.len() ==> rev@[k] == orig[n - 1 - k],
            merge_fold(views(orig).take(i)) == (MergeState {
                out: views(out@),
                in_html,
                html: html@,
                in_inline,
                inline: inline@,
            }),
        decreases rev.len(),
    {
        let e = rev.pop().unwrap();
        let ghost ev = e@;
        let ghost before = views(out@);
        let ghost st0 = merge_fold(views(orig).take(i));
        proof {
            assert(e == orig[i]);
            assert(views(orig).take(i + 1).drop_last() =~= views(orig).take(i));
            assert(views(orig).take(i + 1).last() == ev);
        }
        match e {
            MdEvent::HtmlBlockStart(raw) => {
                in_html = true;
                out.push(MdEvent::HtmlBlockStart(raw));
                assert(views(out@) =~= before.push(ev));
            },
            MdEvent::HtmlBlockEnd(raw) => {
                in_html = false;
                out.push(MdEvent::Html(html));
                out.push(MdEvent::HtmlBlockEnd(raw));
                html = String::new();
                assert(views(out@) =~= before.push(EventView::Html(merge_fold(views(orig).take(i)).html)).push(ev));
            },
            MdEvent::InlineHtml(c) => {
                if !in_inline {
                    in_inline = true;
                    inline = String::new();
                }
                inline.append(c.as_str());
                assert(inline@ =~= (if merge_fold(views(orig).take(i)).in_inline {
                    merge_fold(views(orig).take(i)).inline + c@
                } else {
                    c@
                }));
            },
            MdEvent::Html(c) if in_html => {
                html.append(c.as_str());
            },
            MdEvent::SoftBreak if in_inline => {
                let ghost prev = inline@;
                inline.append("\n");
                proof {
                    reveal_strlit("\n");
                    assert("\n"@ =~= seq!['\n']);
                }
                assert(merge_step(st0, ev).inline =~= inline@);
            },
            other => {
                if in_inline {
                    out.push(MdEvent::InlineHtml(inline));
                    inline = String::new();
                    in_inline = false;
                    out.push(other);
                    assert(views(out@) =~= before.push(EventView::InlineHtml(merge_fold(views(orig).take(i)).inline)).push(ev));
                } else {
                    out.push(other);
                    assert(views(out@) =~= before.push(ev));
                }
            },
        }
        proof {
            i = i + 1;
        }
    }
    proof {
        assert(views(orig).take(n as int) =~= views(orig));
    }
    if in_inline && !inline.as_str().is_empty() {
        let ghost before = views(out@);
        out.push(MdEvent::InlineHtml(inline));
        assert(views(out@) =~= before.push(EventView::InlineHtml(merge_fold(views(orig)).inline)));
    }
    out
}

/// The events, as this library sees them, that pulldown-cmark's parser yields
/// for a text (tables, task lists, strikethrough and GFM enabled).
pub uninterp spec fn cmark_events(text: Seq<char>) -> Seq<EventView>;

/// What pulldown-cmark-to-cmark writes for an event stream: the markdown
/// text, or `None` where it finds no markdown text for the stream.
pub uninterp spec fn cmark_written(evs: Seq<EventView>) -> Option<Seq<char>>;

/// Relies on `pulldown_cmark::Event`'s tag variants: the start and end of a
/// heading, the start of an image and the bounds of an HTML block are told
/// apart, each keeping the parser's event.
#[verifier::external_body]
fn lift_tag_event(e: Event<'static>, raw: RawEvent) -> MdEvent {
    match e {
        Event::Start(Tag::Heading { level, .. }) => MdEvent::HeadingStart { level: level as u8, raw },
        Event::End(TagEnd::Heading(level)) => MdEvent::HeadingEnd { level: level as u8, raw },
        Event::Start(Tag::Image { dest_url, .. }) => MdEvent::ImageStart { url: dest_url.to_string(), raw },
        Event::Start(Tag::HtmlBlock) => MdEvent::HtmlBlockStart(raw),
        Event::End(TagEnd::HtmlBlock) => MdEvent::HtmlBlockEnd(raw),
        _ => MdEvent::Other(raw),
    }
}

/// Relies on `pulldown_cmark::Event`'s variants: each is moved, field by field,
/// into the library's event of the same kind; the `index`-th event of the
/// parser's stream for `source` keeps that origin.
#[verifier::external_body]
fn lift_event(e: Event<'static>, source: &Rc<String>, index: usize) -> MdEvent {
    match e {
        Event::Text(t) => MdEvent::Text(t.into_string()),
        Event::Code(t) => MdEvent::Code(t.into_string()),
        Event::Html(t) => MdEvent::Html(t.into_string()),
        Event::InlineHtml(t) => MdEvent::InlineHtml(t.into_string()),
        Event::SoftBreak => MdEvent::SoftBreak,
        other => lift_tag_event(other.clone(), RawEvent { event: other, source: source.clone(), index }),
    }
}

/// Relies on `pulldown_cmark::Parser::new_ext`: the events of a markdown
/// text, which depend on the text alone.
#[verifier::external_body]
fn parse_raw(text: &str) -> (r: Vec<MdEvent>)
    ensures
        views(r@) == cmark_events(text@),
{
    let options = Options::ENABLE_GFM | Options::ENABLE_TABLES | Options::ENABLE_TASKLISTS
        | Options::ENABLE_STRIKETHROUGH;
    let source = Rc::new(text.to_string());
    Parser::new_ext(text, options).enumerate().map(|(i, e)| lift_event(e.into_static(), &source, i)).collect()
}

/// Relies on `pulldown_cmark::Tag::Image`: the parser's image event with its
/// destination replaced by `url`, its other fields kept.
#[verifier::external_body]
fn image_with_url(raw: &RawEvent, url: &String) -> Event<'static> {
    match &raw.event {
        Event::Start(Tag::Image { link_type, title, id, .. }) => Event::Start(Tag::Image {
            link_type: *link_type,
            dest_url: url.clone().into(),
            title: title.clone(),
            id: id.clone(),
        }),
        other => other.clone(),
    }
}

/// Relies on `pulldown_cmark::Event`'s variants: the library's event turned
/// back into the parser's, with its text or image URL as it now stands.
#[verifier::external_body]
fn lower_event(e: &MdEvent) -> Event<'static> {
    match e {
        MdEvent::Text(t) => Event::Text(t.clone().into()),
        MdEvent::Code(t) => Event::Code(t.clone().into()),
        MdEvent::Html(t) => Event::Html(t.clone().into()),
        MdEvent::InlineHtml(t) => Event::InlineHtml(t.clone().into()),
        MdEvent::SoftBreak => Event::SoftBreak,
        MdEvent::ImageStart { url, raw } => image_with_url(raw, url),
        MdEvent::HeadingStart { raw, .. } | MdEvent::HeadingEnd { raw, .. } => raw.event.clone(),
        MdEvent::HtmlBlockStart(raw) | MdEvent::HtmlBlockEnd(raw) | MdEvent::Other(raw) => raw.event.clone(),
    }
}

/// Relies on `pulldown_cmark_to_cmark::cmark`: the markdown text of the
/// events, or `None` on a stream that it cannot write. Its output depends on
/// the events alone, and each event is fixed by its view.
#[verifier::external_body]
fn serialize_raw(events: &Vec<MdEvent>) -> (r: Option<String>)
    ensures
        r.deep_view() == cmark_written(views(events@)),
{
    let lowered: Vec<Event<'static>> = events.iter().map(lower_event).collect();
    let options = Options::ENABLE_GFM | Options::ENABLE_TABLES | Options::ENABLE_TASKLISTS
        | Options::ENABLE_STRIKETHROUGH;
    let mut buf = String::new();
    cmark(lowered.iter(), &mut buf, options).ok().map(|_| buf)
}

/// The events of a markdown text, with split raw HTML joined.
pub fn parse_markdown(text: &str) -> (r: Vec<MdEvent>)
    ensures
        views(r@) == merged(cmark_events(text@)),
{
    merge_html(parse_raw(text))
}

/// The markdown text of an event stream, which may have been rewritten in
/// place; `None` where the stream cannot be written as markdown.
pub fn serialize_markdown(events: &Vec<MdEvent>) -> (r: Option<String>)
    ensures
        r.deep_view() == cmark_written(views(events@)),
{
    serialize_raw(events)
}

} // verus!
