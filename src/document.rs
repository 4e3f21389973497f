//! The normalised document: metadata shared by articles and shorts, the
//! article-only fields, and the text file that holds a document.

use vstd::prelude::*;
use crate::event::{EventView, MdEvent, cmark_events, cmark_written, into_reversed, merged, parse_markdown, serialize_markdown, views};
use crate::html::{video_rewrite, mapped, mapped_url, rename_sources, rename_table};
use crate::naming::{move_reference, moved_ref};
use crate::text::{chars_of, find_exec, find_from, lemma_find_from, occurs_at, splitn3, splitn3_exec};
use crate::toc::TocItem;

verus! {

/// What only an article has: its content tags and its table of contents.
pub enum MarkdownKind {
    Article { tags: Vec<String>, toc: Vec<TocItem> },
    Short,
}

/// A normalised document. Timestamps are kept as the RFC 3339 text they were
/// read as.
pub struct Markdown {
    pub kind: MarkdownKind,
    pub slug: String,
    pub title: String,
    pub cover_images: Vec<String>,
    pub content: String,
    pub created_at: String,
    pub updated_at: String,
    pub published_at: String,
}

/// Why a document could not be read or rewritten.
#[derive(PartialEq, Eq, Structural, Clone, Copy, Debug)]
pub enum DocumentError {
    /// The file does not hold a metadata block followed by a body.
    MissingMetadata,
    /// An embedded HTML fragment could not be rewritten.
    MalformedHtml,
    /// The rewritten events could not be written back as markdown.
    Unserializable,
}

/// The line that opens and closes the metadata block.
pub open spec fn delimiter() -> Seq<char> {
    seq!['-', '-', '-', '\n']
}

/// The text of a document file: the metadata between two delimiter lines,
/// then the body.
pub open spec fn framed(metadata: Seq<char>, body: Seq<char>) -> Seq<char> {
    delimiter() + metadata + seq!['\n'] + delimiter() + body
}

/// The text of a document file holding `metadata` and `body`.
pub fn frame_document(metadata: &str, body: &str) -> (r: String)
    ensures
        r@ == framed(metadata@, body@),
{
    let mut out = String::from_str("---\n");
    out.append(metadata);
    out.append("\n---\n");
    out.append(body);
    proof {
        reveal_strlit("---\n");
        reveal_strlit("\n---\n");
    }
    assert(out@ =~= framed(metadata@, body@));
    out
}

/// The metadata text and the body of a document file.
pub fn split_document(input: &str) -> (r: Result<(String, String), DocumentError>)
    ensures
        match r {
            Ok((m, b)) => splitn3(input@, delimiter()).len() == 3 && m@ == splitn3(
                input@,
                delimiter(),
            )[1] && b@ == splitn3(input@, delimiter())[2],
            Err(e) => splitn3(input@, delimiter()).len() != 3 && e == DocumentError::MissingMetadata,
        },
{
    proof {
        reveal_strlit("---\n");
        assert("---\n"@ =~= delimiter());
    }
    let mut parts = splitn3_exec(input, "---\n");
    if parts.len() != 3 {
        return Err(DocumentError::MissingMetadata);
    }
    let body = parts.pop().unwrap();
    let metadata = parts.pop().unwrap();
    Ok((metadata, body))
}

proof fn lemma_first_occurrence(s: Seq<char>, pat: Seq<char>, k: int)
    requires
        occurs_at(s, pat, k),
        forall|p: int| 0 <= p < k ==> !occurs_at(s, pat, p),
    ensures
        find_from(s, pat, 0) == Some(k),
{
    lemma_find_from(s, pat, 0);
}

proof fn lemma_no_early_delimiter(m1: Seq<char>, rest: Seq<char>)
    requires
        m1.len() > 0,
        m1.last() == '\n',
        rest.len() >= m1.len(),
        rest.subrange(0, m1.len() as int) == m1,
        forall|p: int| !occurs_at(m1, delimiter(), p),
    ensures
        forall|p: int| 0 <= p < m1.len() ==> !occurs_at(rest, delimiter(), p),
{
    let d = delimiter();
    let k = m1.len() as int;
    assert forall|p: int| 0 <= p < k implies !occurs_at(rest, d, p) by {
        if occurs_at(rest, d, p) {
            if p + 4 <= k {
                assert(m1.subrange(p, p + 4) =~= rest.subrange(p, p + 4));
                assert(occurs_at(m1, d, p));
            } else {
                assert(rest[k - 1] == m1[k - 1]);
                assert(rest.subrange(p, p + 4)[k - 1 - p] == rest[k - 1]);
            }
        }
    }
}

/// Round trip of the document file: where the metadata text holds no
/// delimiter line (as no JSON text does), cutting a framed document gives
/// back the metadata, with the line break that ends it, and the body.
pub proof fn lemma_frame_split(metadata: Seq<char>, body: Seq<char>)
    requires
        forall|p: int| !occurs_at(metadata + seq!['\n'], delimiter(), p),
    ensures
        splitn3(framed(metadata, body), delimiter()) == seq![Seq::<char>::empty(), metadata + seq!['\n'], body],
{
    let d = delimiter();
    let s = framed(metadata, body);
    let m1 = metadata + seq!['\n'];
    assert(s.subrange(0, 4) =~= d);
    lemma_first_occurrence(s, d, 0);
    let rest = s.subrange(4, s.len() as int);
    assert(rest =~= m1 + d + body);
    let k = m1.len() as int;
    assert(rest.subrange(0, k) =~= m1);
    assert(rest.subrange(k, k + 4) =~= d);
    lemma_no_early_delimiter(m1, rest);
    lemma_first_occurrence(rest, d, k);
    assert(rest.subrange(k + 4, rest.len() as int) =~= body);
    assert(s.subrange(0, 0) =~= Seq::<char>::empty());
    assert(splitn3(s, delimiter()) =~= seq![Seq::<char>::empty(), m1, body]);
}

/// The text of a document file holding `metadata` and `body`, where cutting
/// it gives both back: `None` where the metadata, with the line break that
/// ends it, holds a delimiter line.
pub fn frame_document_checked(metadata: &str, body: &str) -> (r: Option<String>)
    ensures
        match r {
            Some(s) => s@ == framed(metadata@, body@) && splitn3(s@, delimiter()) == seq![
                Seq::<char>::empty(),
                metadata@ + seq!['\n'],
                body@,
            ],
            None => exists|p: int| occurs_at(metadata@ + seq!['\n'], delimiter(), p),
        },
{
    let mut m = metadata.to_owned();
    m.append("\n");
    proof {
        reveal_strlit("\n");
        assert("\n"@ =~= seq!['\n']);
    }
    let cs = chars_of(m.as_str());
    let d = vec!['-', '-', '-', '\n'];
    assert(d@ =~= delimiter());
    match find_exec(cs.as_slice(), d.as_slice(), 0) {
        Some(i) => {
            proof {
                lemma_find_from(cs@, d@, 0);
            }
            None
        },
        None => {
            proof {
                lemma_find_from(cs@, d@, 0);
                lemma_frame_split(metadata@, body@);
            }
            Some(frame_document(metadata, body))
        },
    }
}

/// An HTML fragment after its `<source>` URLs moved from slug `old` to `new`.
pub open spec fn renamed_html(h: Seq<char>, old: Seq<char>, new: Seq<char>) -> Option<Seq<char>> {
    match video_rewrite(h, Seq::empty()) {
        Some(res) => match video_rewrite(h, rename_table(res.1, old, new)) {
            Some(res2) => Some(res2.0),
            None => None,
        },
        None => None,
    }
}

/// An event after its document moved from slug `old` to `new`: image URLs
/// and the sources inside raw HTML are moved (see `moved_ref`).
pub open spec fn renamed_event(e: EventView, old: Seq<char>, new: Seq<char>) -> Option<EventView> {
    match e {
        EventView::ImageStart { url, origin } => Some(EventView::ImageStart { url: moved_ref(url, old, new), origin }),
        EventView::Html(h) => match renamed_html(h, old, new) {
            Some(h2) => Some(EventView::Html(h2)),
            None => None,
        },
        EventView::InlineHtml(h) => match renamed_html(h, old, new) {
            Some(h2) => Some(EventView::InlineHtml(h2)),
            None => None,
        },
        _ => Some(e),
    }
}

/// Every event renamed, or `None` where some HTML fragment cannot be.
pub open spec fn renamed_events(evs: Seq<EventView>, old: Seq<char>, new: Seq<char>) -> Option<
    Seq<EventView>,
>
    decreases evs.len(),
{
    if evs.len() == 0 {
        Some(Seq::empty())
    } else {
        match (renamed_events(evs.drop_last(), old, new), renamed_event(evs.last(), old, new)) {
            (Some(p), Some(e)) => Some(p.push(e)),
            _ => None,
        }
    }
}

proof fn lemma_renamed_prefix_fails(evs: Seq<EventView>, old: Seq<char>, new: Seq<char>, i: int)
    requires
        0 <= i <= evs.len(),
        renamed_events(evs.take(i), old, new) is None,
    ensures
        renamed_events(evs, old, new) is None,
    decreases evs.len() - i,
{
    if i < evs.len() {
        assert(evs.take(i + 1).drop_last() =~= evs.take(i));
        lemma_renamed_prefix_fails(evs, old, new, i + 1);
    } else {
        assert(evs.take(i) =~= evs);
    }
}

/// Moves the URLs of an event stream from slug `old` to slug `new`.
pub fn rename_event_urls(events: Vec<MdEvent>, old: &str, new: &str) -> (r: Option<Vec<MdEvent>>)
    ensures
        match r {
            Some(v) => renamed_events(views(events@), old@, new@) == Some(views(v@)),
            None => renamed_events(views(events@), old@, new@) is None,
        },
{
    let ghost orig = events@;
    let n = events.len();
    let mut rev = into_reversed(events);
    let mut out: Vec<MdEvent> = Vec::new();
    let ghost mut i: int = 0;
    proof {
        assert(views(orig).take(0) =~= Seq::<EventView>::empty());
        assert(views(out@) =~= Seq::<EventView>::empty());
    }
    while rev.len() > 0
        invariant
            0 <= i <= n,
            rev@.len() + i == n,
            n == orig.len(),
            forall|k: int| 0 <= k < rev@.len() ==> rev@[k] == orig[n - 1 - k],
            orig == events@,
            renamed_events(views(orig).take(i), old@, new@) == Some(views(out@)),
        decreases rev.len(),
    {
        let e = rev.pop().unwrap();
        let ghost ev = e@;
        let ghost before = views(out@);
        proof {
            assert(e == orig[i]);
            assert(views(orig).take(i + 1).drop_last() =~= views(orig).take(i));
            assert(views(orig).take(i + 1).last() == ev);
        }
        let next: Option<MdEvent> = match e {
            MdEvent::ImageStart { url, raw } => {
                let u = move_reference(url.as_str(), old, new);
                Some(MdEvent::ImageStart { url: u, raw })
            },
            MdEvent::Html(h) => match rename_sources(h.as_str(), old, new) {
                Some(h2) => Some(MdEvent::Html(h2)),
                None => None,
            },
            MdEvent::InlineHtml(h) => match rename_sources(h.as_str(), old, new) {
                Some(h2) => Some(MdEvent::InlineHtml(h2)),
                None => None,
            },
            other => Some(other),
        };
        let next = match next {
            Some(x) => x,
            None => {
                proof {
                    assert(renamed_event(ev, old@, new@) is None);
                    assert(renamed_events(views(orig).take(i + 1), old@, new@) is None);
                    lemma_renamed_prefix_fails(views(orig), old@, new@, i + 1);
                }
                return None;
            },
        };
        assert(renamed_event(ev, old@, new@) == Some(next@));
        out.push(next);
        assert(views(out@) =~= before.push(next@));
        proof {
            i = i + 1;
        }
    }
    proof {
        assert(views(orig).take(n as int) =~= views(orig));
    }
    Some(out)
}

/// An event after the image renames of `table`: an image URL that the table
/// maps is replaced.
pub open spec fn replaced_event(e: EventView, table: Seq<(Seq<char>, Seq<char>)>) -> EventView {
    match e {
        EventView::ImageStart { url, origin } => EventView::ImageStart { url: mapped(table, url), origin },
        _ => e,
    }
}

/// An event stream with its image URLs mapped through `table`.
pub open spec fn replaced_body(evs: Seq<EventView>, table: Seq<(Seq<char>, Seq<char>)>) -> Seq<EventView> {
    evs.map_values(|e: EventView| replaced_event(e, table))
}

/// Maps the image URLs of an event stream through `table`.
pub fn replace_event_urls(events: Vec<MdEvent>, table: &Vec<(String, String)>) -> (r: Vec<MdEvent>)
    ensures
        views(r@) == views(events@).map_values(|e: EventView| replaced_event(e, table.deep_view())),
{
    let ghost orig = events@;
    let n = events.len();
    let mut rev = into_reversed(events);
    let mut out: Vec<MdEvent> = Vec::new();
    let ghost mut i: int = 0;
    while rev.len() > 0
        invariant
            0 <= i <= n,
            rev@.len() + i == n,
            n == orig.len(),
            forall|k: int| 0 <= k < rev@.len() ==> rev@[k] == orig[n - 1 - k],
            views(out@) == views(orig).take(i).map_values(
                |e: EventView| replaced_event(e, table.deep_view()),
            ),
        decreases rev.len(),
    {
        let e = rev.pop().unwrap();
        let ghost ev = e@;
        let ghost before = views(out@);
        proof {
            assert(e == orig[i]);
        }
        let next = match e {
            MdEvent::ImageStart { url, raw } => MdEvent::ImageStart { url: mapped_url(table, url.as_str()), raw },
            other => other,
        };
        out.push(next);
        assert(views(out@) =~= before.push(replaced_event(ev, table.deep_view())));
        assert(views(orig).take(i + 1) =~= views(orig).take(i).push(ev));
        assert(views(out@) =~= views(orig).take(i + 1).map_values(
            |e: EventView| replaced_event(e, table.deep_view()),
        ));
        proof {
            i = i + 1;
        }
    }
    assert(views(orig).take(n as int) =~= views(orig));
    out
}

/// Each reference moved from slug `old` to `new` (see `moved_ref`).
pub open spec fn renamed_all(v: Seq<Seq<char>>, old: Seq<char>, new: Seq<char>) -> Seq<Seq<char>> {
    v.map_values(|c: Seq<char>| moved_ref(c, old, new))
}

/// Each string mapped through `table`.
pub open spec fn mapped_all(v: Seq<Seq<char>>, table: Seq<(Seq<char>, Seq<char>)>) -> Seq<Seq<char>> {
    v.map_values(|c: Seq<char>| mapped(table, c))
}

fn rename_all(v: &Vec<String>, old: &str, new: &str) -> (r: Vec<String>)
    ensures
        r.deep_view() == renamed_all(v.deep_view(), old@, new@),
{
    let mut r: Vec<String> = Vec::new();
    let mut i: usize = 0;
    while i < v.len()
        invariant
            i <= v@.len(),
            r.deep_view() == renamed_all(v.deep_view().take(i as int), old@, new@),
        decreases v.len() - i,
    {
        let ghost before = r.deep_view();
        let x = move_reference(v[i].as_str(), old, new);
        r.push(x);
        assert(r.deep_view() =~= before.push(x@));
        assert(v.deep_view().take(i + 1) =~= v.deep_view().take(i as int).push(v@[i as int]@));
        assert(r.deep_view() =~= renamed_all(v.deep_view().take(i + 1), old@, new@));
        i += 1;
    }
    assert(v.deep_view().take(i as int) =~= v.deep_view());
    r
}

fn map_all(v: &Vec<String>, table: &Vec<(String, String)>) -> (r: Vec<String>)
    ensures
        r.deep_view() == mapped_all(v.deep_view(), table.deep_view()),
{
    let mut r: Vec<String> = Vec::new();
    let mut i: usize = 0;
    while i < v.len()
        invariant
            i <= v@.len(),
            r.deep_view() == mapped_all(v.deep_view().take(i as int), table.deep_view()),
        decreases v.len() - i,
    {
        let ghost before = r.deep_view();
        let x = mapped_url(table, v[i].as_str());
        r.push(x);
        assert(r.deep_view() =~= before.push(x@));
        assert(v.deep_view().take(i + 1) =~= v.deep_view().take(i as int).push(v@[i as int]@));
        assert(r.deep_view() =~= mapped_all(v.deep_view().take(i + 1), table.deep_view()));
        i += 1;
    }
    assert(v.deep_view().take(i as int) =~= v.deep_view());
    r
}

impl Markdown {
    /// Whether the document is an article.
    pub open spec fn is_article(&self) -> bool {
        self.kind is Article
    }

    /// The events of the body, as this library sees them.
    pub open spec fn body_events(&self) -> Seq<EventView> {
        merged(cmark_events(self.content@))
    }

    /// The document's slug.
    pub fn slug(&self) -> (r: &str)
        ensures
            r@ == self.slug@,
    {
        self.slug.as_str()
    }

    /// The document's body.
    pub fn content(&self) -> (r: &str)
        ensures
            r@ == self.content@,
    {
        self.content.as_str()
    }

    /// Moves the document to slug `new_slug`: the slug, the cover images and,
    /// in an article, the image URLs and embedded `<source>` URLs of the body
    /// have the slug segment of their file name moved where it is the old
    /// slug (see `moved_ref`). On failure the
    /// document is left as it was.
    pub fn rename_slug(&mut self, new_slug: &str) -> (r: Result<(), DocumentError>)
        ensures
            match r {
                Ok(()) => {
                    &&& final(self).slug@ == new_slug@
                    &&& final(self).cover_images.deep_view() == renamed_all(
                        old(self).cover_images.deep_view(),
                        old(self).slug@,
                        new_slug@,
                    )
                    &&& final(self).kind == old(self).kind
                    &&& final(self).title == old(self).title
                    &&& final(self).created_at == old(self).created_at
                    &&& final(self).updated_at == old(self).updated_at
                    &&& final(self).published_at == old(self).published_at
                    &&& !old(self).is_article() ==> final(self).content == old(self).content
                    &&& old(self).is_article() ==> renamed_events(
                        old(self).body_events(),
                        old(self).slug@,
                        new_slug@,
                    ) is Some && cmark_written(
                        renamed_events(old(self).body_events(), old(self).slug@, new_slug@)->Some_0,
                    ) == Some(final(self).content@)
                },
                Err(e) => {
                    &&& *final(self) == *old(self)
                    &&& old(self).is_article()
                    &&& (e == DocumentError::MalformedHtml) == renamed_events(
                        old(self).body_events(),
                        old(self).slug@,
                        new_slug@,
                    ) is None
                    &&& e == DocumentError::MalformedHtml || e == DocumentError::Unserializable
                    &&& (e == DocumentError::Unserializable) == (renamed_events(
                        old(self).body_events(),
                        old(self).slug@,
                        new_slug@,
                    ) is Some && cmark_written(
                        renamed_events(old(self).body_events(), old(self).slug@, new_slug@)->Some_0,
                    ) is None)
                },
            },
    {
        let old_slug = self.slug.clone();
        let covers = rename_all(&self.cover_images, old_slug.as_str(), new_slug);
        let is_article = match &self.kind {
            MarkdownKind::Article { .. } => true,
            MarkdownKind::Short => false,
        };
        if is_article {
            let events = parse_markdown(self.content.as_str());
            let renamed = match rename_event_urls(events, old_slug.as_str(), new_slug) {
                Some(v) => v,
                None => return Err(DocumentError::MalformedHtml),
            };
            match serialize_markdown(&renamed) {
                Some(text) => {
                    self.content = text;
                },
                None => return Err(DocumentError::Unserializable),
            }
        }
        self.slug = new_slug.to_owned();
        self.cover_images = covers;
        Ok(())
    }

    /// Applies the image renames of `table` (old path to new path): cover
    /// images and, in an article, image URLs of the body that the table maps
    /// are replaced. On failure the document is left as it was.
    pub fn replace_images(&mut self, table: &Vec<(String, String)>) -> (r: Result<(), DocumentError>)
        ensures
            match r {
                Ok(()) => {
                    &&& final(self).cover_images.deep_view() == mapped_all(
                        old(self).cover_images.deep_view(),
                        table.deep_view(),
                    )
                    &&& final(self).kind == old(self).kind
                    &&& final(self).slug == old(self).slug
                    &&& final(self).title == old(self).title
                    &&& final(self).created_at == old(self).created_at
                    &&& final(self).updated_at == old(self).updated_at
                    &&& final(self).published_at == old(self).published_at
                    &&& !old(self).is_article() ==> final(self).content == old(self).content
                    &&& old(self).is_article() ==> cmark_written(
                        replaced_body(old(self).body_events(), table.deep_view()),
                    ) == Some(final(self).content@)
                },
                Err(e) => {
                    &&& *final(self) == *old(self)
                    &&& old(self).is_article()
                    &&& e == DocumentError::Unserializable
                    &&& cmark_written(replaced_body(old(self).body_events(), table.deep_view())) is None
                },
            },
    {
        let covers = map_all(&self.cover_images, table);
        let is_article = match &self.kind {
            MarkdownKind::Article { .. } => true,
            MarkdownKind::Short => false,
        };
        if is_article {
            let events = parse_markdown(self.content.as_str());
            let replaced = replace_event_urls(events, table);
            match serialize_markdown(&replaced) {
                Some(text) => {
                    self.content = text;
                },
                None => return Err(DocumentError::Unserializable),
            }
        }
        self.cover_images = covers;
        Ok(())
    }
}

} // verus!
