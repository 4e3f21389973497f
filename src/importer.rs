//! Conversion of one exported record into a normalised document. Fetching
//! the assets is left to the caller: `prepare` checks the record,
//! `asset_requests` lists what to fetch, and `finish` builds the document
//! from the fetched outcomes.

use vstd::prelude::*;
use crate::document::{Markdown, MarkdownKind, replace_event_urls, replaced_event};
use crate::event::{EventView, MdEvent, cmark_events, cmark_written, into_reversed, merged, parse_markdown, serialize_markdown, views};
use crate::html::{collect_videos, lookup, lookup_url, mapped_url, rewrite_html, video_rewrite};
use crate::naming::{AssetKind, asset_stem, asset_stem_of};
use crate::text::{occurs_at, splitn3, splitn3_exec, starts_with};
use crate::toc::{build_toc, entries, toc_of};
use yaml_rust2::YamlLoader;

verus! {

/// A file attached to an exported record.
pub struct Attachment {
    pub address: String,
    pub name: String,
}

/// A key/value attribute of an exported record; `value` holds the value
/// where it is a string.
pub struct Attribute {
    pub trait_type: String,
    pub value: Option<String>,
}

/// One exported content item, as read from the export's JSON.
pub struct RawExport {
    pub created_at: String,
    pub updated_at: String,
    pub published_at: String,
    pub attachments: Vec<Attachment>,
    pub attributes: Vec<Attribute>,
    pub content: String,
    pub tags: Vec<String>,
    pub title: String,
}

/// Why a record could not be imported.
#[derive(PartialEq, Eq, Structural, Clone, Copy, Debug)]
pub enum ImportError {
    /// The first tag is neither `post` nor `short`.
    UnsupportedType,
    /// No attribute carries the slug.
    MissingSlug,
    /// The rewritten body could not be written back as markdown.
    Unserializable,
}

/// Whether yaml-rust2 loads a text as YAML without error.
pub uninterp spec fn yaml_loads(s: Seq<char>) -> bool;

/// Relies on `autocorrect::format_for` with the markdown format. Nothing is
/// stated of its output: it also reads process-wide settings of autocorrect
/// and of its parser, and gives the input back where its parse fails.
#[verifier::external_body]
pub fn format_markdown(input: &str) -> String {
    autocorrect::format_for(input, "markdown").out
}

/// Relies on `yaml_rust2::YamlLoader::load_from_str`: whether it succeeds.
#[verifier::external_body]
fn is_yaml(s: &str) -> (r: bool)
    ensures
        r == yaml_loads(s@),
{
    YamlLoader::load_from_str(s).is_ok()
}

impl View for Attribute {
    type V = (Seq<char>, Option<Seq<char>>);

    open spec fn view(&self) -> (Seq<char>, Option<Seq<char>>) {
        (self.trait_type@, self.value.deep_view())
    }
}

/// The attribute key that carries a record's slug.
pub open spec fn slug_key() -> Seq<char> {
    "xlog_slug"@
}

/// The slug of a record: the string value of its first slug-key attribute
/// that has one.
pub open spec fn slug_in(attrs: Seq<(Seq<char>, Option<Seq<char>>)>) -> Option<Seq<char>>
    decreases attrs.len(),
{
    if attrs.len() == 0 {
        None
    } else if attrs[0].0 == slug_key() && attrs[0].1 is Some {
        attrs[0].1
    } else {
        slug_in(attrs.drop_first())
    }
}

/// The views of a record's attributes.
pub open spec fn attribute_views(attrs: Seq<Attribute>) -> Seq<(Seq<char>, Option<Seq<char>>)> {
    attrs.map_values(|a: Attribute| a@)
}

/// The slug of a record.
pub fn extract_slug(attributes: &Vec<Attribute>) -> (r: Option<String>)
    ensures
        r.deep_view() == slug_in(attribute_views(attributes@)),
{
    let key = String::from_str("xlog_slug");
    let mut i: usize = 0;
    assert(attribute_views(attributes@).skip(0) =~= attribute_views(attributes@));
    while i < attributes.len()
        invariant
            i <= attributes@.len(),
            key@ == slug_key(),
            slug_in(attribute_views(attributes@)) == slug_in(attribute_views(attributes@).skip(i as int)),
        decreases attributes.len() - i,
    {
        let ghost rest = attribute_views(attributes@).skip(i as int);
        assert(rest[0] == attributes@[i as int]@);
        assert(rest.drop_first() =~= attribute_views(attributes@).skip(i + 1));
        if attributes[i].trait_type == key {
            match &attributes[i].value {
                Some(v) => return Some(v.clone()),
                None => {},
            }
        }
        i += 1;
    }
    None
}

/// Whether the record's tags make it an article (`Some(true)`), a short
/// (`Some(false)`) or neither: the first tag decides.
pub open spec fn article_kind(tags: Seq<Seq<char>>) -> Option<bool> {
    if tags.len() > 0 && tags[0] == "post"@ {
        Some(true)
    } else if tags.len() > 0 && tags[0] == "short"@ {
        Some(false)
    } else {
        None
    }
}

fn extract_kind(tags: &Vec<String>) -> (r: Option<bool>)
    ensures
        r == article_kind(tags.deep_view()),
{
    if tags.len() == 0 {
        return None;
    }
    let post = String::from_str("post");
    let short = String::from_str("short");
    if tags[0] == post {
        Some(true)
    } else if tags[0] == short {
        Some(false)
    } else {
        None
    }
}

/// An article body without the duplicate front matter that some sources
/// embed: where the text cut at its first two `---` has a middle piece that
/// loads as YAML, the middle piece and both cuts are dropped.
pub open spec fn stripped(body: Seq<char>) -> Seq<char> {
    let parts = splitn3(body, "---"@);
    if parts.len() == 3 && yaml_loads(parts[1]) {
        parts[0] + parts[2]
    } else {
        body
    }
}

/// Drops a duplicate front-matter block from an article body.
pub fn strip_front_matter(body: &str) -> (r: String)
    ensures
        r@ == stripped(body@),
{
    proof {
        reveal_strlit("---");
    }
    let parts = splitn3_exec(body, "---");
    if parts.len() == 3 && is_yaml(parts[1].as_str()) {
        let mut out = parts[0].clone();
        out.append(parts[2].as_str());
        out
    } else {
        body.to_owned()
    }
}

/// A record that passed the checks: its title and body normalised, its
/// slug found and its kind known.
pub struct Prepared {
    pub raw: RawExport,
    pub slug: String,
    pub is_article: bool,
}

/// What `prepare_formatted` promises of its result: the checks decide, and
/// the record is kept but for the title and body given.
pub open spec fn prepared_from(raw: RawExport, r: Result<Prepared, ImportError>) -> bool {
    match r {
        Ok(p) => {
            &&& article_kind(raw.tags.deep_view()) == Some(p.is_article)
            &&& slug_in(attribute_views(raw.attributes@)) == Some(p.slug@)
            &&& p.raw.attachments == raw.attachments
            &&& p.raw.attributes == raw.attributes
            &&& p.raw.tags == raw.tags
            &&& p.raw.created_at == raw.created_at
            &&& p.raw.updated_at == raw.updated_at
            &&& p.raw.published_at == raw.published_at
        },
        Err(e) => {
            &&& e != ImportError::Unserializable
            &&& (e == ImportError::UnsupportedType) == (article_kind(raw.tags.deep_view()) is None)
            &&& e == ImportError::MissingSlug ==> slug_in(attribute_views(raw.attributes@)) is None
        },
    }
}

/// Checks that a record can be imported, with its title and body already
/// normalised to `title` and `content`: its first tag must name its kind and
/// an attribute must carry its slug.
pub fn prepare_formatted(raw: RawExport, title: String, content: String) -> (r: Result<Prepared, ImportError>)
    ensures
        prepared_from(raw, r),
        r matches Ok(p) ==> p.raw.title == title && p.raw.content == content,
{
    let mut raw = raw;
    raw.title = title;
    raw.content = content;
    let is_article = match extract_kind(&raw.tags) {
        Some(k) => k,
        None => return Err(ImportError::UnsupportedType),
    };
    let slug = match extract_slug(&raw.attributes) {
        Some(s) => s,
        None => return Err(ImportError::MissingSlug),
    };
    Ok(Prepared { raw, slug, is_article })
}

/// Normalises a record's title and body with the markdown formatter and
/// checks that it can be imported (see `prepare_formatted`).
pub fn prepare(raw: RawExport) -> (r: Result<Prepared, ImportError>)
    ensures
        prepared_from(raw, r),
{
    let title = format_markdown(raw.title.as_str());
    let content = format_markdown(raw.content.as_str());
    prepare_formatted(raw, title, content)
}

/// The URLs of the image events, in order.
pub open spec fn image_urls(evs: Seq<EventView>) -> Seq<Seq<char>>
    decreases evs.len(),
{
    if evs.len() == 0 {
        Seq::empty()
    } else {
        match evs.last() {
            EventView::ImageStart { url, .. } => image_urls(evs.drop_last()).push(url),
            _ => image_urls(evs.drop_last()),
        }
    }
}

/// The `<source src>` URLs of the raw HTML events, in order; a fragment
/// that cannot be scanned contributes none.
pub open spec fn video_urls(evs: Seq<EventView>) -> Seq<Seq<char>>
    decreases evs.len(),
{
    if evs.len() == 0 {
        Seq::empty()
    } else {
        let prev = video_urls(evs.drop_last());
        match evs.last() {
            EventView::Html(h) => match video_rewrite(h, Seq::empty()) {
                Some(res) => prev + res.1,
                None => prev,
            },
            EventView::InlineHtml(h) => match video_rewrite(h, Seq::empty()) {
                Some(res) => prev + res.1,
                None => prev,
            },
            _ => prev,
        }
    }
}

/// The fetch requests (URL, file stem) for `urls`, numbered in order.
pub open spec fn numbered(urls: Seq<Seq<char>>, slug: Seq<char>, kind: AssetKind) -> Seq<
    (Seq<char>, Seq<char>),
> {
    Seq::new(urls.len(), |i: int| (urls[i], asset_stem_of(slug, kind, i as nat)))
}

/// The body of an article as it is parsed: normalised, its duplicate front
/// matter dropped.
pub open spec fn article_events(p: Prepared) -> Seq<EventView> {
    merged(cmark_events(stripped(p.raw.content@)))
}

/// The addresses of the attachments.
pub open spec fn addresses(atts: Seq<Attachment>) -> Seq<Seq<char>> {
    atts.map_values(|a: Attachment| a.address@)
}

/// Everything that importing `p` fetches: the attachments, then for an
/// article the images and the video sources of its body.
pub open spec fn requests_of(p: Prepared) -> Seq<(Seq<char>, Seq<char>)> {
    let covers = numbered(addresses(p.raw.attachments@), p.slug@, AssetKind::Attachment);
    if p.is_article {
        covers + numbered(image_urls(article_events(p)), p.slug@, AssetKind::Image) + numbered(
            video_urls(article_events(p)),
            p.slug@,
            AssetKind::Video,
        )
    } else {
        covers
    }
}

fn push_numbered(out: &mut Vec<(String, String)>, urls: &Vec<String>, slug: &str, kind: AssetKind)
    ensures
        final(out).deep_view() == old(out).deep_view() + numbered(urls.deep_view(), slug@, kind),
{
    let ghost start = out.deep_view();
    let mut i: usize = 0;
    while i < urls.len()
        invariant
            i <= urls@.len(),
            out.deep_view() == start + numbered(urls.deep_view().take(i as int), slug@, kind),
        decreases urls.len() - i,
    {
        let stem = asset_stem(slug, kind, i);
        let ghost before = out.deep_view();
        out.push((urls[i].clone(), stem));
        assert(out.deep_view() =~= before.push((urls@[i as int]@, stem@)));
        assert(out.deep_view() =~= start + numbered(urls.deep_view().take(i + 1), slug@, kind));
        i += 1;
    }
    assert(urls.deep_view().take(i as int) =~= urls.deep_view());
}

fn collect_image_urls(events: &Vec<MdEvent>) -> (r: Vec<String>)
    ensures
        r.deep_view() == image_urls(views(events@)),
{
    let mut r: Vec<String> = Vec::new();
    let mut i: usize = 0;
    assert(views(events@).take(0) =~= Seq::<EventView>::empty());
    while i < events.len()
        invariant
            i <= events@.len(),
            r.deep_view() == image_urls(views(events@).take(i as int)),
        decreases events.len() - i,
    {
        assert(views(events@).take(i + 1).drop_last() =~= views(events@).take(i as int));
        match &events[i] {
            MdEvent::ImageStart { url, .. } => {
                let ghost before = r.deep_view();
                r.push(url.clone());
                assert(r.deep_view() =~= before.push(url@));
            },
            _ => {},
        }
        i += 1;
    }
    assert(views(events@).take(i as int) =~= views(events@));
    r
}

fn append_all(out: &mut Vec<String>, more: Vec<String>)
    ensures
        final(out).deep_view() == old(out).deep_view() + more.deep_view(),
{
    let ghost start = out.deep_view();
    let mut i: usize = 0;
    while i < more.len()
        invariant
            i <= more@.len(),
            out.deep_view() == start + more.deep_view().take(i as int),
        decreases more.len() - i,
    {
        let ghost before = out.deep_view();
        out.push(more[i].clone());
        assert(out.deep_view() =~= before.push(more@[i as int]@));
        assert(out.deep_view() =~= start + more.deep_view().take(i + 1));
        i += 1;
    }
    assert(more.deep_view().take(i as int) =~= more.deep_view());
}

fn collect_video_urls(events: &Vec<MdEvent>) -> (r: Vec<String>)
    ensures
        r.deep_view() == video_urls(views(events@)),
{
    let mut r: Vec<String> = Vec::new();
    let mut i: usize = 0;
    assert(views(events@).take(0) =~= Seq::<EventView>::empty());
    while i < events.len()
        invariant
            i <= events@.len(),
            r.deep_view() == video_urls(views(events@).take(i as int)),
        decreases events.len() - i,
    {
        assert(views(events@).take(i + 1).drop_last() =~= views(events@).take(i as int));
        match &events[i] {
            MdEvent::Html(h) | MdEvent::InlineHtml(h) => match collect_videos(h.as_str()) {
                Some(srcs) => append_all(&mut r, srcs),
                None => {},
            },
            _ => {},
        }
        i += 1;
    }
    assert(views(events@).take(i as int) =~= views(events@));
    r
}

/// The addresses of the attachments, in order.
fn attachment_addresses(atts: &Vec<Attachment>) -> (r: Vec<String>)
    ensures
        r.deep_view() == addresses(atts@),
{
    let mut addrs: Vec<String> = Vec::new();
    let mut i: usize = 0;
    while i < atts.len()
        invariant
            i <= atts@.len(),
            addrs.deep_view() == addresses(atts@).take(i as int),
        decreases atts.len() - i,
    {
        let ghost before = addrs.deep_view();
        let a = atts[i].address.clone();
        addrs.push(a);
        assert(addrs.deep_view() =~= before.push(a@));
        assert(addresses(atts@).take(i + 1) =~= addresses(atts@).take(i as int).push(a@));
        i += 1;
    }
    assert(addresses(atts@).take(i as int) =~= addresses(atts@));
    addrs
}

/// The fetch requests, as (URL, file stem) pairs, that importing `p` makes.
pub fn asset_requests(p: &Prepared) -> (r: Vec<(String, String)>)
    ensures
        r.deep_view() == requests_of(*p),
{
    let mut out: Vec<(String, String)> = Vec::new();
    let addrs = attachment_addresses(&p.raw.attachments);
    assert(out.deep_view() =~= Seq::<(Seq<char>, Seq<char>)>::empty());
    push_numbered(&mut out, &addrs, p.slug.as_str(), AssetKind::Attachment);
    if p.is_article {
        let body = strip_front_matter(p.raw.content.as_str());
        let events = parse_markdown(body.as_str());
        let images = collect_image_urls(&events);
        push_numbered(&mut out, &images, p.slug.as_str(), AssetKind::Image);
        let videos = collect_video_urls(&events);
        push_numbered(&mut out, &videos, p.slug.as_str(), AssetKind::Video);
    }
    out
}

/// The outcomes that `table` gives to `urls`, in order, skipping a URL
/// that it gives none.
pub open spec fn resolved_all(urls: Seq<Seq<char>>, table: Seq<(Seq<char>, Seq<char>)>) -> Seq<
    Seq<char>,
>
    decreases urls.len(),
{
    if urls.len() == 0 {
        Seq::empty()
    } else {
        let prev = resolved_all(urls.drop_last(), table);
        match lookup(table, urls.last()) {
            Some(v) => prev.push(v),
            None => prev,
        }
    }
}

/// Whether an outcome is the dead-link marker of a failed fetch.
pub open spec fn is_dead(v: Seq<char>) -> bool {
    occurs_at(v, "$dead_link/"@, 0)
}

/// The entries of `table` whose outcome is a stored file, in order.
pub open spec fn live(table: Seq<(Seq<char>, Seq<char>)>) -> Seq<(Seq<char>, Seq<char>)>
    decreases table.len(),
{
    if table.len() == 0 {
        Seq::empty()
    } else if is_dead(table.last().1) {
        live(table.drop_last())
    } else {
        live(table.drop_last()).push(table.last())
    }
}

/// A raw HTML event with its video sources resolved through `table`; a
/// fragment that cannot be rewritten stays as it was.
pub open spec fn html_resolved(e: EventView, table: Seq<(Seq<char>, Seq<char>)>) -> EventView {
    match e {
        EventView::Html(h) => EventView::Html(
            match video_rewrite(h, table) {
                Some(res) => res.0,
                None => h,
            },
        ),
        EventView::InlineHtml(h) => EventView::InlineHtml(
            match video_rewrite(h, table) {
                Some(res) => res.0,
                None => h,
            },
        ),
        _ => e,
    }
}

/// The events of an imported article: image URLs replaced by their
/// outcomes, and video sources by the stored files (a dead link is never
/// written into markup).
pub open spec fn final_events(p: Prepared, table: Seq<(Seq<char>, Seq<char>)>) -> Seq<EventView> {
    article_events(p).map_values(
        |e: EventView| html_resolved(replaced_event(e, table), live(table)),
    )
}

/// The cover images of an imported document: the outcomes of its
/// attachments, then for an article those of the images of its body.
pub open spec fn covers_of(p: Prepared, table: Seq<(Seq<char>, Seq<char>)>) -> Seq<Seq<char>> {
    let covers = resolved_all(addresses(p.raw.attachments@), table);
    if p.is_article {
        covers + resolved_all(image_urls(article_events(p)), table)
    } else {
        covers
    }
}

fn push_resolved(out: &mut Vec<String>, urls: &Vec<String>, table: &Vec<(String, String)>)
    ensures
        final(out).deep_view() == old(out).deep_view() + resolved_all(urls.deep_view(), table.deep_view()),
{
    let ghost start = out.deep_view();
    let mut i: usize = 0;
    assert(urls.deep_view().take(0) =~= Seq::<Seq<char>>::empty());
    assert(out.deep_view() =~= start + Seq::<Seq<char>>::empty());
    while i < urls.len()
        invariant
            i <= urls@.len(),
            out.deep_view() == start + resolved_all(urls.deep_view().take(i as int), table.deep_view()),
        decreases urls.len() - i,
    {
        assert(urls.deep_view().take(i + 1).drop_last() =~= urls.deep_view().take(i as int));
        assert(urls.deep_view().take(i + 1).last() == urls@[i as int]@);
        if lookup_url(table, urls[i].as_str()).is_some() {
            let v = mapped_url(table, urls[i].as_str());
            let ghost before = out.deep_view();
            out.push(v);
            assert(out.deep_view() =~= before.push(v@));
        }
        i += 1;
    }
    assert(urls.deep_view().take(i as int) =~= urls.deep_view());
}

fn live_entries(table: &Vec<(String, String)>) -> (r: Vec<(String, String)>)
    ensures
        r.deep_view() == live(table.deep_view()),
{
    let mut r: Vec<(String, String)> = Vec::new();
    let mut i: usize = 0;
    assert(table.deep_view().take(0) =~= Seq::<(Seq<char>, Seq<char>)>::empty());
    while i < table.len()
        invariant
            i <= table@.len(),
            r.deep_view() == live(table.deep_view().take(i as int)),
        decreases table.len() - i,
    {
        assert(table.deep_view().take(i + 1).drop_last() =~= table.deep_view().take(i as int));
        assert(table.deep_view().take(i + 1).last() == (table@[i as int].0@, table@[i as int].1@));
        if !starts_with(table[i].1.as_str(), "$dead_link/") {
            let ghost before = r.deep_view();
            let e = (table[i].0.clone(), table[i].1.clone());
            r.push(e);
            assert(r.deep_view() =~= before.push((e.0@, e.1@)));
        }
        i += 1;
    }
    assert(table.deep_view().take(i as int) =~= table.deep_view());
    r
}

fn resolve_html_events(events: Vec<MdEvent>, table: &Vec<(String, String)>) -> (r: Vec<MdEvent>)
    ensures
        views(r@) == views(events@).map_values(|e: EventView| html_resolved(e, table.deep_view())),
{
    let ghost orig = events@;
    let n = events.len();
    let mut rev = into_reversed(events);
    let mut out: Vec<MdEvent> = Vec::new();
    let ghost mut i: int = 0;
    while rev.len() > 0
        invariant
            0 <= i <= n,
            rev@.len() + i == n,
            n == orig.len(),
            forall|k: int| 0 <= k < rev@.len() ==> rev@[k] == orig[n - 1 - k],
            views(out@) == views(orig).take(i).map_values(
                |e: EventView| html_resolved(e, table.deep_view()),
            ),
        decreases rev.len(),
    {
        let e = rev.pop().unwrap();
        let ghost ev = e@;
        let ghost before = views(out@);
        proof {
            assert(e == orig[i]);
        }
        let next = match e {
            MdEvent::Html(h) => match rewrite_html(h.as_str(), table) {
                Some(h2) => MdEvent::Html(h2),
                None => MdEvent::Html(h),
            },
            MdEvent::InlineHtml(h) => match rewrite_html(h.as_str(), table) {
                Some(h2) => MdEvent::InlineHtml(h2),
                None => MdEvent::InlineHtml(h),
            },
            other => other,
        };
        out.push(next);
        assert(views(out@) =~= before.push(html_resolved(ev, table.deep_view())));
        assert(views(orig).take(i + 1) =~= views(orig).take(i).push(ev));
        assert(views(out@) =~= views(orig).take(i + 1).map_values(
            |e: EventView| html_resolved(e, table.deep_view()),
        ));
        proof {
            i = i + 1;
        }
    }
    assert(views(orig).take(n as int) =~= views(orig));
    out
}

/// The content tags of a record: its tags after the first, which names its kind.
pub open spec fn content_tags(tags: Seq<Seq<char>>) -> Seq<Seq<char>> {
    if tags.len() == 0 {
        tags
    } else {
        tags.skip(1)
    }
}

/// Builds the document of a prepared record from the outcomes of its fetch
/// requests (`table` maps each fetched URL to a stored path or a dead-link
/// marker; a URL fetched twice, under two stems, counts by its first entry).
pub fn finish(p: Prepared, table: &Vec<(String, String)>) -> (r: Result<Markdown, ImportError>)
    ensures
        match r {
            Ok(md) => {
                &&& md.slug@ == p.slug@
                &&& md.title == p.raw.title
                &&& md.created_at == p.raw.created_at
                &&& md.updated_at == p.raw.updated_at
                &&& md.published_at == p.raw.published_at
                &&& md.cover_images.deep_view() == covers_of(p, table.deep_view())
                &&& if p.is_article {
                    &&& md.kind is Article
                    &&& md.kind->Article_tags.deep_view() == content_tags(p.raw.tags.deep_view())
                    &&& entries(md.kind->Article_toc@) == toc_of(final_events(p, table.deep_view()))
                    &&& cmark_written(final_events(p, table.deep_view())) == Some(md.content@)
                } else {
                    &&& md.kind is Short
                    &&& md.content == p.raw.content
                }
            },
            Err(e) => p.is_article && e == ImportError::Unserializable && cmark_written(
                final_events(p, table.deep_view()),
            ) is None,
        },
{
    let mut covers: Vec<String> = Vec::new();
    let addrs = attachment_addresses(&p.raw.attachments);
    assert(covers.deep_view() =~= Seq::<Seq<char>>::empty());
    push_resolved(&mut covers, &addrs, table);
    if !p.is_article {
        assert(covers.deep_view() =~= covers_of(p, table.deep_view()));
        return Ok(Markdown {
            kind: MarkdownKind::Short,
            slug: p.slug,
            title: p.raw.title,
            cover_images: covers,
            content: p.raw.content,
            created_at: p.raw.created_at,
            updated_at: p.raw.updated_at,
            published_at: p.raw.published_at,
        });
    }
    let body = strip_front_matter(p.raw.content.as_str());
    let events = parse_markdown(body.as_str());
    let images = collect_image_urls(&events);
    push_resolved(&mut covers, &images, table);
    let replaced = replace_event_urls(events, table);
    let live_table = live_entries(table);
    let resolved = resolve_html_events(replaced, &live_table);
    assert(views(resolved@) =~= final_events(p, table.deep_view()));
    let toc = build_toc(&resolved);
    let content = match serialize_markdown(&resolved) {
        Some(c) => c,
        None => return Err(ImportError::Unserializable),
    };
    let mut tags: Vec<String> = Vec::new();
    if p.raw.tags.len() > 0 {
        let mut j: usize = 1;
        assert(tags.deep_view() =~= p.raw.tags.deep_view().subrange(1, 1));
        while j < p.raw.tags.len()
            invariant
                1 <= j <= p.raw.tags@.len(),
                tags.deep_view() == p.raw.tags.deep_view().subrange(1, j as int),
            decreases p.raw.tags.len() - j,
        {
            let ghost before = tags.deep_view();
            let t = p.raw.tags[j].clone();
            tags.push(t);
            assert(tags.deep_view() =~= before.push(t@));
            assert(p.raw.tags.deep_view().subrange(1, j + 1) =~= p.raw.tags.deep_view().subrange(1, j as int).push(p.raw.tags@[j as int]@));
            j += 1;
        }
        assert(p.raw.tags.deep_view().subrange(1, j as int) =~= p.raw.tags.deep_view().skip(1));
    } else {
        assert(tags.deep_view() =~= p.raw.tags.deep_view());
    }
    Ok(Markdown {
        kind: MarkdownKind::Article { tags, toc },
        slug: p.slug,
        title: p.raw.title,
        cover_images: covers,
        content,
        created_at: p.raw.created_at,
        updated_at: p.raw.updated_at,
        published_at: p.raw.published_at,
    })
}

} // verus!
