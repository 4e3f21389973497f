//! Rewriting of raw HTML fragments: the `src` of `<source>` elements is
//! mapped through a URL table and `<video>` elements get their `controls`.

use vstd::prelude::*;
use std::borrow::Cow;
use lol_html::html_content::Element;
use lol_html::{rewrite_str, ElementContentHandlers, RewriteStrSettings};
use crate::naming::{move_reference, moved_ref};

verus! {

/// The first value that `map` gives to `key`. URL tables are lists of
/// (key, value) pairs; where a key appears twice, its first entry is the one
/// that counts and later ones are never read.
pub open spec fn lookup(map: Seq<(Seq<char>, Seq<char>)>, key: Seq<char>) -> Option<Seq<char>>
    decreases map.len(),
{
    if map.len() == 0 {
        None
    } else if map[0].0 == key {
        Some(map[0].1)
    } else {
        lookup(map.drop_first(), key)
    }
}

/// `key` mapped through `map`, or `key` itself where `map` has no entry for it.
pub open spec fn mapped(map: Seq<(Seq<char>, Seq<char>)>, key: Seq<char>) -> Seq<char> {
    match lookup(map, key) {
        Some(v) => v,
        None => key,
    }
}

/// What lol_html's rewriting of `html` gives with two element handlers: each
/// element matching the selector `flagged` gets attribute `flag` set to
/// `flag_value`; each element matching the selector `linked` has its
/// attribute `link` (empty where absent) mapped through `map`. The result is
/// the new fragment and the `link` values met, in document order; `None`
/// where a selector is not valid or the fragment cannot be rewritten.
pub uninterp spec fn html_rewrite(
    html: Seq<char>,
    map: Seq<(Seq<char>, Seq<char>)>,
    flagged: Seq<char>,
    flag: Seq<char>,
    flag_value: Seq<char>,
    linked: Seq<char>,
    link: Seq<char>,
) -> Option<(Seq<char>, Seq<Seq<char>>)>;

/// The rewrite of video markup: `controls="true"` on each `<video>`, and the
/// `src` of each `<source src>` mapped through `map`.
pub open spec fn video_rewrite(html: Seq<char>, map: Seq<(Seq<char>, Seq<char>)>) -> Option<
    (Seq<char>, Seq<Seq<char>>),
> {
    html_rewrite(html, map, "video"@, "controls"@, "true"@, "source[src]"@, "src"@)
}

/// The first value that the table `map` gives to `key`.
pub fn lookup_url(map: &Vec<(String, String)>, key: &str) -> (r: Option<String>)
    ensures
        r.deep_view() == lookup(map.deep_view(), key@),
{
    let mut i: usize = 0;
    let k = key.to_owned();
    assert(map.deep_view().skip(0) =~= map.deep_view());
    while i < map.len()
        invariant
            i <= map@.len(),
            k@ == key@,
            lookup(map.deep_view(), key@) == lookup(map.deep_view().skip(i as int), key@),
        decreases map.len() - i,
    {
        let ghost rest = map.deep_view().skip(i as int);
        assert(rest[0] == (map@[i as int].0@, map@[i as int].1@));
        if map[i].0 == k {
            return Some(map[i].1.clone());
        }
        assert(rest.drop_first() =~= map.deep_view().skip(i + 1));
        i += 1;
    }
    None
}

/// `key` mapped through the table `map` (first entry wins).
pub fn mapped_url(map: &Vec<(String, String)>, key: &str) -> (r: String)
    ensures
        r@ == mapped(map.deep_view(), key@),
{
    match lookup_url(map, key) {
        Some(v) => v,
        None => key.to_owned(),
    }
}

/// Relies on `lol_html::rewrite_str` with the two element handlers below;
/// the result depends on its arguments alone.
#[verifier::external_body]
fn rewrite_fragment(html: &str, map: &Vec<(String, String)>, flagged: &str, flag: &str, flag_value: &str, linked: &str, link: &str) -> (r: Option<(String, Vec<String>)>)
    ensures
        r.deep_view() == html_rewrite(html@, map.deep_view(), flagged@, flag@, flag_value@, linked@, link@),
{
    let mut seen: Vec<String> = Vec::new();
    let on_flagged = ElementContentHandlers::default()
        .element(|el: &mut Element| Ok(el.set_attribute(flag, flag_value)?));
    let on_linked = ElementContentHandlers::default().element(|el: &mut Element| {
        let value = el.get_attribute(link).unwrap_or_default();
        el.set_attribute(link, &mapped_url(map, &value))?;
        Ok(seen.push(value))
    });
    let settings = RewriteStrSettings::new()
        .append_element_content_handler((Cow::Owned(flagged.parse().ok()?), on_flagged))
        .append_element_content_handler((Cow::Owned(linked.parse().ok()?), on_linked));
    rewrite_str(html, settings).ok().map(|out| (out, seen))
}

/// Rewrites video markup (see `video_rewrite`).
fn rewrite_videos(html: &str, map: &Vec<(String, String)>) -> (r: Option<(String, Vec<String>)>)
    ensures
        r.deep_view() == video_rewrite(html@, map.deep_view()),
{
    rewrite_fragment(html, map, "video", "controls", "true", "source[src]", "src")
}

/// The `src` of every `<source>` element of an HTML fragment, in order.
pub fn collect_videos(html: &str) -> (r: Option<Vec<String>>)
    ensures
        r.deep_view() == match video_rewrite(html@, Seq::empty()) {
            Some(res) => Some(res.1),
            None => None,
        },
{
    let empty: Vec<(String, String)> = Vec::new();
    assert(empty.deep_view() =~= Seq::<(Seq<char>, Seq<char>)>::empty());
    match rewrite_videos(html, &empty) {
        Some((_, seen)) => Some(seen),
        None => None,
    }
}

/// An HTML fragment with each `<source src>` mapped through `resolved` and
/// each `<video>` given its `controls`.
pub fn rewrite_html(html: &str, resolved: &Vec<(String, String)>) -> (r: Option<String>)
    ensures
        r.deep_view() == match video_rewrite(html@, resolved.deep_view()) {
            Some(res) => Some(res.0),
            None => None,
        },
{
    match rewrite_videos(html, resolved) {
        Some((out, _)) => Some(out),
        None => None,
    }
}

/// The table that moves each URL of `urls` from slug `old` to slug `new`.
pub open spec fn rename_table(urls: Seq<Seq<char>>, old: Seq<char>, new: Seq<char>) -> Seq<
    (Seq<char>, Seq<char>),
> {
    urls.map_values(|u: Seq<char>| (u, moved_ref(u, old, new)))
}

/// An HTML fragment whose `<source src>` URLs are moved from slug `old` to
/// slug `new` (see `moved_ref`).
pub fn rename_sources(html: &str, old: &str, new: &str) -> (r: Option<String>)
    ensures
        r.deep_view() == match video_rewrite(html@, Seq::empty()) {
            Some(res) => match video_rewrite(html@, rename_table(res.1, old@, new@)) {
                Some(res2) => Some(res2.0),
                None => None,
            },
            None => None,
        },
{
    let sources = match collect_videos(html) {
        Some(s) => s,
        None => return None,
    };
    let mut table: Vec<(String, String)> = Vec::new();
    let mut i: usize = 0;
    while i < sources.len()
        invariant
            i <= sources@.len(),
            table.deep_view() == rename_table(sources.deep_view().take(i as int), old@, new@),
        decreases sources.len() - i,
    {
        let renamed = move_reference(sources[i].as_str(), old, new);
        let ghost before = table.deep_view();
        table.push((sources[i].clone(), renamed));
        assert(table.deep_view() =~= before.push((sources@[i as int]@, renamed@)));
        assert(sources.deep_view().take(i + 1) =~= sources.deep_view().take(i as int).push(sources@[i as int]@));
        assert(table.deep_view() =~= rename_table(sources.deep_view().take(i + 1), old@, new@));
        i += 1;
    }
    assert(sources.deep_view().take(i as int) =~= sources.deep_view());
    rewrite_html(html, &table)
}

} // verus!
