//! The file-name convention that binds a document to its assets:
//! an asset of document `slug` is named `<slug>-<kind>-<index>.<ext>`.

use vstd::prelude::*;
use crate::text::{chars_of, string_of, replace_first, replace_first_exec, find_from, occurs_at};

verus! {

/// The number of `-` characters in `s` at position `i` or later.
pub open spec fn dashes_from(s: Seq<char>, i: int) -> nat
    decreases s.len() - i,
{
    if i < 0 || i >= s.len() {
        0
    } else {
        (if s[i] == '-' { 1nat } else { 0nat }) + dashes_from(s, i + 1)
    }
}

/// Position `k` is the dash that ends the slug: exactly two dashes stand
/// at `k` or after it.
pub open spec fn is_slug_end(s: Seq<char>, k: int) -> bool {
    0 <= k < s.len() && s[k] == '-' && dashes_from(s, k) == 2
}

/// The slug that an asset file name carries: what precedes its second-to-last
/// dash; nothing where the name has fewer than two dashes.
pub open spec fn slug_of(s: Seq<char>) -> Option<Seq<char>> {
    if exists|k: int| is_slug_end(s, k) {
        Some(s.subrange(0, choose|k: int| is_slug_end(s, k)))
    } else {
        None
    }
}

/// The final component of a `/`-separated path: what follows its last `/`.
pub open spec fn file_name_of(p: Seq<char>) -> Seq<char>
    decreases p.len(),
{
    if p.len() == 0 {
        p
    } else if p.last() == '/' {
        Seq::empty()
    } else {
        file_name_of(p.drop_last()).push(p.last())
    }
}

proof fn lemma_dashes_monotone(s: Seq<char>, i: int, j: int)
    requires
        0 <= i <= j,
    ensures
        dashes_from(s, j) <= dashes_from(s, i),
        i < j && i < s.len() && s[i] == '-' ==> dashes_from(s, j) < dashes_from(s, i),
    decreases j - i,
{
    if i < j {
        lemma_dashes_monotone(s, i + 1, j);
    }
}

proof fn lemma_slug_end_unique(s: Seq<char>, k1: int, k2: int)
    requires
        is_slug_end(s, k1),
        is_slug_end(s, k2),
    ensures
        k1 == k2,
{
    if k1 < k2 {
        lemma_dashes_monotone(s, k1, k2);
    } else if k2 < k1 {
        lemma_dashes_monotone(s, k2, k1);
    }
}

/// Where `k` ends the slug of `s`, the slug is `s[..k]`.
pub proof fn lemma_slug_of_at(s: Seq<char>, k: int)
    requires
        is_slug_end(s, k),
    ensures
        slug_of(s) == Some(s.subrange(0, k)),
{
    let c = choose|k: int| is_slug_end(s, k);
    lemma_slug_end_unique(s, k, c);
}

proof fn lemma_dashes_shift(s: Seq<char>, a: int, t: Seq<char>, b: int)
    requires
        0 <= a <= s.len(),
        0 <= b <= t.len(),
        s.subrange(a, s.len() as int) == t.subrange(b, t.len() as int),
    ensures
        dashes_from(s, a) == dashes_from(t, b),
    decreases s.len() - a,
{
    assert(s.subrange(a, s.len() as int).len() == t.subrange(b, t.len() as int).len());
    assert(s.subrange(a, s.len() as int).len() == s.len() - a);
    assert(t.subrange(b, t.len() as int).len() == t.len() - b);
    if a < s.len() {
        assert(b < t.len());
        assert(s[a] == s.subrange(a, s.len() as int)[0]);
        assert(t[b] == t.subrange(b, t.len() as int)[0]);
        assert(s.subrange(a + 1, s.len() as int) =~= s.subrange(a, s.len() as int).drop_first());
        assert(t.subrange(b + 1, t.len() as int) =~= t.subrange(b, t.len() as int).drop_first());
        lemma_dashes_shift(s, a + 1, t, b + 1);
    }
}

/// The slug that an asset file name carries (see `slug_of`).
pub fn extract_image_slug_from_file_name(file_name: &str) -> (r: Option<String>)
    ensures
        r.deep_view() == slug_of(file_name@),
{
    let cs = chars_of(file_name);
    let mut i: usize = cs.len();
    let mut count: usize = 0;
    while i > 0
        invariant
            cs@ == file_name@,
            i <= cs@.len(),
            count < 2,
            count == dashes_from(cs@, i as int),
        decreases i,
    {
        i -= 1;
        if cs[i] == '-' {
            count += 1;
            if count == 2 {
                proof {
                    lemma_slug_of_at(cs@, i as int);
                }
                return Some(string_of(cs.as_slice(), 0, i));
            }
        }
    }
    proof {
        assert forall|k: int| !is_slug_end(cs@, k) by {
            if 0 <= k {
                lemma_dashes_monotone(cs@, 0, k);
            }
        }
    }
    None
}

/// The directory part of a `/`-separated path: everything up to and
/// including its last `/`.
pub open spec fn dir_of(p: Seq<char>) -> Seq<char>
    decreases p.len(),
{
    if p.len() == 0 || p.last() == '/' {
        p
    } else {
        dir_of(p.drop_last())
    }
}

/// Where the file name of the path `cs` starts.
fn file_name_start(cs: &Vec<char>) -> (i: usize)
    ensures
        i <= cs@.len(),
        cs@.subrange(0, i as int) == dir_of(cs@),
        cs@.subrange(i as int, cs@.len() as int) == file_name_of(cs@),
{
    let mut i: usize = cs.len();
    assert(cs@.subrange(0, i as int) =~= cs@);
    assert(cs@.subrange(i as int, i as int) =~= Seq::<char>::empty());
    while i > 0 && cs[i - 1] != '/'
        invariant
            i <= cs@.len(),
            dir_of(cs@) == dir_of(cs@.subrange(0, i as int)),
            file_name_of(cs@) == file_name_of(cs@.subrange(0, i as int)) + cs@.subrange(
                i as int,
                cs@.len() as int,
            ),
        decreases i,
    {
        let ghost p = cs@.subrange(0, i as int);
        assert(p.drop_last() =~= cs@.subrange(0, i - 1));
        assert(cs@.subrange(i - 1, cs@.len() as int) =~= seq![p.last()] + cs@.subrange(
            i as int,
            cs@.len() as int,
        ));
        i -= 1;
    }
    proof {
        let p = cs@.subrange(0, i as int);
        if i > 0 {
            assert(p.last() == '/');
        } else {
            assert(p.len() == 0);
        }
        assert(file_name_of(cs@) =~= cs@.subrange(i as int, cs@.len() as int));
    }
    i
}

/// The slug that the asset at path `path` carries: that of its file name.
pub fn extract_image_slug(path: &str) -> (r: Option<String>)
    ensures
        r.deep_view() == slug_of(file_name_of(path@)),
{
    let cs = chars_of(path);
    let i = file_name_start(&cs);
    let name = string_of(cs.as_slice(), i, cs.len());
    extract_image_slug_from_file_name(name.as_str())
}

/// A reference after its document moved from slug `old` to `new`: where the
/// file name carries slug `old`, that slug segment becomes `new`; the
/// directory, the rest of the name, and any other reference stay as they were.
pub open spec fn moved_ref(p: Seq<char>, old: Seq<char>, new: Seq<char>) -> Seq<char> {
    let f = file_name_of(p);
    if slug_of(f) == Some(old) {
        dir_of(p) + new + f.subrange(old.len() as int, f.len() as int)
    } else {
        p
    }
}

proof fn lemma_slug_is_prefix(f: Seq<char>)
    requires
        slug_of(f) is Some,
    ensures
        slug_of(f)->Some_0.len() < f.len(),
        slug_of(f)->Some_0 == f.subrange(0, slug_of(f)->Some_0.len() as int),
{
    let k = choose|k: int| is_slug_end(f, k);
    assert(is_slug_end(f, k));
}

/// Moves a reference from slug `old` to slug `new` (see `moved_ref`).
pub fn move_reference(path: &str, old: &str, new: &str) -> (r: String)
    ensures
        r@ == moved_ref(path@, old@, new@),
{
    let cs = chars_of(path);
    let i = file_name_start(&cs);
    let name = string_of(cs.as_slice(), i, cs.len());
    let carries_old = match extract_image_slug_from_file_name(name.as_str()) {
        Some(s) => s == old.to_owned(),
        None => false,
    };
    if !carries_old {
        return path.to_owned();
    }
    proof {
        lemma_slug_is_prefix(name@);
    }
    let os = chars_of(old);
    let ns = chars_of(name.as_str());
    let mut out = string_of(cs.as_slice(), 0, i);
    out.append(new);
    let rest = string_of(ns.as_slice(), os.len(), ns.len());
    out.append(rest.as_str());
    assert(out@ =~= moved_ref(path@, old@, new@));
    out
}

/// The decimal digit character for `d < 10`.
pub open spec fn digit_char(d: nat) -> char {
    if d == 0 { '0' } else if d == 1 { '1' } else if d == 2 { '2' } else if d == 3 { '3' }
    else if d == 4 { '4' } else if d == 5 { '5' } else if d == 6 { '6' } else if d == 7 { '7' }
    else if d == 8 { '8' } else { '9' }
}

/// The decimal representation of `n`, without leading zeros.
pub open spec fn decimal(n: nat) -> Seq<char>
    decreases n,
{
    if n < 10 {
        seq![digit_char(n)]
    } else {
        decimal(n / 10).push(digit_char(n % 10))
    }
}

fn digit_exec(d: usize) -> (c: char)
    requires
        d < 10,
    ensures
        c == digit_char(d as nat),
{
    match d {
        0 => '0',
        1 => '1',
        2 => '2',
        3 => '3',
        4 => '4',
        5 => '5',
        6 => '6',
        7 => '7',
        8 => '8',
        _ => '9',
    }
}

fn push_decimal(out: &mut Vec<char>, n: usize)
    ensures
        final(out)@ == old(out)@ + decimal(n as nat),
    decreases n,
{
    if n >= 10 {
        push_decimal(out, n / 10);
    }
    out.push(digit_exec(n % 10));
    assert(final(out)@ =~= old(out)@ + decimal(n as nat));
}

/// The decimal text of `n`.
pub fn decimal_string(n: usize) -> (r: String)
    ensures
        r@ == decimal(n as nat),
{
    let mut cs: Vec<char> = Vec::new();
    push_decimal(&mut cs, n);
    assert(cs@ =~= decimal(n as nat));
    string_of(cs.as_slice(), 0, cs.len())
}

/// The three kinds of asset that a document owns.
#[derive(PartialEq, Eq, Structural, Clone, Copy, Debug)]
pub enum AssetKind {
    Attachment,
    Image,
    Video,
}

/// The word that names an asset kind inside a file name.
pub open spec fn kind_word(kind: AssetKind) -> Seq<char> {
    match kind {
        AssetKind::Attachment => "attachment"@,
        AssetKind::Image => "image"@,
        AssetKind::Video => "video"@,
    }
}

/// The file stem of asset `index` of kind `kind` owned by `slug`.
pub open spec fn asset_stem_of(slug: Seq<char>, kind: AssetKind, index: nat) -> Seq<char> {
    slug + seq!['-'] + kind_word(kind) + seq!['-'] + decimal(index)
}

/// `<slug>-<kind>-<index>`: the file stem under which an asset is stored.
pub fn asset_stem(slug: &str, kind: AssetKind, index: usize) -> (r: String)
    ensures
        r@ == asset_stem_of(slug@, kind, index as nat),
{
    let mut out = slug.to_owned();
    out.append("-");
    match kind {
        AssetKind::Attachment => out.append("attachment"),
        AssetKind::Image => out.append("image"),
        AssetKind::Video => out.append("video"),
    }
    out.append("-");
    let digits = decimal_string(index);
    out.append(digits.as_str());
    proof {
        reveal_strlit("-");
    }
    assert(out@ =~= asset_stem_of(slug@, kind, index as nat));
    out
}

/// The marker that stands in place of a URL that could not be fetched.
pub open spec fn dead_link_of(url: Seq<char>) -> Seq<char> {
    "$dead_link/"@ + url
}

/// `$dead_link/<url>`.
pub fn dead_link(url: &str) -> (r: String)
    ensures
        r@ == dead_link_of(url@),
{
    let mut out = String::from_str("$dead_link/");
    out.append(url);
    out
}

/// The asset renames that moving slug `old` to `new` calls for, in the
/// order of `names`: each name whose slug is `old`, with that slug replaced.
pub open spec fn rename_pairs(names: Seq<Seq<char>>, old: Seq<char>, new: Seq<char>) -> Seq<
    (Seq<char>, Seq<char>),
>
    decreases names.len(),
{
    if names.len() == 0 {
        Seq::empty()
    } else {
        let prev = rename_pairs(names.drop_last(), old, new);
        let n = names.last();
        if slug_of(n) == Some(old) {
            prev.push((n, replace_first(n, old, new)))
        } else {
            prev
        }
    }
}

/// A file name after slug `old` became `new`: renamed where it carried `old`.
pub open spec fn renamed_name(n: Seq<char>, old: Seq<char>, new: Seq<char>) -> Seq<char> {
    if slug_of(n) == Some(old) {
        replace_first(n, old, new)
    } else {
        n
    }
}

/// The asset renames, as (from, to) file names, that moving the assets of
/// slug `old` to slug `new` calls for among the file names `names`.
pub fn plan_asset_renames(names: &Vec<String>, old: &str, new: &str) -> (r: Vec<(String, String)>)
    ensures
        r.deep_view() == rename_pairs(names.deep_view(), old@, new@),
{
    let mut r: Vec<(String, String)> = Vec::new();
    let old_owned = old.to_owned();
    let mut i: usize = 0;
    while i < names.len()
        invariant
            i <= names@.len(),
            old_owned@ == old@,
            r.deep_view() == rename_pairs(names.deep_view().take(i as int), old@, new@),
        decreases names.len() - i,
    {
        let ghost prefix = names.deep_view().take(i as int);
        assert(names.deep_view().take(i + 1).drop_last() =~= prefix);
        assert(names.deep_view().take(i + 1).last() == names@[i as int]@);
        let slug = extract_image_slug_from_file_name(names[i].as_str());
        let carries_old = match &slug {
            Some(s) => *s == old_owned,
            None => false,
        };
        assert(carries_old == (slug_of(names@[i as int]@) == Some(old@)));
        if carries_old {
            let renamed = replace_first_exec(names[i].as_str(), old, new);
            let ghost before = r.deep_view();
            r.push((names[i].clone(), renamed));
            assert(r.deep_view() =~= before.push((names@[i as int]@, renamed@)));
        }
        i += 1;
    }
    assert(names.deep_view().take(i as int) =~= names.deep_view());
    r
}

/// Renaming an asset of slug `old` gives it slug `new` and keeps the rest of
/// its name (kind, index and extension) as it was.
pub proof fn lemma_renamed_asset(name: Seq<char>, old: Seq<char>, new: Seq<char>)
    requires
        slug_of(name) == Some(old),
    ensures
        replace_first(name, old, new) == new + name.subrange(old.len() as int, name.len() as int),
        slug_of(replace_first(name, old, new)) == Some(new),
{
    let k = choose|k: int| is_slug_end(name, k);
    assert(is_slug_end(name, k));
    assert(old == name.subrange(0, k));
    assert(occurs_at(name, old, 0));
    assert(find_from(name, old, 0) == Some(0int));
    let r = replace_first(name, old, new);
    let rest = name.subrange(k, name.len() as int);
    assert(r =~= new + rest);
    assert(r.subrange(new.len() as int, r.len() as int) =~= rest);
    lemma_dashes_shift(r, new.len() as int, name, k);
    assert(r[new.len() as int] == name[k]);
    lemma_slug_of_at(r, new.len() as int);
    assert(r.subrange(0, new.len() as int) =~= new);
}

/// Slug/asset binding of a rename from `old` to a different `new`: afterwards
/// no asset carries slug `old`, and each asset that carried it carries `new`
/// under the same kind, index and extension.
pub proof fn lemma_rename_binds_assets(names: Seq<Seq<char>>, old: Seq<char>, new: Seq<char>)
    requires
        old != new,
    ensures
        forall|i: int|
            0 <= i < names.len() ==> slug_of(#[trigger] renamed_name(names[i], old, new)) != Some(
                old,
            ),
        forall|i: int|
            0 <= i < names.len() && slug_of(names[i]) == Some(old) ==> {
                &&& #[trigger] renamed_name(names[i], old, new) == new + names[i].subrange(
                    old.len() as int,
                    names[i].len() as int,
                )
                &&& slug_of(renamed_name(names[i], old, new)) == Some(new)
            },
{
    assert forall|i: int| 0 <= i < names.len() implies slug_of(
        #[trigger] renamed_name(names[i], old, new),
    ) != Some(old) by {
        if slug_of(names[i]) == Some(old) {
            lemma_renamed_asset(names[i], old, new);
        }
    }
    assert forall|i: int| 0 <= i < names.len() && slug_of(names[i]) == Some(old) implies {
        &&& #[trigger] renamed_name(names[i], old, new) == new + names[i].subrange(
            old.len() as int,
            names[i].len() as int,
        )
        &&& slug_of(renamed_name(names[i], old, new)) == Some(new)
    } by {
        lemma_renamed_asset(names[i], old, new);
    }
}

} // verus!
