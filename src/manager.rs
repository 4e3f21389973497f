//! Corpus maintenance: renaming a document's slug together with its assets,
//! and recompressing the asset images. The decisions stand here; reading,
//! writing, copying and deleting files is left to the caller.

use vstd::prelude::*;
use crate::naming::{extract_image_slug, file_name_of, slug_of};
use crate::resolver::{relative_path, relative_path_of};
use crate::text::{chars_of, string_of};

verus! {

/// Where a corpus lives: its documents and its assets.
pub struct MarkdownManager {
    pub output: String,
    pub image_output: String,
}

/// `base` and `name` joined by one `/`.
pub open spec fn joined(base: Seq<char>, name: Seq<char>) -> Seq<char> {
    if base.len() == 0 {
        name
    } else if base.last() == '/' {
        base + name
    } else {
        base + seq!['/'] + name
    }
}

/// Joins a directory and a name into a path.
pub fn join_path(base: &str, name: &str) -> (r: String)
    ensures
        r@ == joined(base@, name@),
{
    let cs = chars_of(base);
    let n = cs.len();
    if n == 0 {
        return name.to_owned();
    }
    let mut out = base.to_owned();
    if cs[n - 1] != '/' {
        out.append("/");
        proof {
            reveal_strlit("/");
        }
    }
    out.append(name);
    assert(out@ =~= joined(base@, name@));
    out
}

/// Why a maintenance call was refused.
#[derive(PartialEq, Eq, Structural, Clone, Copy, Debug)]
pub enum ManagerError {
    /// The document to rename does not exist.
    NotFound,
    /// A document already exists under the new slug.
    Conflict,
    /// The quality lies outside 0 to 100.
    InvalidQuality,
    /// A converted image's file name carries no slug.
    AssetWithoutSlug,
    /// A converted image lies where no path relative to the output root leads.
    OutsideOutput,
}

/// What a rename call is to do once its preconditions are checked.
#[derive(PartialEq, Eq, Structural, Clone, Copy, Debug)]
pub enum RenameStep {
    /// Old and new slug are one: nothing to do.
    Nothing,
    /// Write the new document, copy the assets, then delete the old files.
    Proceed,
}

/// The decision of a rename from `old` to `new`, given whether the two
/// document files exist: equal slugs need nothing; a missing origin and
/// then an existing target refuse the call before anything changes.
pub open spec fn rename_decision(old: Seq<char>, new: Seq<char>, origin_exists: bool, target_exists: bool) -> Result<RenameStep, ManagerError> {
    if old == new {
        Ok(RenameStep::Nothing)
    } else if !origin_exists {
        Err(ManagerError::NotFound)
    } else if target_exists {
        Err(ManagerError::Conflict)
    } else {
        Ok(RenameStep::Proceed)
    }
}

/// The slugs of the documents after a rename from `old` to `new` went through.
pub open spec fn after_rename(docs: Set<Seq<char>>, old: Seq<char>, new: Seq<char>) -> Set<Seq<char>> {
    docs.remove(old).insert(new)
}

/// A rename cannot be repeated: once `old` became `new`, the same call
/// again is refused as not found.
pub proof fn lemma_rename_not_repeatable(docs: Set<Seq<char>>, old: Seq<char>, new: Seq<char>)
    requires
        rename_decision(old, new, docs.contains(old), docs.contains(new)) == Ok::<RenameStep, ManagerError>(RenameStep::Proceed),
    ensures
        ({
            let after = after_rename(docs, old, new);
            rename_decision(old, new, after.contains(old), after.contains(new)) == Err::<RenameStep, ManagerError>(ManagerError::NotFound)
        }),
{
}

impl MarkdownManager {
    /// A manager of the corpus under `output`, whose assets lie in
    /// `image_output`, or in `output/images` where none is given.
    pub fn new(output: String, image_output: Option<String>) -> (r: MarkdownManager)
        ensures
            r.output@ == output@,
            r.image_output@ == match image_output {
                Some(i) => i@,
                None => joined(output@, "images"@),
            },
    {
        let image_output = match image_output {
            Some(i) => i,
            None => join_path(output.as_str(), "images"),
        };
        MarkdownManager { output, image_output }
    }

    /// The file of the document with slug `slug`: `<output>/<slug>.md`.
    pub fn document_path(&self, slug: &str) -> (r: String)
        ensures
            r@ == joined(self.output@, slug@ + ".md"@),
    {
        let mut name = slug.to_owned();
        name.append(".md");
        join_path(self.output.as_str(), name.as_str())
    }

    /// Decides a rename from `old_slug` to `new_slug` given whether their
    /// document files exist.
    pub fn plan_rename(&self, old_slug: &str, new_slug: &str, origin_exists: bool, target_exists: bool) -> (r: Result<RenameStep, ManagerError>)
        ensures
            r == rename_decision(old_slug@, new_slug@, origin_exists, target_exists),
    {
        let old = old_slug.to_owned();
        let new = new_slug.to_owned();
        if old == new {
            Ok(RenameStep::Nothing)
        } else if !origin_exists {
            Err(ManagerError::NotFound)
        } else if target_exists {
            Err(ManagerError::Conflict)
        } else {
            Ok(RenameStep::Proceed)
        }
    }

    /// The slug of the asset at `path` (see `naming::slug_of`).
    pub fn extract_image_slug(path: &str) -> (r: Option<String>)
        ensures
            r.deep_view() == slug_of(file_name_of(path@)),
    {
        extract_image_slug(path)
    }

    /// The slug of an asset file name (see `naming::slug_of`).
    pub fn extract_image_slug_from_file_name(file_name: &str) -> (r: Option<String>)
        ensures
            r.deep_view() == slug_of(file_name@),
    {
        crate::naming::extract_image_slug_from_file_name(file_name)
    }
}

/// The position of the dot that starts the extension of the path's file
/// name: its last dot, unless that is the name's first character.
pub open spec fn extension_dot(p: Seq<char>) -> Option<int>
    decreases p.len(),
{
    if p.len() == 0 || p.last() == '/' {
        None
    } else if p.last() == '.' {
        if p.len() >= 2 && p[p.len() - 2] != '/' {
            Some(p.len() - 1)
        } else {
            None
        }
    } else {
        extension_dot(p.drop_last())
    }
}

/// The extension of the path's file name.
pub open spec fn extension_of(p: Seq<char>) -> Option<Seq<char>> {
    match extension_dot(p) {
        Some(i) => Some(p.subrange(i + 1, p.len() as int)),
        None => None,
    }
}

/// The path with its file name's extension set to `ext`.
pub open spec fn with_ext(p: Seq<char>, ext: Seq<char>) -> Seq<char> {
    match extension_dot(p) {
        Some(i) => p.subrange(0, i) + seq!['.'] + ext,
        None => p + seq!['.'] + ext,
    }
}

/// A character code with ASCII capitals folded to small letters.
pub open spec fn folded(c: char) -> u32 {
    if 65 <= c as u32 <= 90 {
        (c as u32 + 32) as u32
    } else {
        c as u32
    }
}

/// `a` equals the lower-case word `b` up to ASCII case.
pub open spec fn equal_ignoring_case(a: Seq<char>, b: Seq<char>) -> bool {
    a.len() == b.len() && forall|i: int| 0 <= i < a.len() ==> folded(a[i]) == b[i] as u32
}

/// Whether the file at `p` is a raster image that recompression takes.
pub open spec fn is_raster(p: Seq<char>) -> bool {
    match extension_of(p) {
        Some(e) => equal_ignoring_case(e, "jpg"@) || equal_ignoring_case(e, "png"@)
            || equal_ignoring_case(e, "jpeg"@) || equal_ignoring_case(e, "gif"@)
            || equal_ignoring_case(e, "webp"@),
        None => false,
    }
}

fn extension_dot_exec(cs: &Vec<char>) -> (r: Option<usize>)
    ensures
        match r {
            Some(i) => extension_dot(cs@) == Some(i as int) && i < cs@.len(),
            None => extension_dot(cs@) is None,
        },
{
    let mut n = cs.len();
    assert(cs@.subrange(0, n as int) =~= cs@);
    while n > 0 && cs[n - 1] != '/' && cs[n - 1] != '.'
        invariant
            n <= cs@.len(),
            extension_dot(cs@) == extension_dot(cs@.subrange(0, n as int)),
        decreases n,
    {
        assert(cs@.subrange(0, n as int).drop_last() =~= cs@.subrange(0, n - 1));
        n -= 1;
    }
    if n == 0 || cs[n - 1] == '/' {
        return None;
    }
    if n >= 2 && cs[n - 2] != '/' {
        Some(n - 1)
    } else {
        None
    }
}

fn equal_ignoring_case_exec(a: &Vec<char>, from: usize, b: &str) -> (r: bool)
    requires
        from <= a@.len(),
    ensures
        r == equal_ignoring_case(a@.subrange(from as int, a@.len() as int), b@),
{
    let bs = chars_of(b);
    if a.len() - from != bs.len() {
        return false;
    }
    let mut i: usize = 0;
    while i < bs.len()
        invariant
            i <= bs@.len(),
            from <= a@.len() <= usize::MAX,
            a@.len() - from == bs@.len(),
            bs@ == b@,
            forall|k: int| 0 <= k < i ==> folded(a@[from + k]) == bs@[k] as u32,
        decreases bs.len() - i,
    {
        let c = a[from + i] as u32;
        let f = if 65 <= c && c <= 90 { c + 32 } else { c };
        if f != bs[i] as u32 {
            return false;
        }
        i += 1;
    }
    true
}

/// Whether recompression takes the file at `path`: its extension is one of
/// jpg, png, jpeg, gif or webp, in any ASCII case.
pub fn is_convertible_image(path: &str) -> (r: bool)
    ensures
        r == is_raster(path@),
{
    let cs = chars_of(path);
    let n = cs.len();
    match extension_dot_exec(&cs) {
        Some(i) => {
            let i = i + 1;
            proof {
                reveal_strlit("jpg");
                reveal_strlit("png");
                reveal_strlit("jpeg");
                reveal_strlit("gif");
                reveal_strlit("webp");
            }
            equal_ignoring_case_exec(&cs, i, "jpg") || equal_ignoring_case_exec(&cs, i, "png")
                || equal_ignoring_case_exec(&cs, i, "jpeg") || equal_ignoring_case_exec(&cs, i, "gif")
                || equal_ignoring_case_exec(&cs, i, "webp")
        },
        None => false,
    }
}

/// The path that the recompressed image at `path` is written to.
pub fn webp_path(path: &str) -> (r: String)
    ensures
        r@ == with_ext(path@, "webp"@),
{
    let cs = chars_of(path);
    let mut out = match extension_dot_exec(&cs) {
        Some(i) => string_of(cs.as_slice(), 0, i),
        None => path.to_owned(),
    };
    out.append(".webp");
    proof {
        reveal_strlit(".webp");
        reveal_strlit("webp");
    }
    assert(out@ =~= with_ext(path@, "webp"@));
    out
}

/// A path whose extension already is `ext` keeps its name when given `ext`.
pub proof fn lemma_with_same_ext(p: Seq<char>, ext: Seq<char>)
    requires
        extension_of(p) == Some(ext),
    ensures
        with_ext(p, ext) == p,
{
    let i = extension_dot(p)->Some_0;
    lemma_extension_dot_is_dot(p);
    assert(p =~= p.subrange(0, i) + seq!['.'] + p.subrange(i + 1, p.len() as int));
}

proof fn lemma_extension_dot_is_dot(p: Seq<char>)
    ensures
        extension_dot(p) matches Some(i) ==> 0 <= i < p.len() && p[i] == '.',
    decreases p.len(),
{
    if p.len() > 0 && p.last() != '/' && p.last() != '.' {
        lemma_extension_dot_is_dot(p.drop_last());
    }
}

/// The record of one successful recompression from `pair.0` to `pair.1`:
/// nothing where the path stayed the same; else the asset's slug and both
/// paths relative to the output root.
pub open spec fn conversion_record(pair: (Seq<char>, Seq<char>), output: Seq<char>) -> Result<Option<(Seq<char>, Seq<char>, Seq<char>)>, ManagerError> {
    if pair.0 == pair.1 {
        Ok(None)
    } else {
        match slug_of(file_name_of(pair.0)) {
            None => Err(ManagerError::AssetWithoutSlug),
            Some(slug) => match (relative_path_of(pair.0, output), relative_path_of(pair.1, output)) {
                (Some(a), Some(b)) => Ok(Some((slug, a, b))),
                _ => Err(ManagerError::OutsideOutput),
            },
        }
    }
}

/// The reference renames (slug, old path, new path) that the recompressions
/// `pairs` call for, in order; the first failing record fails them all.
pub open spec fn conversion_renames(pairs: Seq<(Seq<char>, Seq<char>)>, output: Seq<char>) -> Result<Seq<(Seq<char>, Seq<char>, Seq<char>)>, ManagerError>
    decreases pairs.len(),
{
    if pairs.len() == 0 {
        Ok(Seq::empty())
    } else {
        match conversion_renames(pairs.drop_last(), output) {
            Err(e) => Err(e),
            Ok(prev) => match conversion_record(pairs.last(), output) {
                Err(e) => Err(e),
                Ok(None) => Ok(prev),
                Ok(Some(t)) => Ok(prev.push(t)),
            },
        }
    }
}

/// The source files that the recompressions `pairs` supersede: those
/// written to a new path.
pub open spec fn conversion_deletions(pairs: Seq<(Seq<char>, Seq<char>)>) -> Seq<Seq<char>>
    decreases pairs.len(),
{
    if pairs.len() == 0 {
        Seq::empty()
    } else if pairs.last().0 == pairs.last().1 {
        conversion_deletions(pairs.drop_last())
    } else {
        conversion_deletions(pairs.drop_last()).push(pairs.last().0)
    }
}

/// What a recompression run does to the corpus after the images are written.
pub struct ConversionPlan {
    /// (slug, old path, new path), relative to the output root.
    pub renames: Vec<(String, String, String)>,
    /// The superseded source files, deleted once the documents are rewritten.
    pub deletions: Vec<String>,
}

/// Recompressing a corpus already in the target format renames nothing and
/// deletes nothing: each image is written back to its own path.
pub proof fn lemma_recompression_idempotent(paths: Seq<Seq<char>>, output: Seq<char>)
    requires
        forall|i: int| 0 <= i < paths.len() ==> extension_of(#[trigger] paths[i]) == Some("webp"@),
    ensures
        ({
            let pairs = paths.map_values(|p: Seq<char>| (p, with_ext(p, "webp"@)));
            &&& conversion_renames(pairs, output) == Ok::<Seq<(Seq<char>, Seq<char>, Seq<char>)>, ManagerError>(Seq::empty())
            &&& conversion_deletions(pairs) == Seq::<Seq<char>>::empty()
        }),
    decreases paths.len(),
{
    let pairs = paths.map_values(|p: Seq<char>| (p, with_ext(p, "webp"@)));
    if paths.len() > 0 {
        lemma_recompression_idempotent(paths.drop_last(), output);
        assert(pairs.drop_last() =~= paths.drop_last().map_values(|p: Seq<char>| (p, with_ext(p, "webp"@))));
        lemma_with_same_ext(paths.last(), "webp"@);
    } else {
    }
}

impl MarkdownManager {
    /// Decides the quality of a recompression: 80 where none is given; a
    /// value above 100 is refused.
    pub fn check_quality(quality: Option<u32>) -> (r: Result<u32, ManagerError>)
        ensures
            r == match quality {
                Some(q) => if q <= 100 { Ok(q) } else { Err(ManagerError::InvalidQuality) },
                None => Ok::<u32, ManagerError>(80),
            },
    {
        match quality {
            Some(q) => if q <= 100 { Ok(q) } else { Err(ManagerError::InvalidQuality) },
            None => Ok(80),
        }
    }

    /// Plans the reference renames and deletions of a recompression run from
    /// its successful conversions `pairs` (source path, written path).
    pub fn plan_conversion(&self, pairs: &Vec<(String, String)>) -> (r: Result<ConversionPlan, ManagerError>)
        ensures
            match r {
                Ok(plan) => conversion_renames(pairs.deep_view(), self.output@) == Ok::<Seq<(Seq<char>, Seq<char>, Seq<char>)>, ManagerError>(plan.renames.deep_view())
                    && plan.deletions.deep_view() == conversion_deletions(pairs.deep_view()),
                Err(e) => conversion_renames(pairs.deep_view(), self.output@) == Err::<Seq<(Seq<char>, Seq<char>, Seq<char>)>, ManagerError>(e),
            },
    {
        let mut renames: Vec<(String, String, String)> = Vec::new();
        let mut deletions: Vec<String> = Vec::new();
        let mut i: usize = 0;
        assert(pairs.deep_view().take(0) =~= Seq::<(Seq<char>, Seq<char>)>::empty());
        assert(renames.deep_view() =~= Seq::<(Seq<char>, Seq<char>, Seq<char>)>::empty());
        assert(deletions.deep_view() =~= Seq::<Seq<char>>::empty());
        while i < pairs.len()
            invariant
                i <= pairs@.len(),
                conversion_renames(pairs.deep_view().take(i as int), self.output@) == Ok::<Seq<(Seq<char>, Seq<char>, Seq<char>)>, ManagerError>(renames.deep_view()),
                deletions.deep_view() == conversion_deletions(pairs.deep_view().take(i as int)),
            decreases pairs.len() - i,
        {
            let ghost pv = pairs.deep_view();
            assert(pv.take(i + 1).drop_last() =~= pv.take(i as int));
            assert(pv.take(i + 1).last() == (pairs@[i as int].0@, pairs@[i as int].1@));
            let old_path = &pairs[i].0;
            let new_path = &pairs[i].1;
            if *old_path != *new_path {
                let slug = match extract_image_slug(old_path.as_str()) {
                    Some(s) => s,
                    None => {
                        proof {
                            lemma_renames_prefix_fails(pv, self.output@, i + 1);
                        }
                        return Err(ManagerError::AssetWithoutSlug);
                    },
                };
                let rel_old = relative_path(old_path.as_str(), self.output.as_str());
                let rel_new = relative_path(new_path.as_str(), self.output.as_str());
                match (rel_old, rel_new) {
                    (Some(a), Some(b)) => {
                        let ghost before = renames.deep_view();
                        renames.push((slug, a, b));
                        assert(renames.deep_view() =~= before.push((slug@, a@, b@)));
                        let ghost dbefore = deletions.deep_view();
                        deletions.push(old_path.clone());
                        assert(deletions.deep_view() =~= dbefore.push(old_path@));
                    },
                    _ => {
                        proof {
                            lemma_renames_prefix_fails(pv, self.output@, i + 1);
                        }
                        return Err(ManagerError::OutsideOutput);
                    },
                }
            }
            i += 1;
        }
        assert(pairs.deep_view().take(i as int) =~= pairs.deep_view());
        Ok(ConversionPlan { renames, deletions })
    }

    /// The image renames of one document's slug, as (old, new) pairs.
    pub fn renames_for_slug(renames: &Vec<(String, String, String)>, slug: &str) -> (r: Vec<(String, String)>)
        ensures
            r.deep_view() == slug_renames(renames.deep_view(), slug@),
    {
        let s = slug.to_owned();
        let mut r: Vec<(String, String)> = Vec::new();
        let mut i: usize = 0;
        assert(renames.deep_view().take(0) =~= Seq::<(Seq<char>, Seq<char>, Seq<char>)>::empty());
        while i < renames.len()
            invariant
                i <= renames@.len(),
                s@ == slug@,
                r.deep_view() == slug_renames(renames.deep_view().take(i as int), slug@),
            decreases renames.len() - i,
        {
            let ghost rv = renames.deep_view();
            assert(rv.take(i + 1).drop_last() =~= rv.take(i as int));
            assert(rv.take(i + 1).last() == (renames@[i as int].0@, renames@[i as int].1@, renames@[i as int].2@));
            if renames[i].0 == s {
                let ghost before = r.deep_view();
                let e = (renames[i].1.clone(), renames[i].2.clone());
                r.push(e);
                assert(r.deep_view() =~= before.push((e.0@, e.1@)));
            }
            i += 1;
        }
        assert(renames.deep_view().take(i as int) =~= renames.deep_view());
        r
    }
}

/// The (old, new) renames of slug `slug`, in order.
pub open spec fn slug_renames(renames: Seq<(Seq<char>, Seq<char>, Seq<char>)>, slug: Seq<char>) -> Seq<(Seq<char>, Seq<char>)>
    decreases renames.len(),
{
    if renames.len() == 0 {
        Seq::empty()
    } else if renames.last().0 == slug {
        slug_renames(renames.drop_last(), slug).push((renames.last().1, renames.last().2))
    } else {
        slug_renames(renames.drop_last(), slug)
    }
}

proof fn lemma_renames_prefix_fails(pairs: Seq<(Seq<char>, Seq<char>)>, output: Seq<char>, i: int)
    requires
        0 <= i <= pairs.len(),
        conversion_renames(pairs.take(i), output) is Err,
    ensures
        conversion_renames(pairs, output) == conversion_renames(pairs.take(i), output),
    decreases pairs.len() - i,
{
    if i < pairs.len() {
        assert(pairs.take(i + 1).drop_last() =~= pairs.take(i));
        lemma_renames_prefix_fails(pairs, output, i + 1);
    } else {
        assert(pairs.take(i) =~= pairs);
    }
}

/// The slugs of `renames`, each once, in the order of their first rename.
pub open spec fn distinct_slugs_of(renames: Seq<(Seq<char>, Seq<char>, Seq<char>)>) -> Seq<Seq<char>>
    decreases renames.len(),
{
    if renames.len() == 0 {
        Seq::empty()
    } else {
        let prev = distinct_slugs_of(renames.drop_last());
        if prev.contains(renames.last().0) {
            prev
        } else {
            prev.push(renames.last().0)
        }
    }
}

fn contains_string(v: &Vec<String>, s: &String) -> (r: bool)
    ensures
        r == v.deep_view().contains(s@),
{
    let mut i: usize = 0;
    while i < v.len()
        invariant
            i <= v@.len(),
            forall|k: int| 0 <= k < i ==> v.deep_view()[k] != s@,
        decreases v.len() - i,
    {
        if v[i] == *s {
            assert(v.deep_view()[i as int] == s@);
            return true;
        }
        i += 1;
    }
    false
}

impl MarkdownManager {
    /// The slugs whose documents a recompression run rewrites, each once.
    pub fn distinct_slugs(renames: &Vec<(String, String, String)>) -> (r: Vec<String>)
        ensures
            r.deep_view() == distinct_slugs_of(renames.deep_view()),
    {
        let mut r: Vec<String> = Vec::new();
        let mut i: usize = 0;
        assert(renames.deep_view().take(0) =~= Seq::<(Seq<char>, Seq<char>, Seq<char>)>::empty());
        assert(r.deep_view() =~= Seq::<Seq<char>>::empty());
        while i < renames.len()
            invariant
                i <= renames@.len(),
                r.deep_view() == distinct_slugs_of(renames.deep_view().take(i as int)),
            decreases renames.len() - i,
        {
            let ghost rv = renames.deep_view();
            assert(rv.take(i + 1).drop_last() =~= rv.take(i as int));
            assert(rv.take(i + 1).last() == (renames@[i as int].0@, renames@[i as int].1@, renames@[i as int].2@));
            if !contains_string(&r, &renames[i].0) {
                let ghost before = r.deep_view();
                let slug = renames[i].0.clone();
                r.push(slug);
                assert(r.deep_view() =~= before.push(slug@));
            }
            i += 1;
        }
        assert(renames.deep_view().take(i as int) =~= renames.deep_view());
        r
    }
}

} // verus!
