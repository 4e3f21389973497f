//! Character-level text operations with exact specifications.

use vstd::prelude::*;

verus! {

/// `pat` occurs in `s` starting at position `i`.
pub open spec fn occurs_at(s: Seq<char>, pat: Seq<char>, i: int) -> bool {
    0 <= i && i + pat.len() <= s.len() && s.subrange(i, i + pat.len()) == pat
}

/// The first position at or after `i` where `pat` occurs in `s`.
pub open spec fn find_from(s: Seq<char>, pat: Seq<char>, i: int) -> Option<int>
    decreases s.len() + 1 - i,
{
    if i < 0 || i + pat.len() > s.len() {
        None
    } else if occurs_at(s, pat, i) {
        Some(i)
    } else {
        find_from(s, pat, i + 1)
    }
}

/// What `find_from` returns: the least position at or after `i` where `pat`
/// occurs, or nothing where it occurs at no such position.
pub proof fn lemma_find_from(s: Seq<char>, pat: Seq<char>, i: int)
    requires
        0 <= i,
    ensures
        match find_from(s, pat, i) {
            Some(j) => i <= j && occurs_at(s, pat, j) && forall|k: int|
                i <= k < j ==> !occurs_at(s, pat, k),
            None => forall|k: int| i <= k ==> !occurs_at(s, pat, k),
        },
    decreases s.len() + 1 - i,
{
    if i + pat.len() > s.len() {
    } else if occurs_at(s, pat, i) {
    } else {
        lemma_find_from(s, pat, i + 1);
    }
}

/// `s` with its first occurrence of `pat` replaced by `rep`; `s` itself
/// where `pat` does not occur.
pub open spec fn replace_first(s: Seq<char>, pat: Seq<char>, rep: Seq<char>) -> Seq<char> {
    match find_from(s, pat, 0) {
        Some(i) => s.subrange(0, i) + rep + s.subrange(i + pat.len(), s.len() as int),
        None => s,
    }
}

/// The characters of a string, in order.
pub(crate) fn chars_of(s: &str) -> (r: Vec<char>)
    ensures
        r@ == s@,
{
    let mut r: Vec<char> = Vec::new();
    let ghost chars = s@;
    for c in it: s.chars()
        invariant
            it.seq() == chars,
            r@ == chars.take(it.index() as int),
    {
        r.push(c);
        assert(r@ =~= chars.take(it.index() + 1));
    }
    assert(r@ =~= chars);
    r
}

/// Relies on `FromIterator<&char>` for `String`: the string holds exactly
/// the characters `cs[from..to]`, in order.
#[verifier::external_body]
pub(crate) fn string_of(cs: &[char], from: usize, to: usize) -> (r: String)
    requires
        from <= to <= cs@.len(),
    ensures
        r@ == cs@.subrange(from as int, to as int),
{
    cs[from..to].iter().collect()
}

/// Whether `pat` occurs in `s` at position `i`.
pub fn occurs_at_exec(s: &[char], pat: &[char], i: usize) -> (r: bool)
    ensures
        r == occurs_at(s@, pat@, i as int),
{
    if pat.len() > s.len() || i > s.len() - pat.len() {
        return false;
    }
    let mut j: usize = 0;
    while j < pat.len()
        invariant
            i + pat.len() <= s.len(),
            j <= pat.len(),
            forall|k: int| 0 <= k < j ==> s@[i + k] == pat@[k],
        decreases pat.len() - j,
    {
        if s[i + j] != pat[j] {
            assert(s@.subrange(i as int, i + pat.len())[j as int] != pat@[j as int]);
            return false;
        }
        j += 1;
    }
    assert(s@.subrange(i as int, i + pat.len()) =~= pat@);
    true
}

/// The first position at or after `from` where `pat` occurs in `s`.
pub fn find_exec(s: &[char], pat: &[char], from: usize) -> (r: Option<usize>)
    ensures
        match r {
            Some(i) => find_from(s@, pat@, from as int) == Some(i as int) && i + pat@.len()
                <= s@.len(),
            None => find_from(s@, pat@, from as int) is None,
        },
{
    let mut i = from;
    while pat.len() <= s.len() && i <= s.len() - pat.len()
        invariant
            from <= i,
            find_from(s@, pat@, from as int) == find_from(s@, pat@, i as int),
        decreases s.len() + 1 - i,
    {
        if occurs_at_exec(s, pat, i) {
            return Some(i);
        }
        if i == s.len() - pat.len() {
            proof {
                lemma_find_from(s@, pat@, i + 1);
            }
            return None;
        }
        i += 1;
    }
    proof {
        lemma_find_from(s@, pat@, i as int);
    }
    None
}

/// Replaces the first occurrence of `pat` in `s` by `rep`.
pub fn replace_first_exec(s: &str, pat: &str, rep: &str) -> (r: String)
    ensures
        r@ == replace_first(s@, pat@, rep@),
{
    let cs = chars_of(s);
    let ps = chars_of(pat);
    let n = cs.len();
    let found = find_exec(cs.as_slice(), ps.as_slice(), 0);
    match found {
        Some(i) => {
            let end = i + ps.len();
            let mut out = string_of(cs.as_slice(), 0, i);
            out.append(rep);
            let tail = string_of(cs.as_slice(), end, n);
            out.append(tail.as_str());
            assert(out@ =~= replace_first(s@, pat@, rep@));
            out
        },
        None => s.to_owned(),
    }
}

/// `s` cut at the first two occurrences of `sep`, as `str::splitn(3, sep)`
/// cuts it: one, two or three pieces.
pub open spec fn splitn3(s: Seq<char>, sep: Seq<char>) -> Seq<Seq<char>> {
    match find_from(s, sep, 0) {
        None => seq![s],
        Some(i) => {
            let rest = s.subrange(i + sep.len(), s.len() as int);
            match find_from(rest, sep, 0) {
                None => seq![s.subrange(0, i), rest],
                Some(j) => seq![
                    s.subrange(0, i),
                    rest.subrange(0, j),
                    rest.subrange(j + sep.len(), rest.len() as int),
                ],
            }
        },
    }
}

/// `str::splitn(3, sep)` for a separator that is not empty.
pub fn splitn3_exec(s: &str, sep: &str) -> (r: Vec<String>)
    requires
        sep@.len() > 0,
    ensures
        r.deep_view() == splitn3(s@, sep@),
{
    let cs = chars_of(s);
    let ds = chars_of(sep);
    let n = cs.len();
    let i = match find_exec(cs.as_slice(), ds.as_slice(), 0) {
        Some(i) => i,
        None => {
            let r = vec![s.to_owned()];
            assert(r.deep_view() =~= splitn3(s@, sep@));
            return r;
        },
    };
    let first = string_of(cs.as_slice(), 0, i);
    let rest = string_of(cs.as_slice(), i + ds.len(), n);
    let rs = chars_of(rest.as_str());
    let rn = rs.len();
    match find_exec(rs.as_slice(), ds.as_slice(), 0) {
        Some(j) => {
            let second = string_of(rs.as_slice(), 0, j);
            let third = string_of(rs.as_slice(), j + ds.len(), rn);
            let r = vec![first, second, third];
            assert(r.deep_view() =~= splitn3(s@, sep@));
            r
        },
        None => {
            let r = vec![first, rest];
            assert(r.deep_view() =~= splitn3(s@, sep@));
            r
        },
    }
}

/// Whether `s` begins with `prefix`.
pub fn starts_with(s: &str, prefix: &str) -> (r: bool)
    ensures
        r == occurs_at(s@, prefix@, 0),
{
    let cs = chars_of(s);
    let ps = chars_of(prefix);
    occurs_at_exec(cs.as_slice(), ps.as_slice(), 0)
}

} // verus!
