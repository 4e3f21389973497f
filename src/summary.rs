//! Clean-up of generated summary text: blank lines go, every kept line is
//! trimmed, and the result is run through the markdown formatter.

use vstd::prelude::*;
use crate::importer::format_markdown;
use crate::text::{chars_of, string_of};

verus! {

/// White space as `char::is_whitespace` defines it: the characters with
/// Unicode's `White_Space` property.
pub open spec fn is_space(c: char) -> bool {
    let u = c as u32;
    (9 <= u <= 13) || u == 32 || u == 0x85 || u == 0xA0 || u == 0x1680 || (0x2000 <= u <= 0x200A)
        || u == 0x2028 || u == 0x2029 || u == 0x202F || u == 0x205F || u == 0x3000
}

/// `s` without its leading white space.
pub open spec fn trim_start(s: Seq<char>) -> Seq<char>
    decreases s.len(),
{
    if s.len() > 0 && is_space(s[0]) {
        trim_start(s.drop_first())
    } else {
        s
    }
}

/// `s` without its trailing white space.
pub open spec fn trim_end(s: Seq<char>) -> Seq<char>
    decreases s.len(),
{
    if s.len() > 0 && is_space(s.last()) {
        trim_end(s.drop_last())
    } else {
        s
    }
}

/// `s` without white space at either end.
pub open spec fn trimmed(s: Seq<char>) -> Seq<char> {
    trim_end(trim_start(s))
}

/// The lines of `s` ended so far by a line break, and the text after the
/// last break.
pub open spec fn line_fold(s: Seq<char>) -> (Seq<Seq<char>>, Seq<char>)
    decreases s.len(),
{
    if s.len() == 0 {
        (Seq::empty(), Seq::empty())
    } else {
        let (done, cur) = line_fold(s.drop_last());
        if s.last() == '\n' {
            (done.push(cur), Seq::empty())
        } else {
            (done, cur.push(s.last()))
        }
    }
}

/// The lines of `s`, split at each line break.
pub open spec fn lines_of(s: Seq<char>) -> Seq<Seq<char>> {
    line_fold(s).0.push(line_fold(s).1)
}

/// The trimmed lines that are not empty, in order.
pub open spec fn kept_lines(lines: Seq<Seq<char>>) -> Seq<Seq<char>>
    decreases lines.len(),
{
    if lines.len() == 0 {
        Seq::empty()
    } else if trimmed(lines.last()).len() == 0 {
        kept_lines(lines.drop_last())
    } else {
        kept_lines(lines.drop_last()).push(trimmed(lines.last()))
    }
}

/// The lines joined by line breaks.
pub open spec fn joined_lines(lines: Seq<Seq<char>>) -> Seq<char>
    decreases lines.len(),
{
    if lines.len() == 0 {
        Seq::empty()
    } else if lines.len() == 1 {
        lines[0]
    } else {
        joined_lines(lines.drop_last()) + seq!['\n'] + lines.last()
    }
}

/// `text` with its blank lines removed and every other line trimmed.
pub open spec fn cleared(text: Seq<char>) -> Seq<char> {
    joined_lines(kept_lines(lines_of(text)))
}

fn is_space_exec(c: char) -> (r: bool)
    ensures
        r == is_space(c),
{
    let u = c as u32;
    (9 <= u && u <= 13) || u == 32 || u == 0x85 || u == 0xA0 || u == 0x1680 || (0x2000 <= u && u
        <= 0x200A) || u == 0x2028 || u == 0x2029 || u == 0x202F || u == 0x205F || u == 0x3000
}

proof fn lemma_trim_start_skip(s: Seq<char>, i: int)
    requires
        0 <= i < s.len(),
        is_space(s[i]),
    ensures
        trim_start(s.subrange(i, s.len() as int)) == trim_start(s.subrange(i + 1, s.len() as int)),
{
    assert(s.subrange(i, s.len() as int).drop_first() =~= s.subrange(i + 1, s.len() as int));
}

proof fn lemma_trim_end_skip(s: Seq<char>, j: int)
    requires
        0 < j <= s.len(),
        is_space(s[j - 1]),
    ensures
        trim_end(s.subrange(0, j)) == trim_end(s.subrange(0, j - 1)),
{
    assert(s.subrange(0, j).drop_last() =~= s.subrange(0, j - 1));
}

/// Appends the trimmed `line` to `out` (after a line break where `out`
/// already holds a line), unless it is empty.
fn push_kept(out: &mut Vec<char>, any: &mut bool, line: &Vec<char>)
    requires
        *old(any) <==> old(out)@.len() > 0,
    ensures
        trimmed(line@).len() == 0 ==> final(out)@ == old(out)@ && *final(any) == *old(any),
        trimmed(line@).len() > 0 ==> *final(any) && final(out)@ == if !*old(any) {
            trimmed(line@)
        } else {
            old(out)@ + seq!['\n'] + trimmed(line@)
        },
        *final(any) <==> final(out)@.len() > 0,
{
    let n = line.len();
    let mut i: usize = 0;
    assert(line@.subrange(0, n as int) =~= line@);
    while i < n && is_space_exec(line[i])
        invariant
            i <= n == line@.len(),
            trim_start(line@) == trim_start(line@.subrange(i as int, n as int)),
        decreases n - i,
    {
        proof {
            lemma_trim_start_skip(line@, i as int);
        }
        i += 1;
    }
    let ghost ts = line@.subrange(i as int, n as int);
    assert(trim_start(line@) == ts);
    let mut j: usize = n;
    assert(ts.subrange(0, (j - i) as int) =~= ts);
    while j > i && is_space_exec(line[j - 1])
        invariant
            i <= j <= n == line@.len(),
            ts == line@.subrange(i as int, n as int),
            trim_end(ts) == trim_end(ts.subrange(0, (j - i) as int)),
        decreases j,
    {
        proof {
            lemma_trim_end_skip(ts, (j - i) as int);
            assert(ts.subrange(0, (j - i - 1) as int) =~= ts.subrange(0, (j - 1 - i) as int));
        }
        j -= 1;
    }
    let ghost t = ts.subrange(0, (j - i) as int);
    proof {
        if j > i {
            assert(t.last() == line@[j - 1]);
        }
    }
    assert(trimmed(line@) == t);
    assert(t =~= line@.subrange(i as int, j as int));
    if j == i {
        return;
    }
    if *any {
        out.push('\n');
    }
    let ghost before = out@;
    let mut k = i;
    while k < j
        invariant
            i <= k <= j <= line@.len(),
            out@ == before + line@.subrange(i as int, k as int),
        decreases j - k,
    {
        out.push(line[k]);
        assert(out@ =~= before + line@.subrange(i as int, k + 1));
        k += 1;
    }
    *any = true;
}

/// Removes the blank lines of `text` and trims every other line.
pub fn clear_text(text: &str) -> (r: String)
    ensures
        r@ == cleared(text@),
{
    let cs = chars_of(text);
    let mut out: Vec<char> = Vec::new();
    let mut any = false;
    let mut cur: Vec<char> = Vec::new();
    let mut i: usize = 0;
    assert(cs@.take(0) =~= Seq::<char>::empty());
    while i < cs.len()
        invariant
            i <= cs@.len(),
            cs@ == text@,
            any <==> out@.len() > 0,
            any <==> kept_lines(line_fold(cs@.take(i as int)).0).len() > 0,
            out@ == joined_lines(kept_lines(line_fold(cs@.take(i as int)).0)),
            cur@ == line_fold(cs@.take(i as int)).1,
        decreases cs.len() - i,
    {
        let ghost pre = cs@.take(i as int);
        assert(cs@.take(i + 1).drop_last() =~= pre);
        assert(cs@.take(i + 1).last() == cs@[i as int]);
        let c = cs[i];
        if c == '\n' {
            let ghost done = line_fold(pre).0;
            let ghost old_out = out@;
            push_kept(&mut out, &mut any, &cur);
            proof {
                let d2 = done.push(cur@);
                assert(d2.drop_last() =~= done);
                if trimmed(cur@).len() > 0 {
                    let k2 = kept_lines(done).push(trimmed(cur@));
                    assert(k2.drop_last() =~= kept_lines(done));
                }
            }
            cur = Vec::new();
            assert(cur@ =~= Seq::<char>::empty());
        } else {
            cur.push(c);
        }
        i += 1;
    }
    assert(cs@.take(i as int) =~= cs@);
    let ghost done = line_fold(cs@).0;
    push_kept(&mut out, &mut any, &cur);
    proof {
        let d2 = done.push(cur@);
        assert(d2.drop_last() =~= done);
        if trimmed(cur@).len() > 0 {
            let k2 = kept_lines(done).push(trimmed(cur@));
            assert(k2.drop_last() =~= kept_lines(done));
        }
    }
    string_of(out.as_slice(), 0, out.len())
}

/// Clean-up of a generated summary: blank lines removed and lines trimmed
/// (exactly as `clear_text` states), then run through the markdown
/// formatter, of whose output nothing is stated.
pub fn standardize_text(text: &str) -> String {
    let cleared_text = clear_text(text);
    format_markdown(cleared_text.as_str())
}

} // verus!
