//! Small values shared with the site that serves the corpus: interface
//! languages, tag counts, the identity shown to a visitor, and the
//! service's secrets.

use vstd::prelude::*;

verus! {

/// An interface language.
#[derive(PartialEq, Eq, Structural, Clone, Copy, Debug)]
pub enum Lang {
    ZhCN,
    EnUS,
    JaJP,
    KoKR,
}

/// The language tag of a language.
pub open spec fn lang_code(l: Lang) -> Seq<char> {
    match l {
        Lang::ZhCN => "zh-CN"@,
        Lang::EnUS => "en-US"@,
        Lang::JaJP => "ja-JP"@,
        Lang::KoKR => "ko-KR"@,
    }
}

impl Lang {
    /// The language tag, such as `zh-CN`.
    pub fn to_string(&self) -> (r: String)
        ensures
            r@ == lang_code(*self),
    {
        match self {
            Lang::ZhCN => String::from_str("zh-CN"),
            Lang::EnUS => String::from_str("en-US"),
            Lang::JaJP => String::from_str("ja-JP"),
            Lang::KoKR => String::from_str("ko-KR"),
        }
    }

    /// The language with tag `value`; an error for any other tag.
    pub fn try_from(value: &str) -> (r: Result<Lang, String>)
        ensures
            match r {
                Ok(l) => lang_code(l) == value@,
                Err(_) => forall|l: Lang| lang_code(l) != value@,
            },
    {
        let v = value.to_owned();
        let langs = [Lang::ZhCN, Lang::EnUS, Lang::JaJP, Lang::KoKR];
        let mut i: usize = 0;
        while i < 4
            invariant
                v@ == value@,
                langs@ == seq![Lang::ZhCN, Lang::EnUS, Lang::JaJP, Lang::KoKR],
                forall|k: int| 0 <= k < i ==> lang_code(langs@[k]) != value@,
            decreases 4 - i,
        {
            let code = langs[i].to_string();
            if code == v {
                return Ok(langs[i]);
            }
            i += 1;
        }
        assert forall|l: Lang| lang_code(l) != value@ by {
            match l {
                Lang::ZhCN => assert(lang_code(langs@[0]) != value@),
                Lang::EnUS => assert(lang_code(langs@[1]) != value@),
                Lang::JaJP => assert(lang_code(langs@[2]) != value@),
                Lang::KoKR => assert(lang_code(langs@[3]) != value@),
            }
        }
        Err(String::from_str("Unsupported language code"))
    }
}

/// A tag and the number of articles that carry it.
pub struct TagWithCount {
    pub tag_name: String,
    pub count: i32,
}

/// The identity shown to a visitor.
pub struct IdentityInfo {
    pub id: i32,
    pub avatar_url: Option<String>,
    pub display_name: String,
    pub is_anonymous: bool,
    pub is_admin: bool,
}

/// The name shown for a visitor who is not signed in.
pub open spec fn anonymous_name() -> Seq<char> {
    "匿名用户"@
}

impl IdentityInfo {
    /// A signed-in member with their own name and avatar.
    pub fn member(id: i32, avatar_url: String, display_name: String, is_admin: bool) -> (r: IdentityInfo)
        ensures
            r.id == id,
            r.avatar_url == Some(avatar_url),
            r.display_name == display_name,
            !r.is_anonymous,
            r.is_admin == is_admin,
    {
        IdentityInfo { id, avatar_url: Some(avatar_url), display_name, is_anonymous: false, is_admin }
    }

    /// An anonymous visitor known by a UUID (in its 32-digit simple form):
    /// shown under the anonymous name followed by the UUID's last six digits.
    pub fn anonymous(id: i32, uuid_simple: &str) -> (r: IdentityInfo)
        requires
            uuid_simple@.len() == 32,
        ensures
            r.id == id,
            r.avatar_url is None,
            r.display_name@ == anonymous_name() + "-"@ + uuid_simple@.subrange(26, 32),
            r.is_anonymous,
            !r.is_admin,
    {
        let mut name = String::from_str("匿名用户-");
        let tail = uuid_simple.substring_char(26, 32);
        name.append(tail);
        proof {
            reveal_strlit("匿名用户-");
            reveal_strlit("匿名用户");
            reveal_strlit("-");
        }
        assert(name@ =~= anonymous_name() + "-"@ + uuid_simple@.subrange(26, 32));
        IdentityInfo { id, avatar_url: None, display_name: name, is_anonymous: true, is_admin: false }
    }

    /// A visitor with no identity at all.
    pub fn nobody(id: i32) -> (r: IdentityInfo)
        ensures
            r.id == id,
            r.avatar_url is None,
            r.display_name@ == anonymous_name(),
            r.is_anonymous,
            !r.is_admin,
    {
        IdentityInfo { id, avatar_url: None, display_name: String::from_str("匿名用户"), is_anonymous: true, is_admin: false }
    }
}

/// The characters a generated secret is drawn from.
pub open spec fn is_secret_char(c: char) -> bool {
    ('A' <= c <= 'Z') || ('a' <= c <= 'z') || ('0' <= c <= '9')
}

/// Relies on `rand::random_range`: a number drawn from `0..n`, which it
/// documents to panic only on an empty range.
#[verifier::external_body]
fn random_below(n: usize) -> (r: usize)
    requires
        n > 0,
    ensures
        r < n,
{
    rand::random_range(0..n)
}

/// A random string of `length` ASCII letters and digits.
pub fn random_string(length: usize) -> (r: String)
    ensures
        r@.len() == length,
        forall|i: int| 0 <= i < r@.len() ==> is_secret_char(#[trigger] r@[i]),
{
    let alphabet = "ABCDEFGHIJKLMNOPQRSTUVWXYZabcdefghijklmnopqrstuvwxyz0123456789";
    proof {
        reveal_strlit("ABCDEFGHIJKLMNOPQRSTUVWXYZabcdefghijklmnopqrstuvwxyz0123456789");
    }
    assert forall|k: int| 0 <= k < alphabet@.len() implies is_secret_char(#[trigger] alphabet@[k]) by {}
    let mut out = String::new();
    let mut i: usize = 0;
    while i < length
        invariant
            i <= length,
            out@.len() == i,
            alphabet@.len() == 62,
            forall|k: int| 0 <= k < alphabet@.len() ==> is_secret_char(#[trigger] alphabet@[k]),
            forall|k: int| 0 <= k < out@.len() ==> is_secret_char(#[trigger] out@[k]),
        decreases length - i,
    {
        let j = random_below(62);
        let piece = alphabet.substring_char(j, j + 1);
        let ghost before = out@;
        out.append(piece);
        assert(out@ =~= before + alphabet@.subrange(j as int, j + 1));
        assert(out@[i as int] == alphabet@[j as int]);
        i += 1;
    }
    out
}

/// The secrets of the service.
pub struct Config {
    pub jwt_secret: String,
    pub openai_api_key: String,
}

impl Default for Config {
    /// A fresh secret of 32 letters and digits and no API key.
    fn default() -> (r: Config)
        ensures
            r.jwt_secret@.len() == 32,
            forall|i: int| 0 <= i < r.jwt_secret@.len() ==> is_secret_char(#[trigger] r.jwt_secret@[i]),
            r.openai_api_key@.len() == 0,
    {
        Config { jwt_secret: random_string(32), openai_api_key: String::new() }
    }
}

} // verus!
