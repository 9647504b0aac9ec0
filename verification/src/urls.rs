//! Absolute resource URLs and scheme classification.
//!
//! A [`ResourceUrl`] holds the textual form of an absolute,
//! scheme-qualified URL. Two URLs denote the same resource exactly when
//! their texts are equal; no canonicalization happens here beyond what
//! URL-join itself produces. Relative references are resolved against a
//! base URL through [`join_url`], which delegates to the `url` crate.

use vstd::prelude::*;

verus! {

/// An absolute, scheme-qualified URL, kept as its textual form.
#[derive(Clone, Debug, PartialEq)]
pub struct ResourceUrl {
    pub text: String,
}

impl View for ResourceUrl {
    type V = Seq<char>;

    open spec fn view(&self) -> Seq<char> {
        self.text@
    }
}

impl ResourceUrl {
    /// Wraps a URL string. The text is taken as-is; resolution and
    /// normalization are the caller's concern (or [`join_url`]'s).
    pub fn new(text: String) -> (r: ResourceUrl)
        ensures
            r@ == text@,
    {
        ResourceUrl { text }
    }

    /// An owned copy of this URL.
    pub fn duplicate(&self) -> (r: ResourceUrl)
        ensures
            r == *self,
    {
        ResourceUrl { text: self.text.clone() }
    }

    /// The string slice of this URL's text.
    pub fn as_text(&self) -> (s: &str)
        ensures
            s@ == self@,
    {
        self.text.as_str()
    }
}

/// The transport class a URL belongs to.
#[derive(PartialEq, Eq, Structural, Clone, Copy, Debug)]
pub enum Scheme {
    File,
    Http,
    Https,
    Other,
}

/// `p` is a prefix of `s`.
pub open spec fn is_prefix(s: Seq<char>, p: Seq<char>) -> bool {
    p.len() <= s.len() && s.subrange(0, p.len() as int) == p
}

/// The ASCII lower-case counterpart of a character.
pub open spec fn lower_char(c: char) -> char {
    if 'A' <= c && c <= 'Z' {
        (((c as u8) + 32) as char)
    } else {
        c
    }
}

/// A character sequence with every ASCII letter lowered.
pub open spec fn lower_seq(s: Seq<char>) -> Seq<char> {
    s.map_values(|c: char| lower_char(c))
}

/// The ASCII lower-case counterpart of a character.
pub fn lower_char_exec(c: char) -> (r: char)
    ensures
        r == lower_char(c),
{
    if 'A' <= c && c <= 'Z' {
        ((c as u8) + 32) as char
    } else {
        c
    }
}

/// The scheme class of a URL text, read off its prefix, ASCII
/// case-insensitively: URL schemes compare caseless, and the `url` crate
/// serializes them in lower case.
pub open spec fn scheme_of(s: Seq<char>) -> Scheme {
    if is_prefix(lower_seq(s), "file:"@) {
        Scheme::File
    } else if is_prefix(lower_seq(s), "http:"@) {
        Scheme::Http
    } else if is_prefix(lower_seq(s), "https:"@) {
        Scheme::Https
    } else {
        Scheme::Other
    }
}

/// `b == true` exactly when `s`, lowered, starts with `p`.
pub fn starts_with_lower(s: &str, p: &str) -> (b: bool)
    ensures
        b == is_prefix(lower_seq(s@), p@),
{
    let n: usize = p.unicode_len();
    let m: usize = s.unicode_len();
    proof {
        assert(lower_seq(s@).len() == s@.len());
    }
    if n > m {
        assert(!is_prefix(lower_seq(s@), p@));
        return false;
    }
    let mut i: usize = 0;
    while i < n
        invariant
            0 <= i <= n,
            n == p@.len(),
            m == s@.len(),
            n <= m,
            forall|k: int| 0 <= k < i ==> lower_char(s@[k]) == p@[k],
        decreases n - i,
    {
        let c = lower_char_exec(s.get_char(i));
        if c != p.get_char(i) {
            proof {
                assert(lower_seq(s@).subrange(0, n as int)[i as int] != p@[i as int]);
                assert(!is_prefix(lower_seq(s@), p@));
            }
            return false;
        }
        i += 1;
    }
    proof {
        assert(lower_seq(s@).subrange(0, n as int) =~= p@);
    }
    true
}

/// `r == true` exactly when the two string slices spell the same text.
pub fn str_eq(a: &str, b: &str) -> (r: bool)
    ensures
        r == (a@ == b@),
{
    let sa = a.to_owned();
    let sb = b.to_owned();
    sa == sb
}

/// Classifies a URL by its scheme prefix.
pub fn classify(url: &ResourceUrl) -> (s: Scheme)
    ensures
        s == scheme_of(url@),
{
    if starts_with_lower(url.as_text(), "file:") {
        Scheme::File
    } else if starts_with_lower(url.as_text(), "http:") {
        Scheme::Http
    } else if starts_with_lower(url.as_text(), "https:") {
        Scheme::Https
    } else {
        Scheme::Other
    }
}

/// The serialization of resolving the reference `rel` against the URL
/// written `base`, when both steps of the `url` crate's resolution
/// (parsing the base, then joining) succeed. Resolution is a function of
/// the two strings alone.
pub uninterp spec fn url_join(base: Seq<char>, rel: Seq<char>) -> Option<Seq<char>>;

/// Resolves a (possibly relative) reference against a base URL.
///
/// Relies on `url::Url::parse` and `url::Url::join`: parsing the base's
/// text and joining `rel` against it resolve per the WHATWG URL standard,
/// deterministically from the two strings; `url::Url::as_str` is the
/// resolved URL's serialization.
#[verifier::external_body]
pub fn join_url(base: &ResourceUrl, rel: &str) -> (r: Option<ResourceUrl>)
    ensures
        match r {
            Some(u) => url_join(base@, rel@) == Some(u@),
            None => url_join(base@, rel@) is None,
        },
{
    match url::Url::parse(base.text.as_str()) {
        Ok(b) => match b.join(rel) {
            Ok(j) => Some(ResourceUrl { text: String::from(j.as_str()) }),
            Err(_) => None,
        },
        Err(_) => None,
    }
}

} // verus!
