use vstd::prelude::*;

use crate::config::{decimal, decimal_digits};

verus! {

/// Longest accepted target URL, in characters.
pub const MAX_URL_LEN: usize = 2048;

pub const MSG_EMPTY: &'static str = "URL cannot be empty";

pub const MSG_SCHEME: &'static str = "URL must start with http:// or https://";

pub const MSG_TOO_LONG: &'static str = "URL is too long (max 2048 characters)";

pub const HTTP_PREFIX: &'static str = "http://";

pub const HTTPS_PREFIX: &'static str = "https://";

/// A stored mapping from a short code to its target URL.
/// `created_at` is the insertion time in microseconds since the Unix epoch.
pub struct Url {
    pub id: i64,
    pub short_code: String,
    pub original_url: String,
    pub clicks: i64,
    pub created_at: i64,
}

/// The mathematical value of a `Url`.
pub struct UrlView {
    pub id: i64,
    pub short_code: Seq<char>,
    pub original_url: Seq<char>,
    pub clicks: i64,
    pub created_at: i64,
}

impl View for Url {
    type V = UrlView;

    open spec fn view(&self) -> UrlView {
        UrlView {
            id: self.id,
            short_code: self.short_code@,
            original_url: self.original_url@,
            clicks: self.clicks,
            created_at: self.created_at,
        }
    }
}

/// The value of an optional record.
pub open spec fn opt_view(o: Option<Url>) -> Option<UrlView> {
    match o {
        Some(u) => Some(u@),
        None => None,
    }
}

impl Url {
    /// A copy of this record.
    pub fn duplicate(&self) -> (r: Url)
        ensures
            r@ == self@,
    {
        Url {
            id: self.id,
            short_code: self.short_code.clone(),
            original_url: self.original_url.clone(),
            clicks: self.clicks,
            created_at: self.created_at,
        }
    }
}

/// Unicode white space, as `char::is_whitespace` classifies it.
pub open spec fn is_white_space(c: char) -> bool {
    let u = c as u32;
    (9 <= u && u <= 13) || u == 32 || u == 0x85 || u == 0xA0 || u == 0x1680 || (0x2000 <= u
        && u <= 0x200A) || u == 0x2028 || u == 0x2029 || u == 0x202F || u == 0x205F || u
        == 0x3000
}

/// Number of white-space characters at the start of `s`.
pub open spec fn leading_ws(s: Seq<char>) -> nat
    decreases s.len(),
{
    if s.len() > 0 && is_white_space(s[0]) {
        1 + leading_ws(s.drop_first())
    } else {
        0
    }
}

/// Number of white-space characters at the end of `s`.
pub open spec fn trailing_ws(s: Seq<char>) -> nat
    decreases s.len(),
{
    if s.len() > 0 && is_white_space(s.last()) {
        1 + trailing_ws(s.drop_last())
    } else {
        0
    }
}

/// `s` without its leading and trailing white space.
pub open spec fn trim_spec(s: Seq<char>) -> Seq<char> {
    let a = s.subrange(leading_ws(s) as int, s.len() as int);
    a.subrange(0, a.len() - trailing_ws(a))
}

pub open spec fn has_prefix(s: Seq<char>, p: Seq<char>) -> bool {
    p.len() <= s.len() && s.subrange(0, p.len() as int) == p
}

/// The outcome of validating an already trimmed target URL.
pub open spec fn validation_result(t: Seq<char>) -> Result<(), &'static str> {
    if t.len() == 0 {
        Err(MSG_EMPTY)
    } else if !has_prefix(t, HTTP_PREFIX@) && !has_prefix(t, HTTPS_PREFIX@) {
        Err(MSG_SCHEME)
    } else if t.len() > MAX_URL_LEN {
        Err(MSG_TOO_LONG)
    } else {
        Ok(())
    }
}

pub fn is_white_space_char(c: char) -> (r: bool)
    ensures
        r == is_white_space(c),
{
    let u = c as u32;
    (9 <= u && u <= 13) || u == 32 || u == 0x85 || u == 0xA0 || u == 0x1680 || (0x2000 <= u
        && u <= 0x200A) || u == 0x2028 || u == 0x2029 || u == 0x202F || u == 0x205F || u
        == 0x3000
}

/// `s` without its leading and trailing white space.
pub fn trim(s: &str) -> (r: &str)
    ensures
        r@ == trim_spec(s@),
{
    let n = s.unicode_len();
    let mut i: usize = 0;
    assert(s@.subrange(0, n as int) =~= s@);
    while i < n && is_white_space_char(s.get_char(i))
        invariant
            i <= n,
            n == s@.len(),
            leading_ws(s@) == i + leading_ws(s@.subrange(i as int, n as int)),
        decreases n - i,
    {
        assert(s@.subrange(i as int, n as int).drop_first() =~= s@.subrange(i + 1, n as int));
        i = i + 1;
    }
    let ghost a = s@.subrange(i as int, n as int);
    let mut j: usize = n;
    while j > i && is_white_space_char(s.get_char(j - 1))
        invariant
            i <= j <= n,
            n == s@.len(),
            leading_ws(s@) == i,
            a == s@.subrange(i as int, n as int),
            trailing_ws(a) == (n - j) + trailing_ws(s@.subrange(i as int, j as int)),
        decreases j,
    {
        assert(s@.subrange(i as int, j as int).drop_last() =~= s@.subrange(i as int, j - 1));
        j = j - 1;
    }
    assert(a.subrange(0, a.len() - trailing_ws(a)) =~= s@.subrange(i as int, j as int));
    s.substring_char(i, j)
}

/// Whether `s` starts with `p`.
pub fn starts_with(s: &str, p: &str) -> (r: bool)
    ensures
        r == has_prefix(s@, p@),
{
    let n = s.unicode_len();
    let m = p.unicode_len();
    if m > n {
        return false;
    }
    let mut k: usize = 0;
    while k < m
        invariant
            k <= m <= n,
            n == s@.len(),
            m == p@.len(),
            s@.subrange(0, k as int) == p@.subrange(0, k as int),
        decreases m - k,
    {
        if s.get_char(k) != p.get_char(k) {
            assert(s@.subrange(0, m as int)[k as int] != p@[k as int]);
            return false;
        }
        assert(s@.subrange(0, k + 1) =~= s@.subrange(0, k as int).push(s@[k as int]));
        assert(p@.subrange(0, k + 1) =~= p@.subrange(0, k as int).push(p@[k as int]));
        k = k + 1;
    }
    assert(p@.subrange(0, m as int) =~= p@);
    true
}

/// A request to shorten `url`.
pub struct CreateUrlRequest {
    pub url: String,
}

impl CreateUrlRequest {
    /// Checks the target URL after trimming white space: it must be non-empty,
    /// start with `http://` or `https://`, and hold at most 2048 characters.
    pub fn validate(&self) -> (r: Result<(), &'static str>)
        ensures
            r == validation_result(trim_spec(self.url@)),
    {
        let url = trim(self.url.as_str());
        if url.unicode_len() == 0 {
            return Err(MSG_EMPTY);
        }
        if !starts_with(url, HTTP_PREFIX) && !starts_with(url, HTTPS_PREFIX) {
            return Err(MSG_SCHEME);
        }
        if url.unicode_len() > MAX_URL_LEN {
            return Err(MSG_TOO_LONG);
        }
        Ok(())
    }
}

/// Scheme and host of the short links handed back to clients.
pub const SHORT_URL_BASE: &'static str = "http://localhost:";

/// The reply to a successful creation.
pub struct CreateUrlResponse {
    pub id: i64,
    pub short_code: String,
    pub short_url: String,
    pub original_url: String,
}

impl CreateUrlResponse {
    /// The reply for record `url`, with a short link on port `port`.
    pub fn from_record(url: &Url, port: u16) -> (r: CreateUrlResponse)
        ensures
            r.id == url.id,
            r.short_code@ == url.short_code@,
            r.original_url@ == url.original_url@,
            r.short_url@ == SHORT_URL_BASE@ + decimal_digits(port as nat) + "/"@
                + url.short_code@,
    {
        let mut short_url = SHORT_URL_BASE.to_owned();
        short_url.append(decimal(port).as_str());
        short_url.append("/");
        short_url.append(url.short_code.as_str());
        CreateUrlResponse {
            id: url.id,
            short_code: url.short_code.clone(),
            short_url,
            original_url: url.original_url.clone(),
        }
    }
}

/// A page of records with its length.
pub struct UrlListResponse {
    pub urls: Vec<Url>,
    pub total: usize,
}

impl UrlListResponse {
    pub fn new(urls: Vec<Url>) -> (r: UrlListResponse)
        ensures
            r.urls@ == urls@,
            r.total == urls@.len(),
    {
        let total = urls.len();
        UrlListResponse { urls, total }
    }
}

} // verus!
