//! Browser sessions: cookie headers, saved sessions and their expiry, and the text of a
//! rendered page.
use vstd::prelude::*;
use crate::text::{chars_of, owned, push_char, push_str, string_from_chars, trim, trim_string};

verus! {

/// `name=value` for one cookie.
pub open spec fn cookie_pair(c: (String, String)) -> Seq<char> {
    c.0@ + seq!['='] + c.1@
}

/// The cookies as an HTTP `Cookie` header: each `name=value`, joined by `; `.
pub open spec fn cookie_header_spec(cookies: Seq<(String, String)>) -> Seq<char>
    decreases cookies.len(),
{
    if cookies.len() == 0 {
        Seq::empty()
    } else if cookies.len() == 1 {
        cookie_pair(cookies[0])
    } else {
        cookie_header_spec(cookies.drop_last()) + seq![';', ' '] + cookie_pair(cookies.last())
    }
}

/// Converts cookie pairs to an HTTP `Cookie` header value.
pub fn cookies_to_header(cookies: &[(String, String)]) -> (res: String)
    ensures
        res@ == cookie_header_spec(cookies@),
{
    let mut res = String::new();
    let mut i: usize = 0;
    while i < cookies.len()
        invariant
            i <= cookies@.len(),
            res@ == cookie_header_spec(cookies@.take(i as int)),
        decreases cookies@.len() - i,
    {
        let ghost before = res@;
        if i > 0 {
            push_str(&mut res, "; ");
            proof {
                reveal_strlit("; ");
            }
        }
        let (name, value) = &cookies[i];
        push_str(&mut res, name.as_str());
        push_char(&mut res, '=');
        push_str(&mut res, value.as_str());
        assert(cookies@.take(i + 1).drop_last() =~= cookies@.take(i as int));
        assert(cookies@.take(i + 1).last() == cookies@[i as int]);
        assert(res@ =~= cookie_header_spec(cookies@.take(i + 1)));
        i = i + 1;
    }
    assert(cookies@.take(cookies@.len() as int) =~= cookies@);
    res
}

/// The characters of `s` outside `<...>` tags, given whether the scan starts inside a tag.
pub open spec fn outside_tags(s: Seq<char>, in_tag: bool) -> Seq<char>
    decreases s.len(),
{
    if s.len() == 0 {
        Seq::empty()
    } else if s[0] == '<' {
        outside_tags(s.skip(1), true)
    } else if s[0] == '>' {
        outside_tags(s.skip(1), false)
    } else if in_tag {
        outside_tags(s.skip(1), true)
    } else {
        seq![s[0]] + outside_tags(s.skip(1), false)
    }
}

/// The text of an HTML fragment: everything outside tags, trimmed.
pub open spec fn strip_html_tags_spec(html: Seq<char>) -> Seq<char> {
    trim(outside_tags(html, false))
}

/// Strips HTML tags from a string (a simple scan, for telling whether a page has content).
pub fn strip_html_tags(html: &str) -> (res: String)
    ensures
        res@ == strip_html_tags_spec(html@),
{
    let v = chars_of(html);
    let mut out: Vec<char> = Vec::new();
    let mut in_tag = false;
    let mut i: usize = 0;
    assert(v@.skip(0) =~= v@);
    while i < v.len()
        invariant
            i <= v@.len(),
            out@ + outside_tags(v@.skip(i as int), in_tag) == outside_tags(v@, false),
        decreases v@.len() - i,
    {
        let ch = v[i];
        let ghost rest = v@.skip(i as int);
        assert(rest[0] == ch);
        assert(rest.skip(1) =~= v@.skip(i + 1));
        if ch == '<' {
            in_tag = true;
        } else if ch == '>' {
            in_tag = false;
        } else if !in_tag {
            out.push(ch);
        }
        i = i + 1;
        assert(out@ + outside_tags(v@.skip(i as int), in_tag) =~= outside_tags(v@, false));
    }
    assert(v@.skip(i as int) =~= Seq::<char>::empty());
    assert(out@ + outside_tags(v@.skip(i as int), in_tag) =~= out@);
    let s = string_from_chars(&out);
    trim_string(s.as_str())
}

/// The host of a URL with its port, e.g. `localhost:8080` for `http://localhost:8080/page`.
pub fn extract_domain(url: &str) -> (res: String)
    ensures
        res@ == crate::web::authority_of(url@),
{
    crate::web::url_authority(url)
}

/// How long a saved session stays usable, in seconds.
pub const SESSION_EXPIRY_SECS: u64 = 86400;

/// A saved session with cookies.
#[derive(Debug, Clone)]
pub struct Session {
    pub domain: String,
    pub cookies: Vec<(String, String)>,
    pub saved_at: u64,
}

/// The file key of a domain's session: the first 16 hexadecimal digits of its SHA-256.
pub fn session_key(domain: &str) -> (res: String)
    ensures
        res@ == crate::hashing::short_hash(domain@),
{
    crate::hashing::short_key(domain)
}

/// A session saved at `saved_at` is expired at `now` when more than a day has passed.
pub fn session_expired(now: u64, saved_at: u64) -> (res: bool)
    ensures
        res == (now > saved_at && now - saved_at > SESSION_EXPIRY_SECS),
{
    now.saturating_sub(saved_at) > SESSION_EXPIRY_SECS
}

/// The cookies of a saved session that is still fresh at `now`.
pub fn fresh_session_cookies(session: Session, now: u64) -> (res: Option<Vec<(String, String)>>)
    ensures
        session_expired_spec(now, session.saved_at) ==> res is None,
        !session_expired_spec(now, session.saved_at) ==> res == Some(session.cookies),
{
    if session_expired(now, session.saved_at) {
        None
    } else {
        Some(session.cookies)
    }
}

/// A session saved at `saved_at` is expired at `now`.
pub open spec fn session_expired_spec(now: u64, saved_at: u64) -> bool {
    now > saved_at && now - saved_at > SESSION_EXPIRY_SECS
}

/// A session for `domain` holding `cookies`, saved at `now`.
pub fn new_session(domain: &str, cookies: &[(String, String)], now: u64) -> (res: Session)
    ensures
        res.domain@ == domain@,
        res.cookies@.len() == cookies@.len(),
        forall|i: int| 0 <= i < cookies@.len() ==> #[trigger] res.cookies@[i].0@ == cookies@[i].0@
            && res.cookies@[i].1@ == cookies@[i].1@,
        res.saved_at == now,
{
    let mut copied: Vec<(String, String)> = Vec::new();
    let mut i: usize = 0;
    while i < cookies.len()
        invariant
            i <= cookies@.len(),
            copied@.len() == i,
            forall|k: int| 0 <= k < i ==> #[trigger] copied@[k].0@ == cookies@[k].0@ && copied@[k].1@
                == cookies@[k].1@,
        decreases cookies@.len() - i,
    {
        let (name, value) = &cookies[i];
        copied.push((owned(name.as_str()), owned(value.as_str())));
        i = i + 1;
    }
    Session { domain: owned(domain), cookies: copied, saved_at: now }
}

} // verus!
