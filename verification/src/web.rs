//! Web pages: cache keys, URL utilities, image URL resolution and progress timestamps.
use vstd::prelude::*;
use crate::hashing::{short_hash, short_key};
use crate::dashboard::is_http_url;
use crate::search::{
    after_sub, before_sub, before_sub_exec, concat, find_sub, find_sub_exec, last_index_exec,
    last_index_of, lemma_find_sub_from, lemma_last_index_of, second_piece, second_piece_exec,
    sub_vec,
};
use crate::text::{chars_of, decimal, has_prefix, owned, push_char, push_zero_padded, string_from_chars, zero_pad};

verus! {

/// The short cache key of a URL.
pub open spec fn web_cache_key_spec(url: Seq<char>) -> Seq<char> {
    short_hash(url)
}

/// A short cache key for a URL: the first 16 hexadecimal digits of the SHA-256 of the URL.
pub fn web_cache_key(url: &str) -> (res: String)
    ensures
        res@ == web_cache_key_spec(url@),
        res@.len() == 16,
{
    short_key(url)
}

// ───────────────────────────── timestamps ─────────────────────────────

/// The civil (proleptic Gregorian) date `days` days after 1970-01-01, as
/// `(year, month, day)`, by the era-based algorithm of H. Hinnant's `civil_from_days`.
pub open spec fn civil_from_days(days: nat) -> (nat, nat, nat) {
    let z = days + 719468;
    let era = z / 146097;
    let doe = (z - era * 146097) as nat;
    let yoe = ((doe - doe / 1460 + doe / 36524 - doe / 146096) / 365) as nat;
    let y = yoe + era * 400;
    let doy = (doe - (365 * yoe + yoe / 4 - yoe / 100)) as nat;
    let mp = (5 * doy + 2) / 153;
    let d = (doy - (153 * mp + 2) / 5 + 1) as nat;
    let m = if mp < 10 { mp + 3 } else { (mp - 9) as nat };
    let y = if m <= 2 { y + 1 } else { y };
    (y, m, d)
}

/// The date of a day count since the Unix epoch.
pub fn days_to_ymd(days: u64) -> (res: (u64, u64, u64))
    requires
        days + 719468 <= u64::MAX,
    ensures
        (res.0 as nat, res.1 as nat, res.2 as nat) == civil_from_days(days as nat),
        1 <= res.1 <= 12,
        1 <= res.2 <= 31,
{
    let z = days + 719468;
    let era = z / 146097;
    assert(era * 146097 <= z) by (nonlinear_arith)
        requires
            era == z / 146097,
    ;
    let doe = z - era * 146097;
    assert(doe < 146097) by (nonlinear_arith)
        requires
            era == z / 146097,
            doe == z - era * 146097,
    ;
    let t = doe - doe / 1460 + doe / 36524 - doe / 146096;
    let yoe = t / 365;
    assert(yoe <= 399);
    assert(era * 400 <= z) by (nonlinear_arith)
        requires
            era == z / 146097,
    ;
    let y = yoe + era * 400;
    assert(365 * yoe + yoe / 4 - yoe / 100 <= doe) by (nonlinear_arith)
        requires
            yoe == t / 365,
            t == doe - doe / 1460 + doe / 36524 - doe / 146096,
            doe < 146097,
    ;
    let doy = doe - (365 * yoe + yoe / 4 - yoe / 100);
    assert(doy <= 365) by (nonlinear_arith)
        requires
            yoe == t / 365,
            t == doe - doe / 1460 + doe / 36524 - doe / 146096,
            doe < 146097,
            doy == doe - (365 * yoe + yoe / 4 - yoe / 100),
    ;
    let mp = (5 * doy + 2) / 153;
    assert(mp <= 11);
    assert((153 * mp + 2) / 5 <= doy) by (nonlinear_arith)
        requires
            mp == (5 * doy + 2) / 153,
    ;
    let d = doy - (153 * mp + 2) / 5 + 1;
    assert(d <= 31) by (nonlinear_arith)
        requires
            mp == (5 * doy + 2) / 153,
            d == doy - (153 * mp + 2) / 5 + 1,
    ;
    let m = if mp < 10 {
        mp + 3
    } else {
        mp - 9
    };
    let y = if m <= 2 {
        y + 1
    } else {
        y
    };
    (y, m, d)
}

/// `YYYY-MM-DDTHH:MM:SSZ` for the given seconds since the Unix epoch (UTC).
pub open spec fn iso_timestamp_spec(secs: nat) -> Seq<char> {
    let (y, m, d) = civil_from_days(secs / 86400);
    let t = secs % 86400;
    zero_pad(decimal(y), 4) + seq!['-'] + zero_pad(decimal(m), 2) + seq!['-'] + zero_pad(decimal(d), 2)
        + seq!['T'] + zero_pad(decimal(t / 3600), 2) + seq![':'] + zero_pad(decimal((t % 3600) / 60), 2)
        + seq![':'] + zero_pad(decimal(t % 60), 2) + seq!['Z']
}

/// An ISO 8601 UTC timestamp for a number of seconds since the Unix epoch.
pub fn iso_timestamp(secs: u64) -> (res: String)
    ensures
        res@ == iso_timestamp_spec(secs as nat),
{
    let days = secs / 86400;
    let t = secs % 86400;
    let (y, m, d) = days_to_ymd(days);
    let mut s = String::new();
    push_zero_padded(&mut s, y, 4);
    push_char(&mut s, '-');
    push_zero_padded(&mut s, m, 2);
    push_char(&mut s, '-');
    push_zero_padded(&mut s, d, 2);
    push_char(&mut s, 'T');
    push_zero_padded(&mut s, t / 3600, 2);
    push_char(&mut s, ':');
    push_zero_padded(&mut s, (t % 3600) / 60, 2);
    push_char(&mut s, ':');
    push_zero_padded(&mut s, t % 60, 2);
    push_char(&mut s, 'Z');
    assert(s@ =~= iso_timestamp_spec(secs as nat));
    s
}

/// The current time as an ISO 8601 UTC timestamp.
pub fn chrono_now() -> (res: String)
    ensures
        exists|secs: u64| res@ == iso_timestamp_spec(secs as nat),
{
    iso_timestamp(crate::history::unix_now_secs())
}

/// How long a cached page stays fresh, in seconds.
pub const CACHE_EXPIRY_SECS: u64 = 86400;

/// A cache entry fetched at `fetched_at` is stale at `now` when more than a day has passed
/// (a clock earlier than the fetch counts as no time passed).
pub fn cache_expired(now: u64, fetched_at: u64) -> (res: bool)
    ensures
        res == (now > fetched_at && now - fetched_at > CACHE_EXPIRY_SECS),
{
    now.saturating_sub(fetched_at) > CACHE_EXPIRY_SECS
}

// ───────────────────────────── URLs ─────────────────────────────

/// Whether `s` is a web URL: it starts with `http://` or `https://`.
pub fn is_url(s: &str) -> (res: bool)
    ensures
        res == is_http_url(s@),
{
    crate::dashboard::starts_with_http(s)
}

/// The separator between a URL's scheme and the rest.
pub open spec fn scheme_sep() -> Seq<char> {
    seq![':', '/', '/']
}

/// A `/../` path step.
pub open spec fn parent_step() -> Seq<char> {
    seq!['/', '.', '.', '/']
}

/// The authority of a URL: what lies between the first `://` and the next `/` (empty when the
/// URL has no `://`).
pub open spec fn authority_of(url: Seq<char>) -> Seq<char> {
    let piece = match second_piece(url, scheme_sep()) {
        Some(p) => p,
        None => Seq::empty(),
    };
    before_sub(piece, seq!['/'])
}

/// The host of a URL: its authority without a port.
pub open spec fn domain_of(url: Seq<char>) -> Seq<char> {
    before_sub(authority_of(url), seq![':'])
}

/// `before_sub(s, p)` is a prefix of `s`; when shorter than `s`, `p` starts right after it.
proof fn lemma_before_sub_prefix(s: Seq<char>, p: Seq<char>)
    ensures
        before_sub(s, p).len() <= s.len(),
        before_sub(s, p) == s.take(before_sub(s, p).len() as int),
        before_sub(s, p).len() < s.len() ==> before_sub(s, p).len() + p.len() <= s.len(),
        before_sub(s, p).len() < s.len() ==> s.subrange(
            before_sub(s, p).len() as int,
            (before_sub(s, p).len() + p.len()) as int,
        ) == p,
{
    lemma_find_sub_from(s, p, 0);
    match find_sub(s, p) {
        Some(k) => {},
        None => {
            assert(s.take(s.len() as int) =~= s);
        },
    }
}

/// What `before_sub(s, seq![c])` keeps holds no `c`.
proof fn lemma_before_char_free(s: Seq<char>, c: char)
    ensures
        forall|i: int| 0 <= i < before_sub(s, seq![c]).len() ==> before_sub(s, seq![c])[i] != c,
{
    lemma_find_sub_from(s, seq![c], 0);
    let b = before_sub(s, seq![c]);
    assert forall|i: int| 0 <= i < b.len() implies b[i] != c by {
        if b[i] == c {
            assert(s.subrange(i, i + 1) =~= seq![c]);
            let j = i as nat;
            assert(s.subrange(j as int, (j + seq![c].len()) as int) == seq![c]);
        }
    }
}

/// The domain of a URL holds no `/` and no `:`. It is empty when the URL has no `://`;
/// otherwise it is the longest start of the text after the first `://` without `/` or `:`
/// (what follows it there, if anything, is `/` or `:`).
pub proof fn lemma_domain_shape(url: Seq<char>)
    ensures
        forall|i: int| 0 <= i < domain_of(url).len() ==> domain_of(url)[i] != '/' && domain_of(url)[i] != ':',
        match find_sub(url, seq![':', '/', '/']) {
            None => domain_of(url).len() == 0,
            Some(k) => {
                let rest = url.skip(k as int + 3);
                let d = domain_of(url);
                &&& d.len() <= rest.len()
                &&& d == rest.take(d.len() as int)
                &&& d.len() < rest.len() ==> rest[d.len() as int] == '/' || rest[d.len() as int] == ':'
            },
        },
{
    let sep = scheme_sep();
    assert(sep =~= seq![':', '/', '/']);
    let piece = match second_piece(url, sep) {
        Some(p) => p,
        None => Seq::empty(),
    };
    let a = authority_of(url);
    let d = domain_of(url);
    lemma_before_sub_prefix(a, seq![':']);
    lemma_before_char_free(a, ':');
    lemma_before_sub_prefix(piece, seq!['/']);
    lemma_before_char_free(piece, '/');
    assert forall|i: int| 0 <= i < d.len() implies d[i] != '/' && d[i] != ':' by {
        assert(d[i] == a[i]);
    }
    match find_sub(url, sep) {
        None => {},
        Some(k) => {
            lemma_find_sub_from(url, sep, 0);
            let rest = url.skip(k as int + 3);
            assert(after_sub(url, sep) == Some(rest));
            lemma_before_sub_prefix(rest, sep);
            assert(piece == before_sub(rest, sep));
            assert(d =~= rest.take(d.len() as int));
            if d.len() < rest.len() {
                if d.len() < a.len() {
                    assert(a.subrange(d.len() as int, d.len() as int + 1)[0] == a[d.len() as int]);
                } else if a.len() < piece.len() {
                    assert(piece.subrange(a.len() as int, a.len() as int + 1)[0] == piece[a.len() as int]);
                } else {
                    assert(sep.len() == 3);
                    assert(rest.subrange(piece.len() as int, piece.len() as int + 3) == sep);
                    assert(rest.subrange(piece.len() as int, piece.len() as int + 3)[0] == rest[piece.len() as int]);
                }
            }
        },
    }
}

fn scheme_sep_vec() -> (res: Vec<char>)
    ensures
        res@ == scheme_sep(),
{
    let v = vec![':', '/', '/'];
    assert(v@ =~= scheme_sep());
    v
}

fn one_char_vec(c: char) -> (res: Vec<char>)
    ensures
        res@ == seq![c],
{
    let v = vec![c];
    assert(v@ =~= seq![c]);
    v
}

/// The authority of a URL (`url.split("://").nth(1)`, up to the first `/`).
pub fn url_authority(url: &str) -> (res: String)
    ensures
        res@ == authority_of(url@),
{
    let v = chars_of(url);
    let piece = match second_piece_exec(&v, &scheme_sep_vec()) {
        Some(p) => p,
        None => Vec::new(),
    };
    let a = before_sub_exec(&piece, &one_char_vec('/'));
    string_from_chars(&a)
}

/// The domain of a URL, e.g. `example.com` for `https://example.com:8080/path`.
pub fn extract_domain(url: &str) -> (res: String)
    ensures
        res@ == domain_of(url@),
{
    let a = chars_of(url_authority(url).as_str());
    let d = before_sub_exec(&a, &one_char_vec(':'));
    string_from_chars(&d)
}

/// `s` with each `dir/../` step removed, from the left, until none is left. A `/../` with no
/// directory before it is removed alone.
pub open spec fn collapse_parents(s: Seq<char>) -> Seq<char>
    decreases s.len(),
{
    match find_sub(s, parent_step()) {
        Some(k) => {
            let before = s.take(k as int);
            let after = s.skip((k + 4) as int);
            let parent = match last_index_of(before, '/') {
                Some(j) => before.take(j as int),
                None => Seq::empty(),
            };
            proof {
                lemma_find_sub_from(s, parent_step(), 0);
                lemma_last_index_of(before, '/');
            }
            collapse_parents(parent + seq!['/'] + after)
        },
        None => s,
    }
}

/// `s` with each `/./` replaced by `/`, scanning from the left without overlaps
/// (`str::replace("/./", "/")`).
pub open spec fn drop_dot_steps(s: Seq<char>) -> Seq<char>
    decreases s.len(),
{
    if s.len() >= 3 && s[0] == '/' && s[1] == '.' && s[2] == '/' {
        seq!['/'] + drop_dot_steps(s.skip(3))
    } else if s.len() == 0 {
        s
    } else {
        seq![s[0]] + drop_dot_steps(s.skip(1))
    }
}

/// Host and path of the part of a URL after its scheme: the path starts at the first `/`
/// and is `/` when there is none.
pub open spec fn host_and_path(rest: Seq<char>) -> (Seq<char>, Seq<char>) {
    match find_sub(rest, seq!['/']) {
        Some(k) => (rest.take(k as int), rest.skip(k as int)),
        None => (rest, seq!['/']),
    }
}

/// The directory part of a path: up to and including its last `/`.
pub open spec fn dir_of(path: Seq<char>) -> Seq<char> {
    match last_index_of(path, '/') {
        Some(k) => path.take((k + 1) as int),
        None => path,
    }
}

/// `src` resolved against the page URL `base`: absolute URLs stay; `//host/...` takes the
/// base's scheme; `/path` takes the base's scheme and host; any other path is joined to the
/// base's directory, then `dir/../` and `/./` steps are removed. When the base has no `://`,
/// `src` stays as it is.
pub open spec fn resolve_image_url_spec(src: Seq<char>, base: Seq<char>) -> Seq<char> {
    if is_http_url(src) {
        src
    } else if has_prefix(src, seq!['/', '/']) {
        before_sub(base, scheme_sep()) + seq![':'] + src
    } else {
        match second_piece(base, scheme_sep()) {
            None => src,
            Some(rest) => {
                let scheme = before_sub(base, scheme_sep());
                let host = host_and_path(rest).0;
                let path = host_and_path(rest).1;
                if has_prefix(src, seq!['/']) {
                    scheme + scheme_sep() + host + src
                } else {
                    scheme + scheme_sep() + host + drop_dot_steps(collapse_parents(dir_of(path) + src))
                }
            },
        }
    }
}

fn collapse_parents_exec(v: Vec<char>) -> (res: Vec<char>)
    ensures
        res@ == collapse_parents(v@),
{
    let pat = vec!['/', '.', '.', '/'];
    assert(pat@ =~= parent_step());
    let mut cur = v;
    loop
        invariant
            pat@ == parent_step(),
            collapse_parents(cur@) == collapse_parents(v@),
        decreases cur@.len(),
    {
        proof {
            lemma_find_sub_from(cur@, parent_step(), 0);
        }
        match find_sub_exec(&cur, 0, &pat) {
            None => {
                return cur;
            },
            Some(k) => {
                let len = cur.len();
                assert(k + 4 <= len);
                let before = sub_vec(&cur, 0, k);
                let after = sub_vec(&cur, k + 4, len);
                proof {
                    lemma_last_index_of(before@, '/');
                }
                let mut next = match last_index_exec(&before, '/') {
                    Some(j) => sub_vec(&before, 0, j),
                    None => Vec::new(),
                };
                next.push('/');
                let next = concat(&next, &after);
                assert(before@ =~= cur@.take(k as int));
                assert(after@ =~= cur@.skip((k + 4) as int));
                assert(next@ =~= (match last_index_of(before@, '/') {
                    Some(j) => before@.take(j as int),
                    None => Seq::empty(),
                }) + seq!['/'] + after@);
                cur = next;
            },
        }
    }
}

fn drop_dot_steps_exec(v: &Vec<char>) -> (res: Vec<char>)
    ensures
        res@ == drop_dot_steps(v@),
{
    let mut res: Vec<char> = Vec::new();
    let mut i: usize = 0;
    assert(v@.skip(0) =~= v@);
    while i < v.len()
        invariant
            i <= v@.len(),
            res@ + drop_dot_steps(v@.skip(i as int)) == drop_dot_steps(v@),
        decreases v@.len() - i,
    {
        let ghost rest = v@.skip(i as int);
        if v.len() - i >= 3 && v[i] == '/' && v[i + 1] == '.' && v[i + 2] == '/' {
            assert(rest[0] == '/' && rest[1] == '.' && rest[2] == '/');
            assert(rest.skip(3) =~= v@.skip(i + 3));
            res.push('/');
            i = i + 3;
            assert(res@ + drop_dot_steps(v@.skip(i as int)) =~= drop_dot_steps(v@));
        } else {
            assert(rest[0] == v@[i as int]);
            assert(rest.skip(1) =~= v@.skip(i + 1));
            proof {
                if rest.len() >= 3 {
                    assert(rest[1] == v@[i + 1] && rest[2] == v@[i + 2]);
                }
            }
            res.push(v[i]);
            i = i + 1;
            assert(res@ + drop_dot_steps(v@.skip(i as int)) =~= drop_dot_steps(v@));
        }
    }
    assert(v@.skip(i as int) =~= Seq::<char>::empty());
    assert(res@ + drop_dot_steps(v@.skip(i as int)) =~= res@);
    res
}

/// Resolves a possibly relative image URL against the URL of the page it appears on.
pub fn resolve_image_url(src: &str, base_url: &str) -> (res: String)
    ensures
        res@ == resolve_image_url_spec(src@, base_url@),
{
    if is_url(src) {
        return owned(src);
    }
    let sv = chars_of(src);
    let bv = chars_of(base_url);
    let sep = scheme_sep_vec();
    let protocol_relative = sv.len() >= 2 && sv[0] == '/' && sv[1] == '/';
    assert(protocol_relative == has_prefix(src@, seq!['/', '/'])) by {
        if sv@.len() >= 2 {
            assert(sv@.subrange(0, 2)[0] == sv@[0] && sv@.subrange(0, 2)[1] == sv@[1]);
            if protocol_relative {
                assert(sv@.subrange(0, 2) =~= seq!['/', '/']);
            }
        }
    }
    if protocol_relative {
        let mut out = before_sub_exec(&bv, &sep);
        out.push(':');
        let out = concat(&out, &sv);
        return string_from_chars(&out);
    }
    match second_piece_exec(&bv, &sep) {
        None => owned(src),
        Some(rest) => {
            let scheme = before_sub_exec(&bv, &sep);
            proof {
                lemma_find_sub_from(rest@, seq!['/'], 0);
            }
            let (host, path) = match find_sub_exec(&rest, 0, &one_char_vec('/')) {
                Some(k) => {
                    let h = sub_vec(&rest, 0, k);
                    let p = sub_vec(&rest, k, rest.len());
                    assert(h@ =~= rest@.take(k as int));
                    assert(p@ =~= rest@.skip(k as int));
                    (h, p)
                },
                None => (concat(&rest, &Vec::new()), one_char_vec('/')),
            };
            assert(host@ =~= host_and_path(rest@).0);
            assert(path@ =~= host_and_path(rest@).1);
            let head = concat(&concat(&scheme, &sep), &host);
            let root_relative = sv.len() >= 1 && sv[0] == '/';
            assert(root_relative == has_prefix(src@, seq!['/'])) by {
                if sv@.len() >= 1 {
                    assert(sv@.subrange(0, 1)[0] == sv@[0]);
                    if root_relative {
                        assert(sv@.subrange(0, 1) =~= seq!['/']);
                    }
                }
            }
            let out = if root_relative {
                concat(&head, &sv)
            } else {
                proof {
                    lemma_last_index_of(path@, '/');
                }
                let dir = match last_index_exec(&path, '/') {
                    Some(k) => sub_vec(&path, 0, k + 1),
                    None => concat(&path, &Vec::new()),
                };
                assert(dir@ =~= dir_of(path@));
                let collapsed = collapse_parents_exec(concat(&dir, &sv));
                let cleaned = drop_dot_steps_exec(&collapsed);
                concat(&head, &cleaned)
            };
            string_from_chars(&out)
        },
    }
}

} // verus!

verus! {

/// A web page with extracted content.
#[derive(Debug, Clone)]
pub struct WebPage {
    pub title: String,
    pub url: String,
    pub content_html: String,
}

/// Two pages with the same title, URL and content.
pub open spec fn same_page(a: WebPage, b: WebPage) -> bool {
    a.title@ == b.title@ && a.url@ == b.url@ && a.content_html@ == b.content_html@
}

/// A copy of a page.
pub fn copy_page(p: &WebPage) -> (res: WebPage)
    ensures
        same_page(res, *p),
{
    WebPage { title: owned(p.title.as_str()), url: owned(p.url.as_str()), content_html: owned(p.content_html.as_str()) }
}

/// The cached page of `url`, from the cache's metadata and HTML, unless it is stale at `now`.
pub fn cached_page(meta: WebCacheMeta, html: String, url: &str, now: u64) -> (res: Option<WebPage>)
    ensures
        (now > meta.fetched_at && now - meta.fetched_at > CACHE_EXPIRY_SECS) ==> res is None,
        !(now > meta.fetched_at && now - meta.fetched_at > CACHE_EXPIRY_SECS) ==> (res matches Some(p) && p.title@
            == meta.title@ && p.url@ == url@ && p.content_html@ == html@),
{
    if cache_expired(now, meta.fetched_at) {
        None
    } else {
        Some(WebPage { title: meta.title, url: owned(url), content_html: html })
    }
}

/// Cache metadata for a web page.
#[derive(Debug, Clone)]
pub struct WebCacheMeta {
    pub url: String,
    pub title: String,
    pub fetched_at: u64,
}

/// Reading progress for a web page.
#[derive(Debug, Clone, PartialEq, Eq)]
pub struct WebProgress {
    pub url: String,
    pub scroll: usize,
    pub saved_at: String,
}


// ───────────────────────────── readable content ─────────────────────────────

#[verifier::external_type_specification]
#[verifier::external_body]
pub struct ExReadability(dom_smoothie::Readability);

/// An ASCII letter.
pub open spec fn is_ascii_letter(c: char) -> bool {
    ('a' <= c && c <= 'z') || ('A' <= c && c <= 'Z')
}

/// A character that may follow the first letter of a URL scheme: an ASCII letter or digit,
/// `+`, `-` or `.`.
pub open spec fn is_scheme_char(c: char) -> bool {
    is_ascii_letter(c) || ('0' <= c && c <= '9') || c == '+' || c == '-' || c == '.'
}

/// Whether `dom_smoothie` takes `url` as the document URL of a page (its `is_absolute_url`,
/// strict): the trimmed URL has a `://`, before the first one a scheme (a letter, then letters,
/// digits, `+`, `-` or `.`), something after it, and does not end in `://`.
pub open spec fn readability_accepts_url(url: Seq<char>) -> bool {
    let s = crate::text::trim(url);
    match crate::search::find_sub(s, "://"@) {
        Some(pos) => {
            &&& pos > 0
            &&& is_ascii_letter(s[0])
            &&& forall|i: int| 1 <= i < pos ==> is_scheme_char(#[trigger] s[i])
            &&& s.len() > pos + 3
            &&& !crate::text::has_suffix(s, "://"@)
        },
        None => false,
    }
}

/// `dom_smoothie::Readability::new` on `html`, with `url` as the document URL and the default
/// configuration. Its source fails only with `BadDocumentURL`, exactly when its strict
/// `is_absolute_url` refuses the URL (`readability_accepts_url`); the error's text is handed
/// back as it displays.
#[verifier::external_body]
fn readability_new(html: &str, url: &str) -> (res: Result<dom_smoothie::Readability, String>)
    ensures
        res is Ok <==> readability_accepts_url(url@),
{
    match dom_smoothie::Readability::new(html, Some(url), None) {
        Ok(r) => Ok(r),
        Err(e) => Err(e.to_string()),
    }
}

/// `dom_smoothie::Readability::parse`: the article's title and HTML content, or the error's
/// text. Nothing is stated of the result: it is the crate's own extraction heuristics, which
/// keep their scores in hash maps that each process seeds.
#[verifier::external_body]
fn readability_parse(r: &mut dom_smoothie::Readability) -> (res: Result<(String, String), String>) {
    match r.parse() {
        Ok(a) => Ok((a.title, a.content.to_string())),
        Err(e) => Err(e.to_string()),
    }
}

/// The message for a page without readable content.
pub open spec fn empty_content_message() -> Seq<char> {
    seq!['无', '法', '提', '取', '正', '文', '：', '页', '面', '内', '容', '为', '空']
}

/// The page made of an extracted article: refused when its content is blank.
pub fn article_page(title: String, content: String, url: &str) -> (res: Result<WebPage, String>)
    ensures
        match res {
            Ok(page) => crate::text::trim(content@).len() > 0 && page.title@ == title@ && page.url@
                == url@ && page.content_html@ == content@,
            Err(e) => crate::text::trim(content@).len() == 0 && e@ == empty_content_message(),
        },
{
    if crate::text::is_blank(content.as_str()) {
        let m = "无法提取正文：页面内容为空";
        proof {
            reveal_strlit("无法提取正文：页面内容为空");
        }
        assert(m@ =~= empty_content_message());
        return Err(owned(m));
    }
    Ok(WebPage { title, url: owned(url), content_html: content })
}

/// `prefix` followed by `detail`.
fn prefixed(prefix: &str, detail: &str) -> (res: String)
    ensures
        res@ == prefix@ + detail@,
{
    let mut m = owned(prefix);
    crate::text::push_str(&mut m, detail);
    m
}

/// The message prefix for a page the extractor does not take.
pub open spec fn setup_failed_prefix() -> Seq<char> {
    seq!['R', 'e', 'a', 'd', 'a', 'b', 'i', 'l', 'i', 't', 'y', ' ', '解', '析', '失', '败', ':', ' ']
}

/// The message prefix for a page the extractor could not extract from.
pub open spec fn extraction_failed_prefix() -> Seq<char> {
    seq!['R', 'e', 'a', 'd', 'a', 'b', 'i', 'l', 'i', 't', 'y', ' ', '提', '取', '失', '败', ':', ' ']
}

/// Extracts the readable content of the page `html` fetched from `url`. A URL that the
/// extractor does not take is refused before any extraction; a page whose extracted content is
/// blank is refused too. The page that comes out carries `url`.
pub fn extract_content(html: &str, url: &str) -> (res: Result<WebPage, String>)
    ensures
        !readability_accepts_url(url@) ==> (res matches Err(e) && has_prefix(e@, setup_failed_prefix())),
        readability_accepts_url(url@) ==> (res matches Err(e) ==> (has_prefix(e@, extraction_failed_prefix())
            || e@ == empty_content_message())),
        res matches Ok(page) ==> page.url@ == url@ && crate::text::trim(page.content_html@).len() > 0,
{
    let mut r = match readability_new(html, url) {
        Ok(r) => r,
        Err(e) => {
            let p = "Readability 解析失败: ";
            proof {
                reveal_strlit("Readability 解析失败: ");
            }
            assert(p@ =~= setup_failed_prefix());
            let m = prefixed(p, e.as_str());
            assert(m@.subrange(0, p@.len() as int) =~= p@);
            return Err(m);
        },
    };
    match readability_parse(&mut r) {
        Ok((title, content)) => article_page(title, content, url),
        Err(e) => {
            let p = "Readability 提取失败: ";
            proof {
                reveal_strlit("Readability 提取失败: ");
            }
            assert(p@ =~= extraction_failed_prefix());
            let m = prefixed(p, e.as_str());
            assert(m@.subrange(0, p@.len() as int) =~= p@);
            Err(m)
        },
    }
}

// ───────────────────────────── extracted HTML as lines ─────────────────────────────

/// The start of the minimal XHTML document that an extracted fragment is put in.
pub open spec fn fragment_head() -> Seq<char> {
    seq![
        '<', 'h', 't', 'm', 'l', ' ', 'x', 'm', 'l', 'n', 's', '=', '"', 'h', 't', 't', 'p', ':', '/',
        '/', 'w', 'w', 'w', '.', 'w', '3', '.', 'o', 'r', 'g', '/', '1', '9', '9', '9', '/', 'x',
        'h', 't', 'm', 'l', '"', '>', '<', 'b', 'o', 'd', 'y', '>'
    ]
}

/// The end of that document.
pub open spec fn fragment_tail() -> Seq<char> {
    seq!['<', '/', 'b', 'o', 'd', 'y', '>', '<', '/', 'h', 't', 'm', 'l', '>']
}

/// An HTML fragment as the body of a minimal XHTML document.
pub open spec fn wrapped_fragment(html: Seq<char>) -> Seq<char> {
    fragment_head() + html + fragment_tail()
}

/// Puts an HTML fragment in a minimal XHTML document.
pub fn wrap_fragment(html: &str) -> (res: String)
    ensures
        res@ == wrapped_fragment(html@),
{
    let head = "<html xmlns=\"http://www.w3.org/1999/xhtml\"><body>";
    let tail = "</body></html>";
    proof {
        reveal_strlit("<html xmlns=\"http://www.w3.org/1999/xhtml\"><body>");
        reveal_strlit("</body></html>");
    }
    assert(head@ =~= fragment_head());
    assert(tail@ =~= fragment_tail());
    let mut res = owned(head);
    crate::text::push_str(&mut res, html);
    crate::text::push_str(&mut res, tail);
    res
}

/// Each source resolved against the page's URL.
pub open spec fn resolved_sources(srcs: Seq<Seq<char>>, base: Seq<char>) -> Seq<Seq<char>> {
    Seq::new(srcs.len(), |i: int| resolve_image_url_spec(srcs[i], base))
}

/// The URLs of the images of an extracted fragment, in order, each resolved against the URL
/// of the page.
pub fn html_image_urls(html: &str, base_url: &str) -> (res: Vec<String>)
    ensures
        res@.map_values(|x: String| x@) == resolved_sources(
            crate::xhtml::xwalk(crate::xml::xml_tokens(wrapped_fragment(html@)), Seq::empty(), Seq::empty()).image_srcs,
            base_url@,
        ),
{
    let doc = wrap_fragment(html);
    let srcs = crate::xhtml::xhtml_image_sources(doc.as_str());
    let ghost sv = srcs@.map_values(|x: String| x@);
    let mut res: Vec<String> = Vec::new();
    let mut k: usize = 0;
    while k < srcs.len()
        invariant
            k <= srcs@.len(),
            sv == srcs@.map_values(|x: String| x@),
            res@.len() == k,
            forall|j: int| 0 <= j < k ==> #[trigger] res@[j]@ == resolve_image_url_spec(sv[j], base_url@),
        decreases srcs@.len() - k,
    {
        let u = resolve_image_url(srcs[k].as_str(), base_url);
        res.push(u);
        k = k + 1;
    }
    assert(res@.map_values(|x: String| x@) =~= resolved_sources(sv, base_url@));
    res
}

/// The lines of an extracted fragment, read as the body of a minimal XHTML document: the
/// images' local files (in the order of `html_image_urls`) and the tables' column widths are
/// those given.
pub fn html_to_lines(html: &str, image_paths: &Vec<Option<String>>, table_widths: &Vec<Vec<usize>>)
    -> (res: Vec<crate::image::LineContent>)
    ensures
        crate::image::lines_view(res@) == crate::xhtml::xhtml_lines_spec(
            crate::xml::xml_tokens(wrapped_fragment(html@)),
            crate::xhtml::paths_view(image_paths@),
            crate::xhtml::widths_view(table_widths@),
        ),
{
    let doc = wrap_fragment(html);
    crate::xhtml::xhtml_to_lines(doc.as_str(), image_paths, table_widths)
}

} // verus!
