//! Finding the video link of a pin page and the file name it is saved under.

use vstd::prelude::*;
use crate::text::{
    after_last, before_first, contains_char, end_before_first, has_prefix, start_after_last, trim,
    trim_str,
};

verus! {

/// Errors that can occur while fetching a pin page or downloading its video.
#[derive(Debug)]
pub enum DownloadError {
    /// The HTTP request for the pin page failed.
    Request(String),
    /// No video link was found in the page.
    VideoNotFound,
    /// The HTTP request for the video failed.
    DownloadFailed(String),
    /// Reading the response or writing the file failed.
    IoError(String),
}

/// `http://`
pub open spec fn http_scheme() -> Seq<char> {
    seq!['h', 't', 't', 'p', ':', '/', '/']
}

/// `https://`
pub open spec fn https_scheme() -> Seq<char> {
    seq!['h', 't', 't', 'p', 's', ':', '/', '/']
}

/// The address that is requested for a pin link typed by the user: the link without
/// surrounding white space, with `https://` in front when it names no HTTP scheme.
pub open spec fn spec_normalize_url(url: Seq<char>) -> Seq<char> {
    let t = trim(url);
    if http_scheme().is_prefix_of(t) || https_scheme().is_prefix_of(t) {
        t
    } else {
        https_scheme() + t
    }
}

/// Normalizing a normalized address changes nothing, and a normalized address always
/// names the HTTP or HTTPS scheme.
pub proof fn law_normalize_url_idempotent(url: Seq<char>)
    ensures
        spec_normalize_url(spec_normalize_url(url)) == spec_normalize_url(url),
        http_scheme().is_prefix_of(spec_normalize_url(url)) || https_scheme().is_prefix_of(
            spec_normalize_url(url),
        ),
{
    let t = trim(url);
    crate::text::law_trim_idempotent(url);
    crate::text::lemma_trim_shape(url);
    if http_scheme().is_prefix_of(t) || https_scheme().is_prefix_of(t) {
    } else {
        let n = https_scheme() + t;
        assert(n[0] == 'h');
        assert(n.last() == if t.len() > 0 { t.last() } else { '/' });
        crate::text::lemma_trim_of_trimmed(n);
        assert(https_scheme().is_prefix_of(n)) by {
            assert(https_scheme() =~= n.subrange(0, 8));
        }
    }
}

/// The address keeps the trimmed link whole at its end and adds at most `https://` in
/// front: exactly `https://` when the trimmed link names no HTTP scheme, nothing when it
/// does.
pub proof fn law_normalize_url_prefixes_only_scheme(url: Seq<char>)
    ensures
        trim(url).is_suffix_of(spec_normalize_url(url)),
        spec_normalize_url(url).len() <= trim(url).len() + 8,
        !(http_scheme().is_prefix_of(trim(url)) || https_scheme().is_prefix_of(trim(url)))
            ==> spec_normalize_url(url) == https_scheme() + trim(url),
        (http_scheme().is_prefix_of(trim(url)) || https_scheme().is_prefix_of(trim(url)))
            ==> spec_normalize_url(url) == trim(url),
{
    let t = trim(url);
    let n = spec_normalize_url(url);
    if http_scheme().is_prefix_of(t) || https_scheme().is_prefix_of(t) {
        assert(t =~= n.subrange(0, n.len() as int));
    } else {
        assert(t =~= n.subrange(8, n.len() as int));
    }
}

/// A link typed without surrounding white space and without an HTTP scheme is
/// requested as `https://` followed by exactly that link.
pub proof fn law_normalize_url_adds_https(url: Seq<char>)
    requires
        url.len() > 0 ==> !crate::text::is_white_space(url[0]) && !crate::text::is_white_space(url.last()),
        !http_scheme().is_prefix_of(url),
        !https_scheme().is_prefix_of(url),
    ensures
        spec_normalize_url(url) == https_scheme() + url,
{
    crate::text::lemma_trim_of_trimmed(url);
}

/// Turns a pin link typed by the user into the address to request.
pub fn normalize_url(url: &str) -> (res: String)
    ensures
        res@ == spec_normalize_url(url@),
{
    let url = trim_str(url);
    proof {
        reveal_strlit("http://");
        reveal_strlit("https://");
    }
    if has_prefix(url, "http://") || has_prefix(url, "https://") {
        url.to_owned()
    } else {
        let mut res = String::from_str("https://");
        res.append(url);
        res
    }
}

/// The name under which a video link is saved: the last path segment, when it holds a
/// `.`, cut before the first `?` and then before the first `#`; none when that is empty.
pub open spec fn spec_filename_from_url(url: Seq<char>) -> Option<Seq<char>> {
    let segment = after_last(url, '/');
    if segment.len() == 0 || !segment.contains('.') {
        None
    } else {
        let name = before_first(before_first(segment, '?'), '#');
        if name.len() == 0 {
            None
        } else {
            Some(name)
        }
    }
}

/// A file name found in a link is a non-empty start of the link's last path segment,
/// that segment holds a `.`, and the name holds no `/`, `?` or `#`.
pub proof fn law_filename_shape(url: Seq<char>)
    ensures
        spec_filename_from_url(url) matches Some(name) ==> {
            &&& name.len() > 0
            &&& name.is_prefix_of(after_last(url, '/'))
            &&& after_last(url, '/').contains('.')
            &&& after_last(url, '/').is_suffix_of(url)
            &&& !name.contains('/')
            &&& !name.contains('?')
            &&& !name.contains('#')
        },
{
    let segment = after_last(url, '/');
    let q = before_first(segment, '?');
    let name = before_first(q, '#');
    crate::text::lemma_after_last(url, '/');
    crate::text::lemma_before_first(segment, '?');
    crate::text::lemma_before_first(q, '#');
    if spec_filename_from_url(url) is Some {
        assert(name.is_prefix_of(segment)) by {
            assert forall|i: int| 0 <= i < name.len() implies name[i] == segment[i] by {
                assert(name[i] == q[i]);
            }
        }
        assert(!name.contains('/')) by {
            if name.contains('/') {
                let i = choose|i: int| 0 <= i < name.len() && name[i] == '/';
                assert(segment[i] == '/');
            }
        }
        assert(!name.contains('?')) by {
            if name.contains('?') {
                let i = choose|i: int| 0 <= i < name.len() && name[i] == '?';
                assert(q[i] == '?');
            }
        }
    }
}

/// A link whose last path segment is `name` followed by nothing or by a part that
/// begins with `?` or `#` names exactly `name`, whatever its other characters are, as
/// long as it holds a `.` and no `/`, `?` or `#`.
pub proof fn law_filename_complete(dir: Seq<char>, name: Seq<char>, rest: Seq<char>)
    requires
        name.contains('.'),
        !name.contains('/'),
        !name.contains('?'),
        !name.contains('#'),
        !rest.contains('/'),
        rest.len() > 0 ==> rest[0] == '?' || rest[0] == '#',
    ensures
        spec_filename_from_url(dir.push('/') + (name + rest)) == Some(name),
{
    let url = dir.push('/') + (name + rest);
    assert(!(name + rest).contains('/')) by {
        if (name + rest).contains('/') {
            let i = choose|i: int| 0 <= i < (name + rest).len() && (name + rest)[i] == '/';
            if i < name.len() {
                assert(name[i] == '/');
            } else {
                assert(rest[i - name.len()] == '/');
            }
        }
    }
    crate::text::lemma_after_last_concat(dir, name + rest, '/');
    let segment = name + rest;
    assert(segment.contains('.')) by {
        let i = choose|i: int| 0 <= i < name.len() && name[i] == '.';
        assert(segment[i] == '.');
    }
    crate::text::lemma_before_first_concat(name, rest, '?');
    let q = before_first(rest, '?');
    if rest.len() > 0 && rest[0] == '#' {
        assert(q == seq![rest[0]] + before_first(rest.drop_first(), '?'));
        crate::text::lemma_before_first_concat(name, q, '#');
        assert(before_first(q, '#') =~= Seq::<char>::empty());
    } else {
        assert(q =~= Seq::<char>::empty());
        assert(name + q =~= name);
        crate::text::lemma_before_first_concat(name, Seq::<char>::empty(), '#');
        assert(name + Seq::<char>::empty() =~= name);
    }
    assert(name + before_first(q, '#') =~= name) by {
        if rest.len() > 0 && rest[0] == '#' {
            assert(before_first(q, '#') =~= Seq::<char>::empty());
        }
    }
    assert(name.len() > 0);
}

/// The file name that a video link names, if it names one.
pub fn filename_from_url(url: &str) -> (res: Option<String>)
    ensures
        match res {
            Some(name) => spec_filename_from_url(url@) == Some(name@),
            None => spec_filename_from_url(url@) is None,
        },
{
    let n = url.unicode_len();
    let start = start_after_last(url, n, '/');
    assert(url@.subrange(0, n as int) =~= url@);
    if start == n || !contains_char(url, start, n, '.') {
        return None;
    }
    let query = end_before_first(url, start, n, '?');
    let end = end_before_first(url, start, query, '#');
    if end == start {
        None
    } else {
        Some(url.substring_char(start, end).to_owned())
    }
}

/// The file name used for a video link: the one it names, else `video.mp4`.
pub open spec fn spec_video_filename(url: Seq<char>) -> Seq<char> {
    match spec_filename_from_url(url) {
        Some(name) => name,
        None => seq!['v', 'i', 'd', 'e', 'o', '.', 'm', 'p', '4'],
    }
}

/// The file name a downloaded video is saved under.
pub fn video_filename(download_url: &str) -> (res: String)
    ensures
        res@ == spec_video_filename(download_url@),
{
    match filename_from_url(download_url) {
        Some(name) => name,
        None => {
            proof {
                reveal_strlit("video.mp4");
            }
            String::from_str("video.mp4")
        },
    }
}

/// `.mp4`
pub open spec fn mp4_extension() -> Seq<char> {
    seq!['.', 'm', 'p', '4']
}

/// `h[p..=q]` is a match of the pattern `"(https://[^"]+\.mp4[^"]*)"`: a quoted
/// `https://` link, with no quote inside, that has `.mp4` after at least one more character.
pub open spec fn is_mp4_link_match(h: Seq<char>, p: int, q: int) -> bool {
    &&& 0 <= p
    &&& p + 9 < q < h.len()
    &&& h[p] == '"'
    &&& h[q] == '"'
    &&& h.subrange(p + 1, p + 9) == https_scheme()
    &&& forall|i: int| p + 9 <= i < q ==> h[i] != '"'
    &&& exists|k: int| p + 10 <= k && k + 4 <= q && #[trigger] h.subrange(k, k + 4) == mp4_extension()
}

/// Some part of `h` matches the link pattern.
pub open spec fn has_mp4_link(h: Seq<char>) -> bool {
    exists|p: int, q: int| #[trigger] is_mp4_link_match(h, p, q)
}

/// `link` is what the pattern's group captures in its leftmost match in `h`.
pub open spec fn is_first_mp4_link(h: Seq<char>, link: Seq<char>) -> bool {
    exists|p: int, q: int|
        #[trigger] is_mp4_link_match(h, p, q) && link == h.subrange(p + 1, q) && (forall|
            p2: int,
            q2: int,
        | #[trigger] is_mp4_link_match(h, p2, q2) ==> p <= p2)
}

/// The link captured by the leftmost match of the pattern in `h`.
pub open spec fn first_mp4_link(h: Seq<char>) -> Seq<char> {
    choose|link: Seq<char>| is_first_mp4_link(h, link)
}

/// `s` with every `\/` replaced by `/`, scanning from the left.
pub open spec fn unescape_slashes(s: Seq<char>) -> Seq<char>
    decreases s.len(),
{
    if s.len() == 0 {
        s
    } else if s.len() >= 2 && s[0] == '\\' && s[1] == '/' {
        seq!['/'] + unescape_slashes(s.skip(2))
    } else {
        seq![s[0]] + unescape_slashes(s.skip(1))
    }
}

/// The video link that a pin page holds: the leftmost quoted `https://…mp4…` link,
/// with its escaped slashes restored.
pub open spec fn spec_find_mp4_url(h: Seq<char>) -> Option<Seq<char>> {
    if has_mp4_link(h) {
        Some(unescape_slashes(first_mp4_link(h)))
    } else {
        None
    }
}

/// Unescaping passes over a start that holds no backslash.
proof fn lemma_unescape_plain_prefix(a: Seq<char>, b: Seq<char>)
    requires
        !a.contains('\\'),
    ensures
        unescape_slashes(a + b) == a + unescape_slashes(b),
    decreases a.len(),
{
    if a.len() > 0 {
        let ab = a + b;
        assert(ab[0] == a[0]);
        assert(a[0] != '\\');
        assert(ab.skip(1) =~= a.skip(1) + b);
        assert(!a.skip(1).contains('\\')) by {
            if a.skip(1).contains('\\') {
                let i = choose|i: int| 0 <= i < a.skip(1).len() && a.skip(1)[i] == '\\';
                assert(a[i + 1] == '\\');
            }
        }
        lemma_unescape_plain_prefix(a.skip(1), b);
        assert(seq![a[0]] + (a.skip(1) + unescape_slashes(b)) =~= a + unescape_slashes(b));
    } else {
        assert(a + b =~= b);
        assert(a + unescape_slashes(b) =~= unescape_slashes(b));
    }
}

/// Unescaping splits before a part that does not begin with a slash.
proof fn lemma_unescape_split(x: Seq<char>, t: Seq<char>)
    requires
        t.len() == 0 || t[0] != '/',
    ensures
        unescape_slashes(x + t) == unescape_slashes(x) + unescape_slashes(t),
    decreases x.len(),
{
    let xt = x + t;
    if x.len() == 0 {
        assert(xt =~= t);
        assert(unescape_slashes(x) + unescape_slashes(t) =~= unescape_slashes(t));
    } else if x.len() >= 2 && x[0] == '\\' && x[1] == '/' {
        assert(xt[0] == '\\' && xt[1] == '/');
        assert(xt.skip(2) =~= x.skip(2) + t);
        lemma_unescape_split(x.skip(2), t);
        assert(seq!['/'] + (unescape_slashes(x.skip(2)) + unescape_slashes(t)) =~= (seq!['/']
            + unescape_slashes(x.skip(2))) + unescape_slashes(t));
    } else if x.len() == 1 && x[0] == '\\' {
        assert(xt[0] == '\\');
        assert(t.len() > 0 ==> xt[1] == t[0]);
        assert(xt.skip(1) =~= t);
        assert(x.skip(1) =~= Seq::<char>::empty());
        assert(unescape_slashes(x) == seq![x[0]] + unescape_slashes(x.skip(1)));
        assert(seq![x[0]] + Seq::<char>::empty() =~= seq![x[0]]);
    } else {
        assert(xt[0] == x[0]);
        assert(x.len() >= 2 ==> xt[1] == x[1]);
        assert(xt.skip(1) =~= x.skip(1) + t);
        lemma_unescape_split(x.skip(1), t);
        assert(seq![x[0]] + (unescape_slashes(x.skip(1)) + unescape_slashes(t)) =~= (seq![x[0]]
            + unescape_slashes(x.skip(1))) + unescape_slashes(t));
    }
}

/// Unescaping adds no character other than a slash.
proof fn lemma_unescape_chars(s: Seq<char>, c: char)
    requires
        c != '/',
        unescape_slashes(s).contains(c),
    ensures
        s.contains(c),
    decreases s.len(),
{
    let u = unescape_slashes(s);
    let i = choose|i: int| 0 <= i < u.len() && u[i] == c;
    if s.len() >= 2 && s[0] == '\\' && s[1] == '/' {
        let r = unescape_slashes(s.skip(2));
        assert(u[i] == r[i - 1]);
        assert(r.contains(c));
        lemma_unescape_chars(s.skip(2), c);
        let j = choose|j: int| 0 <= j < s.skip(2).len() && s.skip(2)[j] == c;
        assert(s[j + 2] == c);
    } else if s.len() > 0 {
        let r = unescape_slashes(s.skip(1));
        if i == 0 {
            assert(s[0] == c);
        } else {
            assert(u[i] == r[i - 1]);
            assert(r.contains(c));
            lemma_unescape_chars(s.skip(1), c);
            let j = choose|j: int| 0 <= j < s.skip(1).len() && s.skip(1)[j] == c;
            assert(s[j + 1] == c);
        }
    }
}

/// The link found in a page is an `https://` link that holds `.mp4` and no quote.
pub proof fn law_found_link_shape(html: Seq<char>)
    ensures
        spec_find_mp4_url(html) matches Some(url) ==> {
            &&& https_scheme().is_prefix_of(url)
            &&& exists|k: int| 0 <= k && k + 4 <= url.len() && #[trigger] url.subrange(k, k + 4) == mp4_extension()
            &&& !url.contains('"')
        },
{
    if has_mp4_link(html) {
        let link = first_mp4_link(html);
        let (p, q) = choose|p: int, q: int| #[trigger] is_mp4_link_match(html, p, q);
        assert(is_first_mp4_link(html, link)) by {
            lemma_first_mp4_link_exists(html, p, q);
        }
        let (p, q) = choose|p: int, q: int|
            #[trigger] is_mp4_link_match(html, p, q) && link == html.subrange(p + 1, q) && (forall|
                p2: int,
                q2: int,
            | #[trigger] is_mp4_link_match(html, p2, q2) ==> p <= p2);
        let k = choose|k: int| p + 10 <= k && k + 4 <= q && #[trigger] html.subrange(k, k + 4) == mp4_extension();
        let url = unescape_slashes(link);
        // the link is `https://`, then x, `.mp4` and y
        let j = k - (p + 1);
        let x = link.subrange(8, j);
        let m = link.subrange(j, j + 4);
        let y = link.subrange(j + 4, link.len() as int);
        assert(m =~= mp4_extension());
        assert(link.subrange(0, 8) =~= https_scheme());
        assert(link =~= https_scheme() + (x + (m + y)));
        assert(!https_scheme().contains('\\')) by {
            if https_scheme().contains('\\') {
                let i = choose|i: int| 0 <= i < 8 && https_scheme()[i] == '\\';
            }
        }
        assert(!m.contains('\\')) by {
            if m.contains('\\') {
                let i = choose|i: int| 0 <= i < 4 && m[i] == '\\';
            }
        }
        lemma_unescape_plain_prefix(https_scheme(), x + (m + y));
        lemma_unescape_split(x, m + y);
        lemma_unescape_plain_prefix(m, y);
        let ux = unescape_slashes(x);
        assert(url =~= https_scheme() + (ux + (m + unescape_slashes(y))));
        assert(https_scheme().is_prefix_of(url)) by {
            assert(https_scheme() =~= url.subrange(0, 8));
        }
        let kk: int = 8 + ux.len() as int;
        assert(url.subrange(kk, kk + 4) =~= mp4_extension());
        assert(!link.contains('"')) by {
            if link.contains('"') {
                let i = choose|i: int| 0 <= i < link.len() && link[i] == '"';
                assert(link[i] == html[p + 1 + i]);
                if i < 8 {
                    assert(https_scheme()[i] == html[p + 1 + i]);
                }
            }
        }
        if url.contains('"') {
            lemma_unescape_chars(link, '"');
        }
    }
}

/// When a match exists, the leftmost match's link is what `first_mp4_link` names.
proof fn lemma_first_mp4_link_exists(h: Seq<char>, p: int, q: int)
    requires
        is_mp4_link_match(h, p, q),
    ensures
        is_first_mp4_link(h, first_mp4_link(h)),
    decreases p,
{
    if exists|p2: int, q2: int| #[trigger] is_mp4_link_match(h, p2, q2) && p2 < p {
        let (p2, q2) = choose|p2: int, q2: int| #[trigger] is_mp4_link_match(h, p2, q2) && p2 < p;
        lemma_first_mp4_link_exists(h, p2, q2);
    } else {
        assert(is_first_mp4_link(h, h.subrange(p + 1, q)));
    }
}

/// The leftmost match of a pattern ends at the first quote after its start, so the
/// captured link is unique.
proof fn lemma_first_mp4_link_unique(h: Seq<char>, a: Seq<char>, b: Seq<char>)
    requires
        is_first_mp4_link(h, a),
        is_first_mp4_link(h, b),
    ensures
        a == b,
{
    let (pa, qa) = choose|p: int, q: int|
        #[trigger] is_mp4_link_match(h, p, q) && a == h.subrange(p + 1, q) && (forall|
            p2: int,
            q2: int,
        | #[trigger] is_mp4_link_match(h, p2, q2) ==> p <= p2);
    let (pb, qb) = choose|p: int, q: int|
        #[trigger] is_mp4_link_match(h, p, q) && b == h.subrange(p + 1, q) && (forall|
            p2: int,
            q2: int,
        | #[trigger] is_mp4_link_match(h, p2, q2) ==> p <= p2);
    assert(pa <= pb && pb <= pa);
    if qa < qb {
        assert(h[qa] != '"');
    }
    if qb < qa {
        assert(h[qb] != '"');
    }
}

/// The link captured by the pattern `"(https://[^"]+\.mp4[^"]*)"` in its leftmost match.
///
/// Calls `regex::Regex::new` on that pattern and `Regex::captures` on `html`, and hands
/// out capture group 1. Trusted: that the regex crate's leftmost-first search finds a
/// match exactly when one exists and that group 1 is the quoted link of the leftmost one.
#[verifier::external_body]
fn capture_mp4_link(html: &str) -> (link: Option<String>)
    ensures
        link is None <==> !has_mp4_link(html@),
        link matches Some(l) ==> is_first_mp4_link(html@, l@),
{
    let re = regex::Regex::new(r#""(https://[^"]+\.mp4[^"]*)""#).ok()?;
    let caps = re.captures(html)?;
    caps.get(1).map(|m| m.as_str().to_owned())
}

/// Replaces every `\/` in `s` by `/`.
pub fn unescape_slashes_str(s: &str) -> (res: String)
    ensures
        res@ == unescape_slashes(s@),
{
    let n = s.unicode_len();
    let mut res = String::new();
    let mut i: usize = 0;
    assert(s@.skip(0) =~= s@);
    while i < n
        invariant
            n == s@.len(),
            i <= n,
            unescape_slashes(s@) == res@ + unescape_slashes(s@.skip(i as int)),
        decreases n - i,
    {
        let ghost rest = s@.skip(i as int);
        assert(rest.len() == n - i && rest[0] == s@[i as int]);
        assert(i + 1 < n ==> rest[1] == s@[i + 1]);
        if i + 1 < n && s.get_char(i) == '\\' && s.get_char(i + 1) == '/' {
            assert(rest[0] == '\\' && rest[1] == '/');
            assert(rest.skip(2) =~= s@.skip(i + 2));
            assert(unescape_slashes(rest) == seq!['/'] + unescape_slashes(rest.skip(2)));
            assert(res@ + (seq!['/'] + unescape_slashes(rest.skip(2))) =~= (res@ + seq!['/'])
                + unescape_slashes(rest.skip(2)));
            let ghost old_res = res@;
            proof {
                reveal_strlit("/");
            }
            res.append("/");
            assert(res@ =~= old_res + seq!['/']);
            i = i + 2;
        } else {
            assert(rest.skip(1) =~= s@.skip(i + 1));
            assert(unescape_slashes(rest) == seq![rest[0]] + unescape_slashes(rest.skip(1)));
            assert(s@.subrange(i as int, i + 1) =~= seq![rest[0]]);
            assert(res@ + (seq![rest[0]] + unescape_slashes(rest.skip(1))) =~= (res@ + seq![
                rest[0],
            ]) + unescape_slashes(rest.skip(1)));
            let ghost old_res = res@;
            res.append(s.substring_char(i, i + 1));
            assert(res@ =~= old_res + seq![rest[0]]);
            i = i + 1;
        }
    }
    assert(s@.skip(n as int) =~= Seq::<char>::empty());
    assert(res@ + Seq::<char>::empty() =~= res@);
    res
}

/// The video link that a pin page holds, if any.
pub fn find_mp4_url(html: &str) -> (res: Option<String>)
    ensures
        match res {
            Some(url) => spec_find_mp4_url(html@) == Some(url@),
            None => spec_find_mp4_url(html@) is None,
        },
{
    match capture_mp4_link(html) {
        Some(link) => {
            proof {
                let chosen = first_mp4_link(html@);
                assert(is_first_mp4_link(html@, chosen));
                lemma_first_mp4_link_unique(html@, link@, chosen);
            }
            Some(unescape_slashes_str(link.as_str()))
        },
        None => None,
    }
}

/// What extracting the video link yields for the fetched pin page: the fetch error as
/// `Request`, the link found in the page, or `VideoNotFound`.
pub fn extract_download_url(page: Result<String, String>) -> (res: Result<String, DownloadError>)
    ensures
        match page {
            Err(e) => res matches Err(DownloadError::Request(m)) && m@ == e@,
            Ok(html) => match spec_find_mp4_url(html@) {
                Some(url) => res matches Ok(u) && u@ == url,
                None => res matches Err(DownloadError::VideoNotFound),
            },
        },
{
    match page {
        Err(e) => Err(DownloadError::Request(e)),
        Ok(html) => match find_mp4_url(html.as_str()) {
            Some(url) => Ok(url),
            None => Err(DownloadError::VideoNotFound),
        },
    }
}

} // verus!
