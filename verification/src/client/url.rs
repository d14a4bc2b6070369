//! Addresses of streams: `rtmp://host[:port]/app/stream`.

use vstd::prelude::*;
use crate::error::{other, Error, Result};
#[allow(unused_imports)]
use crate::error::{outcome, Fault};
use crate::search::{find_char, find_text, head_of, rfind_char, starts_with, tail_of};
#[allow(unused_imports)]
use crate::search::{
    first_char, first_text, head, last_char, lemma_first_char, lemma_first_text, lemma_found_char,
    lemma_last_char, lemma_no_char, stands_at, tail,
};
use crate::text::{cat, cat3, cat4, port_number};
#[allow(unused_imports)]
use crate::text::{decimal, is_digit, lemma_port_of_decimal, port_fault_text, port_in};

verus! {

/// The port where none is given.
pub const DEFAULT_PORT: u16 = 1935;

/// An address, taken apart.
#[derive(Debug)]
pub struct RtmpUrl {
    pub host: String,
    pub port: u16,
    pub app: String,
    /// May hold further slashes, and may be empty.
    pub stream_name: String,
    /// The address without the stream.
    pub tc_url: String,
}

/// The mathematical view of [`RtmpUrl`].
pub struct UrlView {
    pub host: Seq<char>,
    pub port: u16,
    pub app: Seq<char>,
    pub stream_name: Seq<char>,
    pub tc_url: Seq<char>,
}

impl View for RtmpUrl {
    type V = UrlView;

    open spec fn view(&self) -> UrlView {
        UrlView {
            host: self.host@,
            port: self.port,
            app: self.app@,
            stream_name: self.stream_name@,
            tc_url: self.tc_url@,
        }
    }
}

/// What stands before the first slash of a path, and what stands behind it.
pub open spec fn split_path(path: Seq<char>) -> (Seq<char>, Seq<char>) {
    match first_char(path, 0, '/') {
        Some(i) => (head(path, i), tail(path, i + 1)),
        None => (path, Seq::empty()),
    }
}

/// What stands before the last colon of an authority, and what stands behind it.
pub open spec fn split_authority(authority: Seq<char>) -> (Seq<char>, Option<Seq<char>>) {
    match last_char(authority, authority.len() as int, ':') {
        Some(i) => (head(authority, i), Some(tail(authority, i + 1))),
        None => (authority, None),
    }
}

/// The address that a host, port and path make.
pub open spec fn url_from(authority: Seq<char>, host: Seq<char>, port: u16, path: Seq<char>) -> UrlView {
    let (app, stream_name) = split_path(path);
    UrlView { host, port, app, stream_name, tc_url: "rtmp://"@ + authority + "/"@ + app }
}

/// The address that a text is.
pub open spec fn url_of(url: Seq<char>) -> core::result::Result<UrlView, Fault> {
    if !stands_at(url, 0, "rtmp://"@) {
        Err(Fault::Other("not an rtmp:// URL: "@ + url))
    } else {
        let s = tail(url, 7);
        match first_char(s, 0, '/') {
            None => Err(Fault::Other("missing /app in rtmp URL"@)),
            Some(slash) => {
                let authority = head(s, slash);
                let path = tail(s, slash + 1);
                match split_authority(authority) {
                    (host, None) => Ok(url_from(authority, host, DEFAULT_PORT, path)),
                    (host, Some(p)) => match port_in(p) {
                        Some(port) => Ok(url_from(authority, host, port, path)),
                        None => Err(Fault::Other("rtmp URL bad port: "@ + port_fault_text(p))),
                    },
                }
            },
        }
    }
}

pub(crate) fn path_parts(path: &str) -> (r: (String, String))
    ensures
        (r.0@, r.1@) == split_path(path@),
{
    match find_char(path, '/') {
        Some(i) => (head_of(path, i).to_owned(), tail_of(path, i + 1).to_owned()),
        None => {
            let none = String::new();
            assert(none@ =~= Seq::empty());
            (path.to_owned(), none)
        },
    }
}

impl Clone for RtmpUrl {
    fn clone(&self) -> (r: RtmpUrl)
        ensures
            r@ == self@,
    {
        RtmpUrl {
            host: self.host.clone(),
            port: self.port,
            app: self.app.clone(),
            stream_name: self.stream_name.clone(),
            tc_url: self.tc_url.clone(),
        }
    }
}

impl RtmpUrl {
    /// Take an address apart.
    pub fn parse(url: &str) -> (r: Result<RtmpUrl>)
        ensures
            outcome(r) == url_of(url@),
    {
        proof {
            reveal_strlit("rtmp://");
        }
        if !starts_with(url, "rtmp://") {
            return Err(Error::Other(cat("not an rtmp:// URL: ", url)));
        }
        let s = tail_of(url, 7);
        let slash: usize = match find_char(s, '/') {
            Some(i) => i,
            None => {
                return Err(other("missing /app in rtmp URL"));
            },
        };
        let authority = head_of(s, slash);
        let path = tail_of(s, slash + 1);
        let (host, port): (String, u16) = match rfind_char(authority, ':') {
            Some(i) => match port_number(tail_of(authority, i + 1)) {
                Ok(port) => (head_of(authority, i).to_owned(), port),
                Err(e) => {
                    return Err(Error::Other(cat("rtmp URL bad port: ", e.as_str())));
                },
            },
            None => (authority.to_owned(), DEFAULT_PORT),
        };
        let (app, stream_name) = path_parts(path);
        let tc_url = cat4("rtmp://", authority, "/", app.as_str());
        Ok(RtmpUrl { host, port, app, stream_name, tc_url })
    }
}

// ---------------------------------------------------------------------------
// References
// ---------------------------------------------------------------------------

/// The scheme of a base address and what stands behind it.
pub open spec fn scheme_of(base: Seq<char>) -> (Seq<char>, Seq<char>) {
    match first_text(base, 0, "://"@) {
        Some(i) => (head(base, i), tail(base, i + 3)),
        None => ("rtmp"@, base),
    }
}

/// The authority and the path of what stands behind the scheme.
pub open spec fn authority_of(rest: Seq<char>) -> (Seq<char>, Seq<char>) {
    match first_char(rest, 0, '/') {
        Some(i) => (head(rest, i), tail(rest, i)),
        None => (rest, Seq::empty()),
    }
}

/// A path up to and with its last slash.
pub open spec fn directory_of(path: Seq<char>) -> Seq<char> {
    match last_char(path, path.len() as int, '/') {
        Some(i) => head(path, i + 1),
        None => "/"@,
    }
}

/// What a reference means, seen from a base address.
pub open spec fn resolved(base: Seq<char>, reference: Seq<char>) -> Seq<char> {
    let (scheme, rest) = scheme_of(base);
    let (authority, path) = authority_of(rest);
    if reference.len() == 0 {
        base
    } else if first_text(reference, 0, "://"@) is Some {
        reference
    } else if stands_at(reference, 0, "//"@) {
        scheme + "://"@ + tail(reference, 2)
    } else if reference[0] == '/' {
        scheme + "://"@ + authority + reference
    } else {
        scheme + "://"@ + authority + directory_of(path) + reference
    }
}

/// What a reference means, seen from a base address: one with a scheme stands for
/// itself, `//host/app` takes the scheme of the base, `/app` its scheme and
/// authority, `app` takes the place of the last segment of its path, and an empty
/// one means the base.
pub fn resolve_tc_url(base: &str, reference: &str) -> (r: String)
    ensures
        r@ == resolved(base@, reference@),
{
    proof {
        reveal_strlit("://");
        reveal_strlit("//");
    }
    if reference.unicode_len() == 0 {
        return base.to_owned();
    }
    match find_text(reference, "://") {
        Some(_) => {
            return reference.to_owned();
        },
        None => {},
    }
    let (scheme, rest): (&str, &str) = match find_text(base, "://") {
        Some(i) => (head_of(base, i), tail_of(base, i + 3)),
        None => ("rtmp", base),
    };
    if starts_with(reference, "//") {
        return cat3(scheme, "://", tail_of(reference, 2));
    }
    let (authority, path): (String, String) = match find_char(rest, '/') {
        Some(i) => (head_of(rest, i).to_owned(), tail_of(rest, i).to_owned()),
        None => {
            let none = String::new();
            assert(none@ =~= Seq::empty());
            (rest.to_owned(), none)
        },
    };
    let front = cat3(scheme, "://", authority.as_str());
    if reference.get_char(0) == '/' {
        return cat(front.as_str(), reference);
    }
    let dir: String = match rfind_char(path.as_str(), '/') {
        Some(i) => head_of(path.as_str(), i + 1).to_owned(),
        None => "/".to_owned(),
    };
    cat3(front.as_str(), dir.as_str(), reference)
}

// ---------------------------------------------------------------------------
// Laws
// ---------------------------------------------------------------------------

/// Whether `c` does not occur in `s`.
pub open spec fn free_of(s: Seq<char>, c: char) -> bool {
    forall|i: int| 0 <= i < s.len() ==> #[trigger] s[i] != c
}

proof fn lemma_split_parts(app: Seq<char>, stream: Seq<char>)
    requires
        free_of(app, '/'),
    ensures
        split_path(app + seq!['/'] + stream) == (app, stream),
{
    let path = app + seq!['/'] + stream;
    lemma_first_char(path, 0, app.len() as int, '/');
    assert(head(path, app.len() as int) =~= app);
    assert(tail(path, app.len() + 1int) =~= stream);
}

/// An address that was put together is taken apart again: host, port, app and
/// stream come back. The app has no slash, and neither has the host; a colon in
/// the host is no hindrance, as the last one counts.
pub proof fn law_url_round_trip(host: Seq<char>, port: u16, app: Seq<char>, stream: Seq<char>)
    requires
        free_of(host, '/'),
        free_of(app, '/'),
    ensures
        url_of(
            "rtmp://"@ + host + ":"@ + decimal(port as nat) + "/"@ + app + "/"@ + stream,
        ) == Ok::<UrlView, Fault>(
            UrlView {
                host,
                port,
                app,
                stream_name: stream,
                tc_url: "rtmp://"@ + (host + ":"@ + decimal(port as nat)) + "/"@ + app,
            },
        ),
{
    reveal_strlit("rtmp://");
    reveal_strlit(":");
    reveal_strlit("/");
    let digits = decimal(port as nat);
    lemma_port_of_decimal(port);
    let authority = host + ":"@ + digits;
    let path = app + seq!['/'] + stream;
    let url = "rtmp://"@ + host + ":"@ + digits + "/"@ + app + "/"@ + stream;
    assert(url.subrange(0, 7) =~= "rtmp://"@);
    let s = tail(url, 7);
    assert(s =~= authority + seq!['/'] + path);
    assert forall|k: int| 0 <= k < authority.len() implies s[k] != '/' by {
        if k < host.len() {
            assert(s[k] == host[k]);
        } else if k > host.len() {
            assert(s[k] == digits[k - host.len() - 1]);
            assert(is_digit(digits[k - host.len() - 1]));
        }
    }
    lemma_first_char(s, 0, authority.len() as int, '/');
    assert(head(s, authority.len() as int) =~= authority);
    assert(tail(s, authority.len() + 1int) =~= path);
    assert forall|k: int| host.len() < k < authority.len() implies authority[k] != ':' by {
        assert(authority[k] == digits[k - host.len() - 1]);
        assert(is_digit(digits[k - host.len() - 1]));
    }
    lemma_last_char(authority, authority.len() as int, host.len() as int, ':');
    assert(head(authority, host.len() as int) =~= host);
    assert(tail(authority, host.len() + 1int) =~= digits);
    lemma_split_parts(app, stream);
}

/// The address of the connection, with the stream behind it, is the same address
/// again.
pub proof fn law_tc_url_leads_back(url: Seq<char>)
    requires
        url_of(url) is Ok,
    ensures
        ({
            let u = url_of(url)->Ok_0;
            url_of(u.tc_url + "/"@ + u.stream_name) == Ok::<UrlView, Fault>(u)
        }),
{
    reveal_strlit("rtmp://");
    reveal_strlit("/");
    let u = url_of(url)->Ok_0;
    let s = tail(url, 7);
    lemma_found_char(s, 0, '/');
    let slash = first_char(s, 0, '/').unwrap();
    let authority = head(s, slash);
    let path = tail(s, slash + 1);
    lemma_found_char(path, 0, '/');
    let again = u.tc_url + "/"@ + u.stream_name;
    assert(again.subrange(0, 7) =~= "rtmp://"@);
    let s2 = tail(again, 7);
    let path2 = u.app + seq!['/'] + u.stream_name;
    assert(s2 =~= authority + seq!['/'] + path2);
    assert forall|k: int| 0 <= k < authority.len() implies s2[k] != '/' by {
        assert(s2[k] == s[k]);
    }
    lemma_first_char(s2, 0, authority.len() as int, '/');
    assert(head(s2, authority.len() as int) =~= authority);
    assert(tail(s2, authority.len() + 1int) =~= path2);
    assert(free_of(u.app, '/')) by {
        assert forall|i: int| 0 <= i < u.app.len() implies #[trigger] u.app[i] != '/' by {
            assert(u.app[i] == path[i]);
        }
    }
    lemma_split_parts(u.app, u.stream_name);
}

/// A base address that is made of a scheme, an authority and a path is taken
/// apart into them.
proof fn lemma_base_parts(scheme: Seq<char>, authority: Seq<char>, path: Seq<char>)
    requires
        free_of(scheme, ':'),
        free_of(authority, '/'),
        path.len() > 0 ==> path[0] == '/',
    ensures
        scheme_of(scheme + "://"@ + authority + path) == (scheme, authority + path),
        authority_of(authority + path) == (authority, path),
{
    reveal_strlit("://");
    let base = scheme + "://"@ + authority + path;
    let n = scheme.len() as int;
    assert forall|k: int| 0 <= k < n implies !stands_at(base, k, "://"@) by {
        if stands_at(base, k, "://"@) {
            assert(base.subrange(k, k + 3)[0] == ':');
            assert(base[k] == scheme[k]);
        }
    }
    assert(base.subrange(n, n + 3) =~= "://"@);
    lemma_first_text(base, 0, n, "://"@);
    assert(head(base, n) =~= scheme);
    assert(tail(base, n + 3) =~= authority + path);
    let rest = authority + path;
    if path.len() > 0 {
        lemma_first_char(rest, 0, authority.len() as int, '/');
        assert(head(rest, authority.len() as int) =~= authority);
        assert(tail(rest, authority.len() as int) =~= path);
    } else {
        assert forall|k: int| 0 <= k < rest.len() implies rest[k] != '/' by {
            assert(rest[k] == authority[k]);
        }
        lemma_no_char(rest, 0, '/');
        assert(rest =~= authority);
        assert(path =~= Seq::empty());
    }
}

/// Seen from a base made of scheme, authority and path, an empty reference means
/// the base, `//x` keeps the scheme, `/x` keeps scheme and authority, and any
/// other reference without a scheme takes the place of what stands behind the
/// last slash of the path.
pub proof fn law_reference_shapes(
    scheme: Seq<char>,
    authority: Seq<char>,
    path: Seq<char>,
    reference: Seq<char>,
)
    requires
        free_of(scheme, ':'),
        free_of(authority, '/'),
        path.len() > 0 ==> path[0] == '/',
        first_text(reference, 0, "://"@) is None,
    ensures
        ({
            let base = scheme + "://"@ + authority + path;
            let r = resolved(base, reference);
            &&& reference.len() == 0 ==> r == base
            &&& reference.len() > 0 && stands_at(reference, 0, "//"@) ==> r == scheme + "://"@
                + tail(reference, 2)
            &&& reference.len() > 0 && reference[0] == '/' && !stands_at(reference, 0, "//"@)
                ==> r == scheme + "://"@ + authority + reference
            &&& reference.len() > 0 && reference[0] != '/' ==> r == scheme + "://"@ + authority
                + directory_of(path) + reference
        }),
{
    reveal_strlit("//");
    lemma_base_parts(scheme, authority, path);
    if reference.len() > 0 && reference[0] != '/' && stands_at(reference, 0, "//"@) {
        assert(reference.subrange(0, 2)[0] == '/');
    }
}

/// A reference that has a scheme stands for itself, whatever the base.
pub proof fn law_absolute_reference(base: Seq<char>, reference: Seq<char>)
    requires
        first_text(reference, 0, "://"@) is Some,
    ensures
        resolved(base, reference) == reference,
{
}

/// An address without a port means port 1935, and one that has nothing behind the app
/// names no stream: `rtmp://host/app`.
pub proof fn law_short_address(host: Seq<char>, app: Seq<char>, stream: Seq<char>)
    requires
        forall|i: int| 0 <= i < host.len() ==> (#[trigger] host[i]) != '/' && host[i] != ':',
        forall|i: int| 0 <= i < app.len() ==> (#[trigger] app[i]) != '/',
    ensures
        url_of("rtmp://"@ + host + "/"@ + app) == Ok::<UrlView, Fault>(
            UrlView {
                host,
                port: 1935,
                app,
                stream_name: Seq::empty(),
                tc_url: "rtmp://"@ + host + "/"@ + app,
            },
        ),
        url_of("rtmp://"@ + host + "/"@ + app + "/"@ + stream) == Ok::<UrlView, Fault>(
            UrlView {
                host,
                port: 1935,
                app,
                stream_name: stream,
                tc_url: "rtmp://"@ + host + "/"@ + app,
            },
        ),
{
    reveal_strlit("rtmp://");
    reveal_strlit("/");
    lemma_short(host, app);
    lemma_no_char(app, 0, '/');
    let path = app + seq!['/'] + stream;
    lemma_short(host, path);
    lemma_split_parts(app, stream);
    assert("rtmp://"@ + host + "/"@ + app + "/"@ + stream =~= "rtmp://"@ + host + "/"@ + path);
}

proof fn lemma_short(host: Seq<char>, path: Seq<char>)
    requires
        forall|i: int| 0 <= i < host.len() ==> (#[trigger] host[i]) != '/' && host[i] != ':',
    ensures
        url_of("rtmp://"@ + host + "/"@ + path) == Ok::<UrlView, Fault>(
            url_from(host, host, 1935, path),
        ),
{
    reveal_strlit("rtmp://");
    reveal_strlit("/");
    let url = "rtmp://"@ + host + "/"@ + path;
    assert(url.subrange(0, 7) =~= "rtmp://"@);
    let s = tail(url, 7);
    assert(s =~= host + seq!['/'] + path);
    lemma_first_char(s, 0, host.len() as int, '/');
    assert(head(s, host.len() as int) =~= host);
    assert(tail(s, host.len() + 1int) =~= path);
    lemma_no_last(host, host.len() as int, ':');
}

proof fn lemma_no_last(s: Seq<char>, n: int, c: char)
    requires
        0 <= n <= s.len(),
        forall|i: int| 0 <= i < n ==> (#[trigger] s[i]) != c,
    ensures
        last_char(s, n, c) is None,
    decreases n,
{
    if n > 0 {
        lemma_no_last(s, n - 1, c);
    }
}

/// A text that does not start with `rtmp://` is no address, and neither is one that
/// has no slash behind that, nor one whose port is no number.
pub proof fn law_texts_that_are_no_address(
    url: Seq<char>,
    rest: Seq<char>,
    host: Seq<char>,
    port: Seq<char>,
    path: Seq<char>,
)
    requires
        url.len() < 7 || url.subrange(0, 7) != "rtmp://"@,
        forall|i: int| 0 <= i < rest.len() ==> (#[trigger] rest[i]) != '/',
        forall|i: int| 0 <= i < host.len() ==> (#[trigger] host[i]) != '/',
        forall|i: int| 0 <= i < port.len() ==> (#[trigger] port[i]) != '/' && port[i] != ':',
        port_in(port) is None,
    ensures
        url_of(url) == Err::<UrlView, Fault>(Fault::Other("not an rtmp:// URL: "@ + url)),
        url_of("rtmp://"@ + rest) == Err::<UrlView, Fault>(
            Fault::Other("missing /app in rtmp URL"@),
        ),
        url_of("rtmp://"@ + host + ":"@ + port + "/"@ + path) == Err::<UrlView, Fault>(
            Fault::Other("rtmp URL bad port: "@ + port_fault_text(port)),
        ),
{
    reveal_strlit("rtmp://");
    reveal_strlit(":");
    reveal_strlit("/");
    let bare = "rtmp://"@ + rest;
    assert(bare.subrange(0, 7) =~= "rtmp://"@);
    assert(tail(bare, 7) =~= rest);
    lemma_no_char(rest, 0, '/');
    let u = "rtmp://"@ + host + ":"@ + port + "/"@ + path;
    assert(u.subrange(0, 7) =~= "rtmp://"@);
    let authority = host + ":"@ + port;
    let s = tail(u, 7);
    assert(s =~= authority + seq!['/'] + path);
    assert forall|k: int| 0 <= k < authority.len() implies s[k] != '/' by {
        if k < host.len() {
            assert(s[k] == host[k]);
        } else if k > host.len() {
            assert(s[k] == port[k - host.len() - 1]);
        }
    }
    lemma_first_char(s, 0, authority.len() as int, '/');
    assert(head(s, authority.len() as int) =~= authority);
    assert forall|k: int| host.len() < k < authority.len() implies authority[k] != ':' by {
        assert(authority[k] == port[k - host.len() - 1]);
    }
    lemma_last_char(authority, authority.len() as int, host.len() as int, ':');
    assert(tail(authority, host.len() + 1int) =~= port);
}

/// A plain reference takes the place of what stands behind the last slash of the base,
/// and goes to the root of a base that has no path. A base without a scheme means
/// `rtmp`.
pub proof fn law_plain_reference(
    authority: Seq<char>,
    dir: Seq<char>,
    leaf: Seq<char>,
    reference: Seq<char>,
)
    requires
        forall|i: int| 0 <= i < authority.len() ==> (#[trigger] authority[i]) != '/' && authority[i]
            != ':',
        forall|i: int| 0 <= i < dir.len() ==> (#[trigger] dir[i]) != ':',
        dir.len() > 0 ==> dir[0] == '/',
        forall|i: int| 0 <= i < leaf.len() ==> (#[trigger] leaf[i]) != '/' && leaf[i] != ':',
        reference.len() > 0,
        reference[0] != '/',
        forall|i: int| 0 <= i < reference.len() ==> (#[trigger] reference[i]) != ':',
    ensures
        resolved("rtmps://"@ + authority + (dir + "/"@ + leaf), reference) == "rtmps://"@ + authority
            + dir + "/"@ + reference,
        resolved("rtmps://"@ + authority, reference) == "rtmps://"@ + authority + "/"@ + reference,
        resolved(authority + (dir + "/"@ + leaf), reference) == "rtmp://"@ + authority + dir + "/"@
            + reference,
{
    reveal_strlit("rtmps://");
    reveal_strlit("rtmps");
    reveal_strlit("rtmp://");
    reveal_strlit("rtmp");
    reveal_strlit("://");
    reveal_strlit("/");
    let path = dir + "/"@ + leaf;
    lemma_no_scheme(reference, 0);
    assert("rtmps://"@ =~= "rtmps"@ + "://"@);
    assert("rtmp://"@ =~= "rtmp"@ + "://"@);
    lemma_base_parts("rtmps"@, authority, path);
    lemma_base_parts("rtmps"@, authority, Seq::empty());
    assert("rtmps"@ + "://"@ + authority + Seq::<char>::empty() =~= "rtmps://"@ + authority);
    assert("rtmps"@ + "://"@ + authority + path =~= "rtmps://"@ + authority + path);
    law_reference_shapes("rtmps"@, authority, path, reference);
    law_reference_shapes("rtmps"@, authority, Seq::empty(), reference);
    assert forall|k: int| dir.len() < k < path.len() implies path[k] != '/' by {
        assert(path[k] == leaf[k - dir.len() - 1]);
    }
    lemma_last_char(path, path.len() as int, dir.len() as int, '/');
    assert(directory_of(path) =~= dir + "/"@);
    let front = "rtmps"@ + "://"@ + authority;
    assert(front + (dir + "/"@) + reference =~= "rtmps://"@ + authority + dir + "/"@ + reference);
    let base = authority + path;
    assert forall|k: int| 0 <= k < base.len() implies (#[trigger] base[k]) != ':' by {
        if k < authority.len() {
            assert(base[k] == authority[k]);
        } else if k < authority.len() + dir.len() {
            assert(base[k] == dir[k - authority.len()]);
        } else if k > authority.len() + dir.len() {
            assert(base[k] == leaf[k - authority.len() - dir.len() - 1]);
        }
    }
    lemma_no_scheme(base, 0);
    if stands_at(reference, 0, "//"@) {
        reveal_strlit("//");
        assert(reference.subrange(0, 2)[0] == '/');
    }
    assert("rtmp"@ + "://"@ + authority + (dir + "/"@) + reference =~= "rtmp://"@ + authority + dir
        + "/"@ + reference);
}

proof fn lemma_no_scheme(s: Seq<char>, from: int)
    requires
        0 <= from,
        forall|i: int| 0 <= i < s.len() ==> (#[trigger] s[i]) != ':',
    ensures
        first_text(s, from, "://"@) is None,
    decreases s.len() - from,
{
    reveal_strlit("://");
    if from < s.len() {
        if stands_at(s, from, "://"@) {
            assert(s.subrange(from, from + 3)[0] == ':');
        }
        lemma_no_scheme(s, from + 1);
    }
}

/// Addresses are taken apart and references resolved as is said here.
pub proof fn law_addresses_are_read(url: &str, reference: &str, r: Result<RtmpUrl>, t: String)
    requires
        call_ensures(RtmpUrl::parse, (url,), r),
        call_ensures(resolve_tc_url, (url, reference), t),
    ensures
        outcome(r) == url_of(url@),
        t@ == resolved(url@, reference@),
{
}

} // verus!
