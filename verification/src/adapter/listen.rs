//! Addresses to listen on and to play from, and errors as a packet source reports
//! them.

use vstd::prelude::*;
use crate::client::url::{path_parts, DEFAULT_PORT};
#[allow(unused_imports)]
use crate::client::url::{free_of, split_authority, split_path};
use crate::error::{Error, IoError};
#[allow(unused_imports)]
use crate::error::{Fault, IoErrorKind};
use crate::search::{find_char, head_of, rfind_char, starts_with, tail_of};
#[allow(unused_imports)]
use crate::search::{first_char, head, stands_at, tail};
use crate::text::{
    cat, cat3, cat4, decimal_text, fixed_hex_text, port_number, quoted_text, same_text,
};
#[allow(unused_imports)]
use crate::text::{decimal, fixed_hex, port_fault_text, port_in, quoted};

verus! {

// ---------------------------------------------------------------------------
// Errors
// ---------------------------------------------------------------------------

/// An error of a packet source.
#[derive(Debug)]
pub enum SourceError {
    Io(IoError),
    Eof,
    InvalidData(String),
    Unsupported(String),
    Other(String),
}

/// The mathematical view of [`SourceError`].
pub enum SourceFault {
    Io(IoErrorKind, Seq<char>),
    Eof,
    InvalidData(Seq<char>),
    Unsupported(Seq<char>),
    Other(Seq<char>),
}

impl View for SourceError {
    type V = SourceFault;

    open spec fn view(&self) -> SourceFault {
        match *self {
            SourceError::Io(e) => SourceFault::Io(e.kind, e.message@),
            SourceError::Eof => SourceFault::Eof,
            SourceError::InvalidData(m) => SourceFault::InvalidData(m@),
            SourceError::Unsupported(m) => SourceFault::Unsupported(m@),
            SourceError::Other(m) => SourceFault::Other(m@),
        }
    }
}

/// How a packet source reports an error.
pub open spec fn reported(e: Fault) -> SourceFault {
    match e {
        Fault::Io(kind, m) => SourceFault::Io(kind, m),
        Fault::UnexpectedEof => SourceFault::Eof,
        Fault::Timeout => SourceFault::Other("rtmp: timeout"@),
        Fault::Rejected(m) => SourceFault::Other("rtmp: rejected: "@ + m),
        Fault::ProtocolViolation(m) => SourceFault::InvalidData("rtmp protocol: "@ + m),
        Fault::InvalidAmf0(m) => SourceFault::InvalidData("rtmp amf0: "@ + m),
        Fault::InvalidChunk(m) => SourceFault::InvalidData("rtmp chunk: "@ + m),
        Fault::InvalidCommand(m) => SourceFault::InvalidData("rtmp command: "@ + m),
        Fault::UnsupportedHandshakeVersion(v) => SourceFault::Unsupported(
            "rtmp handshake version 0x"@ + fixed_hex(v as nat, 2),
        ),
        Fault::Other(m) => SourceFault::Other("rtmp: "@ + m),
    }
}

/// How a packet source reports an error.
pub fn rtmp_to_core_err(e: Error) -> (r: SourceError)
    ensures
        r@ == reported(e@),
{
    match e {
        Error::Io(io) => SourceError::Io(io),
        Error::UnexpectedEof => SourceError::Eof,
        Error::Timeout => SourceError::Other("rtmp: timeout".to_owned()),
        Error::Rejected(m) => SourceError::Other(cat("rtmp: rejected: ", m.as_str())),
        Error::ProtocolViolation(m) => SourceError::InvalidData(
            cat("rtmp protocol: ", m.as_str()),
        ),
        Error::InvalidAmf0(m) => SourceError::InvalidData(cat("rtmp amf0: ", m.as_str())),
        Error::InvalidChunk(m) => SourceError::InvalidData(cat("rtmp chunk: ", m.as_str())),
        Error::InvalidCommand(m) => SourceError::InvalidData(cat("rtmp command: ", m.as_str())),
        Error::UnsupportedHandshakeVersion(v) => {
            let digits = fixed_hex_text(v as u64, 2);
            SourceError::Unsupported(cat("rtmp handshake version 0x", digits.as_str()))
        },
        Error::Other(m) => SourceError::Other(cat("rtmp: ", m.as_str())),
    }
}

// ---------------------------------------------------------------------------
// Listening
// ---------------------------------------------------------------------------

/// An address to listen on: where to bind, and what a publisher has to announce.
#[derive(Debug)]
pub struct ListenUrl {
    pub bind_addr: String,
    /// Any app is welcome where this is empty.
    pub expected_app: String,
    /// Any stream is welcome where this is empty.
    pub expected_stream: String,
}

/// The mathematical view of [`ListenUrl`].
pub struct ListenView {
    pub bind_addr: Seq<char>,
    pub expected_app: Seq<char>,
    pub expected_stream: Seq<char>,
}

impl View for ListenUrl {
    type V = ListenView;

    open spec fn view(&self) -> ListenView {
        ListenView {
            bind_addr: self.bind_addr@,
            expected_app: self.expected_app@,
            expected_stream: self.expected_stream@,
        }
    }
}

/// The address that a host, port and path make. Without a host every local address is
/// meant.
pub open spec fn listen_from(host: Seq<char>, port: u16, path: Seq<char>) -> ListenView {
    let (expected_app, expected_stream) = split_path(path);
    let bind_host = if host.len() == 0 {
        "0.0.0.0"@
    } else {
        host
    };
    ListenView { bind_addr: bind_host + ":"@ + decimal(port as nat), expected_app, expected_stream }
}

/// The address to listen on that a text is.
pub open spec fn listen_of(uri: Seq<char>) -> core::result::Result<ListenView, SourceFault> {
    if !stands_at(uri, 0, "rtmp://"@) {
        Err(SourceFault::InvalidData("not an rtmp:// URL: "@ + uri))
    } else {
        let s = tail(uri, 7);
        match first_char(s, 0, '/') {
            None => Err(SourceFault::InvalidData("rtmp URL missing /app: "@ + uri)),
            Some(slash) => {
                let path = tail(s, slash + 1);
                match split_authority(head(s, slash)) {
                    (host, None) => Ok(listen_from(host, DEFAULT_PORT, path)),
                    (host, Some(p)) => match port_in(p) {
                        Some(port) => Ok(listen_from(host, port, path)),
                        None => Err(
                            SourceFault::InvalidData(
                                "rtmp URL bad port "@ + quoted(p) + ": "@ + port_fault_text(p),
                            ),
                        ),
                    },
                }
            },
        }
    }
}

/// Why a publisher is turned away: the reason it is told, and the error.
pub open spec fn turned_away(url: ListenView, app: Seq<char>, stream: Seq<char>) -> Option<
    (Seq<char>, SourceFault),
> {
    if url.expected_app.len() > 0 && app != url.expected_app {
        Some(
            (
                "unexpected app"@,
                SourceFault::InvalidData(
                    "rtmp publisher app mismatch: expected "@ + quoted(url.expected_app)
                        + ", got "@ + quoted(app),
                ),
            ),
        )
    } else if url.expected_stream.len() > 0 && stream != url.expected_stream {
        Some(
            (
                "unexpected stream key"@,
                SourceFault::InvalidData(
                    "rtmp publisher stream-name mismatch: expected "@ + quoted(
                        url.expected_stream,
                    ) + ", got "@ + quoted(stream),
                ),
            ),
        )
    } else {
        None
    }
}

impl ListenUrl {
    /// Take an address apart.
    pub fn parse(uri: &str) -> (r: core::result::Result<ListenUrl, SourceError>)
        ensures
            match r {
                Ok(u) => listen_of(uri@) == Ok::<ListenView, SourceFault>(u@),
                Err(e) => listen_of(uri@) == Err::<ListenView, SourceFault>(e@),
            },
    {
        proof {
            reveal_strlit("rtmp://");
        }
        if !starts_with(uri, "rtmp://") {
            return Err(SourceError::InvalidData(cat("not an rtmp:// URL: ", uri)));
        }
        let s = tail_of(uri, 7);
        let slash: usize = match find_char(s, '/') {
            Some(i) => i,
            None => {
                return Err(SourceError::InvalidData(cat("rtmp URL missing /app: ", uri)));
            },
        };
        let authority = head_of(s, slash);
        let (expected_app, expected_stream) = path_parts(tail_of(s, slash + 1));
        let (host, port): (&str, u16) = match rfind_char(authority, ':') {
            Some(i) => {
                let port_str = tail_of(authority, i + 1);
                match port_number(port_str) {
                    Ok(port) => (head_of(authority, i), port),
                    Err(e) => {
                        let shown = quoted_text(port_str);
                        return Err(
                            SourceError::InvalidData(
                                cat4("rtmp URL bad port ", shown.as_str(), ": ", e.as_str()),
                            ),
                        );
                    },
                }
            },
            None => (authority, DEFAULT_PORT),
        };
        let bind_host = if host.unicode_len() == 0 {
            "0.0.0.0"
        } else {
            host
        };
        let digits = decimal_text(port as u64);
        let bind_addr = cat3(bind_host, ":", digits.as_str());
        Ok(ListenUrl { bind_addr, expected_app, expected_stream })
    }

    /// Why a publisher is turned away, if it is: the reason it is told, and the error.
    pub fn refusal(&self, app: &str, stream_name: &str) -> (r: Option<(&'static str, SourceError)>)
        ensures
            match r {
                Some((reason, e)) => turned_away(self@, app@, stream_name@) == Some(
                    (reason@, e@),
                ),
                None => turned_away(self@, app@, stream_name@) is None,
            },
    {
        if self.expected_app.as_str().unicode_len() > 0 && !same_text(
            app,
            self.expected_app.as_str(),
        ) {
            let expected = quoted_text(self.expected_app.as_str());
            let actual = quoted_text(app);
            return Some(
                (
                    "unexpected app",
                    SourceError::InvalidData(
                        cat4(
                            "rtmp publisher app mismatch: expected ",
                            expected.as_str(),
                            ", got ",
                            actual.as_str(),
                        ),
                    ),
                ),
            );
        }
        if self.expected_stream.as_str().unicode_len() > 0 && !same_text(
            stream_name,
            self.expected_stream.as_str(),
        ) {
            let expected = quoted_text(self.expected_stream.as_str());
            let actual = quoted_text(stream_name);
            return Some(
                (
                    "unexpected stream key",
                    SourceError::InvalidData(
                        cat4(
                            "rtmp publisher stream-name mismatch: expected ",
                            expected.as_str(),
                            ", got ",
                            actual.as_str(),
                        ),
                    ),
                ),
            );
        }
        None
    }
}

// ---------------------------------------------------------------------------
// Playing
// ---------------------------------------------------------------------------

/// The address to dial for an address to play from.
pub open spec fn dialled(uri: Seq<char>) -> core::result::Result<Seq<char>, SourceFault> {
    if stands_at(uri, 0, "rtmp-play://"@) {
        Ok("rtmp://"@ + tail(uri, 12))
    } else {
        Err(SourceFault::InvalidData("not an rtmp-play:// URL: "@ + uri))
    }
}

/// The address to dial for an address to play from: `rtmp-play://` becomes `rtmp://`.
pub fn play_address(uri: &str) -> (r: core::result::Result<String, SourceError>)
    ensures
        match r {
            Ok(s) => dialled(uri@) == Ok::<Seq<char>, SourceFault>(s@),
            Err(e) => dialled(uri@) == Err::<Seq<char>, SourceFault>(e@),
        },
{
    proof {
        reveal_strlit("rtmp-play://");
    }
    if !starts_with(uri, "rtmp-play://") {
        return Err(SourceError::InvalidData(cat("not an rtmp-play:// URL: ", uri)));
    }
    Ok(cat("rtmp://", tail_of(uri, 12)))
}

// ---------------------------------------------------------------------------
// Laws
// ---------------------------------------------------------------------------

/// A publisher that announces what an address names is welcome, and where the address
/// names neither app nor stream, everybody is.
pub proof fn law_announced_publisher_is_welcome(url: ListenView, app: Seq<char>, stream: Seq<char>)
    ensures
        turned_away(url, url.expected_app, url.expected_stream) is None,
        url.expected_app.len() == 0 && url.expected_stream.len() == 0 ==> turned_away(
            url,
            app,
            stream,
        ) is None,
        turned_away(url, app, stream) is Some <==> (url.expected_app.len() > 0 && app
            != url.expected_app) || (url.expected_stream.len() > 0 && stream
            != url.expected_stream),
{
}

/// An address that names a host, a port, an app and a stream binds to that host and
/// port and expects that app and stream.
pub proof fn law_listen_url_names_what_it_says(
    host: Seq<char>,
    port: u16,
    app: Seq<char>,
    stream: Seq<char>,
)
    requires
        host.len() > 0,
        free_of(host, '/'),
        free_of(app, '/'),
    ensures
        listen_of(
            "rtmp://"@ + host + ":"@ + decimal(port as nat) + "/"@ + app + "/"@ + stream,
        ) == Ok::<ListenView, SourceFault>(
            ListenView {
                bind_addr: host + ":"@ + decimal(port as nat),
                expected_app: app,
                expected_stream: stream,
            },
        ),
{
    crate::client::url::law_url_round_trip(host, port, app, stream);
}

/// Without a host every local address is bound, without a port port 1935, and without
/// a stream any stream is welcome.
pub proof fn law_short_listen_address(
    host: Seq<char>,
    port: u16,
    app: Seq<char>,
    stream: Seq<char>,
)
    requires
        forall|i: int| 0 <= i < host.len() ==> (#[trigger] host[i]) != '/' && host[i] != ':',
        forall|i: int| 0 <= i < app.len() ==> (#[trigger] app[i]) != '/',
    ensures
        ({
            let bound = if host.len() == 0 {
                "0.0.0.0"@
            } else {
                host
            };
            &&& listen_of("rtmp://"@ + host + "/"@ + app + "/"@ + stream) == Ok::<
                ListenView,
                SourceFault,
            >(
                ListenView {
                    bind_addr: bound + ":"@ + decimal(1935),
                    expected_app: app,
                    expected_stream: stream,
                },
            )
            &&& listen_of("rtmp://"@ + host + "/"@ + app) == Ok::<ListenView, SourceFault>(
                ListenView {
                    bind_addr: bound + ":"@ + decimal(1935),
                    expected_app: app,
                    expected_stream: Seq::empty(),
                },
            )
            &&& listen_of(
                "rtmp://"@ + host + ":"@ + decimal(port as nat) + "/"@ + app + "/"@ + stream,
            ) == Ok::<ListenView, SourceFault>(
                ListenView {
                    bind_addr: bound + ":"@ + decimal(port as nat),
                    expected_app: app,
                    expected_stream: stream,
                },
            )
        }),
{
    crate::client::url::law_url_round_trip(host, port, app, stream);
    crate::client::url::law_short_address(host, app, stream);
}

/// What is no address to listen on is refused: a text that does not start with
/// `rtmp://`, and one that has no slash behind that.
pub proof fn law_texts_not_to_listen_on(url: Seq<char>, rest: Seq<char>)
    requires
        url.len() < 7 || url.subrange(0, 7) != "rtmp://"@,
        forall|i: int| 0 <= i < rest.len() ==> (#[trigger] rest[i]) != '/',
    ensures
        listen_of(url) == Err::<ListenView, SourceFault>(
            SourceFault::InvalidData("not an rtmp:// URL: "@ + url),
        ),
        listen_of("rtmp://"@ + rest) == Err::<ListenView, SourceFault>(
            SourceFault::InvalidData("rtmp URL missing /app: "@ + ("rtmp://"@ + rest)),
        ),
{
    reveal_strlit("rtmp://");
    let bare = "rtmp://"@ + rest;
    assert(bare.subrange(0, 7) =~= "rtmp://"@);
    assert(tail(bare, 7) =~= rest);
    crate::search::lemma_no_char(rest, 0, '/');
}

/// A publisher is told which of the two did not match, the app before the stream.
pub proof fn law_publisher_is_told_why(url: ListenView, app: Seq<char>, stream: Seq<char>)
    ensures
        url.expected_app.len() > 0 && app != url.expected_app ==> (turned_away(url, app, stream)
            matches Some((reason, e)) && reason == "unexpected app"@ && e
            == SourceFault::InvalidData(
            "rtmp publisher app mismatch: expected "@ + quoted(url.expected_app) + ", got "@
                + quoted(app),
        )),
        (url.expected_app.len() == 0 || app == url.expected_app) && url.expected_stream.len() > 0
            && stream != url.expected_stream ==> (turned_away(url, app, stream) matches Some(
            (reason, e),
        ) && reason == "unexpected stream key"@ && e == SourceFault::InvalidData(
            "rtmp publisher stream-name mismatch: expected "@ + quoted(url.expected_stream)
                + ", got "@ + quoted(stream),
        )),
{
}

/// `rtmp-play://` in front of an address is dialled as `rtmp://`, and nothing else is
/// an address to play from.
pub proof fn law_play_address(rest: Seq<char>, other: Seq<char>)
    requires
        other.len() < 12 || other.subrange(0, 12) != "rtmp-play://"@,
    ensures
        dialled("rtmp-play://"@ + rest) == Ok::<Seq<char>, SourceFault>("rtmp://"@ + rest),
        dialled(other) == Err::<Seq<char>, SourceFault>(
            SourceFault::InvalidData("not an rtmp-play:// URL: "@ + other),
        ),
{
    reveal_strlit("rtmp-play://");
    let uri = "rtmp-play://"@ + rest;
    assert(uri.subrange(0, 12) =~= "rtmp-play://"@);
    assert(tail(uri, 12) =~= rest);
}

/// How each error is reported: failures of the transport and the end as they are, what
/// breaks the protocol as invalid data, and the rest under its text.
pub proof fn law_errors_are_reported(kind: IoErrorKind, m: Seq<char>, version: u8)
    ensures
        reported(Fault::Io(kind, m)) == SourceFault::Io(kind, m),
        reported(Fault::UnexpectedEof) == SourceFault::Eof,
        reported(Fault::Timeout) == SourceFault::Other("rtmp: timeout"@),
        reported(Fault::Rejected(m)) == SourceFault::Other("rtmp: rejected: "@ + m),
        reported(Fault::ProtocolViolation(m)) == SourceFault::InvalidData("rtmp protocol: "@ + m),
        reported(Fault::InvalidAmf0(m)) == SourceFault::InvalidData("rtmp amf0: "@ + m),
        reported(Fault::InvalidChunk(m)) == SourceFault::InvalidData("rtmp chunk: "@ + m),
        reported(Fault::InvalidCommand(m)) == SourceFault::InvalidData("rtmp command: "@ + m),
        reported(Fault::UnsupportedHandshakeVersion(version)) == SourceFault::Unsupported(
            "rtmp handshake version 0x"@ + fixed_hex(version as nat, 2),
        ),
        reported(Fault::Other(m)) == SourceFault::Other("rtmp: "@ + m),
{
}

/// A publisher is let in exactly if the app and the stream are those that are expected, where
/// any are, and is told the reason otherwise.
pub proof fn law_publishers_are_let_in(
    u: &ListenUrl,
    app: &str,
    stream: &str,
    r: Option<(&'static str, SourceError)>,
)
    requires
        call_ensures(ListenUrl::refusal, (u, app, stream), r),
    ensures
        r is None <==> (u@.expected_app.len() == 0 || u@.expected_app == app@) && (
        u@.expected_stream.len() == 0 || u@.expected_stream == stream@),
        r matches Some((reason, e)) ==> reason@ == (if u@.expected_app.len() > 0 && u@.expected_app
            != app@ {
            "unexpected app"@
        } else {
            "unexpected stream key"@
        }) && e is InvalidData,
{
}

/// Addresses to listen on and to play from are read, and errors reported, as is said here.
pub proof fn law_sources_are_named(
    uri: &str,
    e: Error,
    a: core::result::Result<ListenUrl, SourceError>,
    b: core::result::Result<String, SourceError>,
    c: SourceError,
)
    requires
        call_ensures(ListenUrl::parse, (uri,), a),
        call_ensures(play_address, (uri,), b),
        call_ensures(rtmp_to_core_err, (e,), c),
    ensures
        match a {
            Ok(u) => listen_of(uri@) == Ok::<ListenView, SourceFault>(u@),
            Err(f) => listen_of(uri@) == Err::<ListenView, SourceFault>(f@),
        },
        b is Ok <==> exists|rest: Seq<char>| uri@ == "rtmp-play://"@ + rest,
        forall|rest: Seq<char>|
            uri@ == "rtmp-play://"@ + rest ==> (b matches Ok(s) && s@ == "rtmp://"@ + rest),
        b matches Err(f) ==> f@ == SourceFault::InvalidData("not an rtmp-play:// URL: "@ + uri@),
        c@ == reported(e@),
{
    reveal_strlit("rtmp-play://");
    assert forall|rest: Seq<char>| uri@ == "rtmp-play://"@ + rest implies (b matches Ok(s) && s@
        == "rtmp://"@ + rest) by {
        law_play_address(rest, Seq::empty());
    }
    if uri@.len() < 12 || uri@.subrange(0, 12) != "rtmp-play://"@ {
        law_play_address(Seq::empty(), uri@);
    } else {
        assert(uri@ =~= "rtmp-play://"@ + uri@.subrange(12, uri@.len() as int));
    }
}

} // verus!
