use vstd::prelude::*;

use crate::codec::{base64_encoding, encode_key};
use crate::text::{chars_of, decimal_chars, decimal_text, string_of, trim, trim_chars};

verus! {

/// An HTTP request header.
pub struct Header {
    pub name: String,
    pub value: String,
}

/// The user agent the client announces itself with.
pub open spec fn user_agent() -> Seq<char> {
    "sitepi/0.0.9"@
}

/// The headers of an authorization request: the user agent, then the public
/// key in base64, the listen port in decimal and the provision code, each
/// where it is known.
pub open spec fn authorize_headers_view(
    public_key: Option<Seq<u8>>,
    listen_port: Option<u16>,
    provision_code: Option<Seq<char>>,
) -> Seq<(Seq<char>, Seq<char>)> {
    seq![("User-Agent"@, user_agent())] + match public_key {
        Some(k) => seq![("PUBKEY"@, base64_encoding(k))],
        None => Seq::empty(),
    } + match listen_port {
        Some(p) => seq![("LISTEN-PORT"@, decimal_text(p as nat))],
        None => Seq::empty(),
    } + match provision_code {
        Some(c) => seq![("PROVISION-CODE"@, c)],
        None => Seq::empty(),
    }
}

pub open spec fn headers_view(h: Seq<Header>) -> Seq<(Seq<char>, Seq<char>)> {
    Seq::new(h.len(), |i: int| (h[i].name@, h[i].value@))
}

fn header(name: &str, value: String) -> (h: Header)
    ensures
        h.name@ == name@,
        h.value@ == value@,
{
    Header { name: name.to_owned(), value }
}

/// The headers to send with an authorization request.
pub fn authorize_headers(
    public_key: Option<[u8; 32]>,
    listen_port: Option<u16>,
    provision_code: &Option<String>,
) -> (r: Vec<Header>)
    ensures
        headers_view(r@) == authorize_headers_view(
            match public_key {
                Some(k) => Some(k@),
                None => None,
            },
            listen_port,
            match provision_code {
                Some(c) => Some(c@),
                None => None,
            },
        ),
{
    let mut r: Vec<Header> = Vec::new();
    r.push(header("User-Agent", "sitepi/0.0.9".to_owned()));
    let ghost h0 = headers_view(r@);
    if let Some(k) = public_key {
        r.push(header("PUBKEY", encode_key(&k)));
    }
    let ghost h1 = headers_view(r@);
    if let Some(p) = listen_port {
        r.push(header("LISTEN-PORT", string_of(&decimal_chars(p))));
    }
    let ghost h2 = headers_view(r@);
    if let Some(c) = provision_code {
        r.push(header("PROVISION-CODE", c.clone()));
    }
    proof {
        let pk = match public_key {
            Some(k) => Some(k@),
            None => None,
        };
        let pc = match provision_code {
            Some(c) => Some(c@),
            None => None,
        };
        assert(h0 =~= seq![("User-Agent"@, user_agent())]);
        assert(h1 =~= h0 + match pk {
            Some(k) => seq![("PUBKEY"@, base64_encoding(k))],
            None => Seq::empty(),
        });
        assert(h2 =~= h1 + match listen_port {
            Some(p) => seq![("LISTEN-PORT"@, decimal_text(p as nat))],
            None => Seq::empty(),
        });
        assert(headers_view(r@) =~= h2 + match pc {
            Some(c) => seq![("PROVISION-CODE"@, c)],
            None => Seq::empty(),
        });
    }
    r
}

/// The authorization endpoint of a server.
pub fn authorize_url(server: &String) -> (r: String)
    ensures
        r@ == server@ + "/authorize"@,
{
    let mut r = server.clone();
    r.append("/authorize");
    r
}

/// Why the server did not authorize the client.
#[derive(Clone, Copy, Debug, PartialEq, Eq, Structural)]
pub enum AuthorizeError {
    /// 403: the key is not registered or the provision code is not valid.
    Denied,
    /// Any other status outside 2xx.
    Rejected(u16),
}

/// Whether an HTTP status is a success (2xx).
pub open spec fn is_success(status: u16) -> bool {
    200 <= status < 300
}

/// Reads the status of an authorization response.
pub fn check_authorize_status(status: u16) -> (r: Result<(), AuthorizeError>)
    ensures
        is_success(status) ==> r is Ok,
        !is_success(status) && status == 403 ==> r == Err::<(), AuthorizeError>(
            AuthorizeError::Denied,
        ),
        !is_success(status) && status != 403 ==> r == Err::<(), AuthorizeError>(
            AuthorizeError::Rejected(status),
        ),
{
    if 200 <= status && status < 300 {
        Ok(())
    } else if status == 403 {
        Err(AuthorizeError::Denied)
    } else {
        Err(AuthorizeError::Rejected(status))
    }
}

/// What the control stream is opened with.
pub struct ConnectTarget {
    pub session: String,
    pub url: String,
}

/// Why the control stream could not be opened.
#[derive(Clone, Copy, Debug, PartialEq, Eq, Structural)]
pub enum ConnectError {
    /// The authorization response named no session.
    MissingSession,
    /// The authorization response named no stream URL.
    MissingUrl,
    /// The stream answered with a status outside 2xx.
    Refused(u16),
}

/// The session and stream URL given by the authorization response, both
/// required (the session is looked at first).
pub fn connect_target(session: Option<String>, url: Option<String>) -> (r: Result<
    ConnectTarget,
    ConnectError,
>)
    ensures
        session is None ==> r == Err::<ConnectTarget, ConnectError>(ConnectError::MissingSession),
        session is Some && url is None ==> r == Err::<ConnectTarget, ConnectError>(
            ConnectError::MissingUrl,
        ),
        session is Some && url is Some ==> (r matches Ok(t) && t.session == session->0 && t.url
            == url->0),
{
    let session = match session {
        Some(s) => s,
        None => {
            return Err(ConnectError::MissingSession);
        },
    };
    let url = match url {
        Some(u) => u,
        None => {
            return Err(ConnectError::MissingUrl);
        },
    };
    Ok(ConnectTarget { session, url })
}

/// Reads the status of the control stream's response.
pub fn check_stream_status(status: u16) -> (r: Result<(), ConnectError>)
    ensures
        is_success(status) ==> r is Ok,
        !is_success(status) ==> r == Err::<(), ConnectError>(ConnectError::Refused(status)),
{
    if 200 <= status && status < 300 {
        Ok(())
    } else {
        Err(ConnectError::Refused(status))
    }
}

/// The message carried by a line of the control stream: the line trimmed, or
/// nothing for a blank line.
pub fn stream_message(line: &str) -> (r: Option<String>)
    ensures
        trim(line@).len() == 0 ==> r is None,
        trim(line@).len() > 0 ==> (r matches Some(m) && m@ == trim(line@)),
{
    let t = trim_chars(&chars_of(line));
    if t.len() == 0 {
        None
    } else {
        Some(string_of(&t))
    }
}

} // verus!
