//! The operator-facing service front: the accepted-connection state a service
//! instance is built over, the decisions behind its health and control
//! endpoints — among them the single administrative "drop caches" operation —
//! and the websocket accept key computed during a protocol upgrade.

use vstd::prelude::*;

use core::marker::PhantomData;

use crate::digest::base64_of;
use crate::digest::base64_string;
use crate::digest::sha1_bytes;
use crate::digest::sha1_of;
use crate::util::bytes_eq;

verus! {

/// Listener-wide state shared by every connection it accepts.
pub struct Acceptor {
    /// Whether the server is draining and should report itself as exiting.
    pub will_exit: bool,
    /// The hostname this server reports in its responses.
    pub server_hostname: String,
}

/// What the listener hands over for one accepted connection.
pub struct PendingConnection {
    pub acceptor: Acceptor,
}

/// An accepted connection, trusted or not.
pub struct AcceptedConnection {
    pub pending: PendingConnection,
    pub is_trusted: bool,
}

/// The per-connection service front, parameterized over the socket type the
/// connection will be driven on.
pub struct MononokeHttpService<S> {
    pub conn: AcceptedConnection,
    pub sock: PhantomData<S>,
}

impl<S> MononokeHttpService<S> {
    /// A service instance over one accepted connection.
    pub fn new(conn: AcceptedConnection) -> (r: Self)
        ensures
            r.conn == conn,
    {
        Self { conn, sock: PhantomData }
    }

    /// The listener state behind this connection.
    pub fn acceptor(&self) -> (r: &Acceptor)
        ensures
            r == &self.conn.pending.acceptor,
    {
        &self.conn.pending.acceptor
    }

    /// The health endpoint's answer: draining servers say so.
    pub fn health_response(&self) -> (r: &'static str)
        ensures
            self.conn.pending.acceptor.will_exit ==> r@ == "EXITING"@,
            !self.conn.pending.acceptor.will_exit ==> r@ == "I_AM_ALIVE"@,
    {
        if self.acceptor().will_exit {
            "EXITING"
        } else {
            "I_AM_ALIVE"
        }
    }
}

/// The request method, as far as the control surface distinguishes it.
#[derive(Clone, Copy, Debug, PartialEq, Eq, Structural)]
pub enum Method {
    Get,
    Post,
    Other,
}

/// What a control request asks for.
#[derive(Clone, Copy, Debug, PartialEq, Eq, Structural)]
pub enum ControlDecision {
    /// Drop every cache without restarting: the one administrative
    /// invalidation operation.
    DropCaches,
    /// Control operations only answer to POST.
    NotAcceptable,
    /// No such control operation.
    NotFound,
}

/// The control path that requests the cache drop.
pub open spec fn drop_caches_path() -> Seq<u8> {
    seq![
        47u8, 100, 114, 111, 112, 95, 98, 111, 111, 107, 109, 97, 114, 107, 115, 95, 99, 97, 99,
        104, 101,
    ]
}

/// The path (under the control root) that requests the cache drop, as bytes
/// of `/drop_bookmarks_cache`.
pub fn drop_caches_path_bytes() -> (r: Vec<u8>)
    ensures
        r@ == drop_caches_path(),
{
    let r = vec![
        47u8, 100, 114, 111, 112, 95, 98, 111, 111, 107, 109, 97, 114, 107, 115, 95, 99, 97, 99,
        104, 101,
    ];
    proof {
        assert(r@ =~= drop_caches_path());
    }
    r
}

/// Decide a control request: only POST is acceptable, and the one supported
/// operation is the cache drop.
pub fn control_decision(method: Method, path: &[u8]) -> (r: ControlDecision)
    ensures
        method != Method::Post ==> r == ControlDecision::NotAcceptable,
        method == Method::Post && path@ == drop_caches_path() ==> r == ControlDecision::DropCaches,
        method == Method::Post && path@ != drop_caches_path() ==> r == ControlDecision::NotFound,
{
    match method {
        Method::Post => {
            let expected = drop_caches_path_bytes();
            if bytes_eq(path, expected.as_slice()) {
                ControlDecision::DropCaches
            } else {
                ControlDecision::NotFound
            }
        },
        _ => ControlDecision::NotAcceptable,
    }
}

/// The fixed bytes every websocket accept key folds in.
pub open spec fn websocket_magic() -> Seq<u8> {
    seq![
        50u8, 53, 56, 69, 65, 70, 65, 53, 45, 69, 57, 49, 52, 45, 52, 55, 68, 65, 45, 57, 53, 67,
        65, 45, 67, 53, 65, 66, 48, 68, 67, 56, 53, 66, 49, 49,
    ]
}

/// The fixed websocket handshake suffix, as bytes of
/// `258EAFA5-E914-47DA-95CA-C5AB0DC85B11`.
pub fn websocket_magic_bytes() -> (r: Vec<u8>)
    ensures
        r@ == websocket_magic(),
{
    let r = vec![
        50u8, 53, 56, 69, 65, 70, 65, 53, 45, 69, 57, 49, 52, 45, 52, 55, 68, 65, 45, 57, 53, 67,
        65, 45, 67, 53, 65, 66, 48, 68, 67, 56, 53, 66, 49, 49,
    ];
    proof {
        assert(r@ =~= websocket_magic());
    }
    r
}

/// The accept key a websocket upgrade answers with: the base64 rendering of
/// the SHA-1 digest of the client's key followed by the fixed handshake
/// suffix. A missing client key falls back to the suffix alone: the header is
/// only needed by clients that sent one.
pub fn calculate_websocket_accept(client_key: Option<&Vec<u8>>) -> (r: String)
    ensures
        r@ == base64_of(
            sha1_of(
                (match client_key {
                    Some(k) => k@,
                    None => Seq::<u8>::empty(),
                }) + websocket_magic(),
            ),
        ),
{
    let mut input: Vec<u8> = Vec::new();
    match client_key {
        Some(k) => {
            let mut i: usize = 0;
            while i < k.len()
                invariant
                    i <= k@.len(),
                    input@ == k@.take(i as int),
                decreases k@.len() - i,
            {
                input.push(k[i]);
                i += 1;
                proof {
                    assert(input@ =~= k@.take(i as int));
                }
            }
            proof {
                assert(k@.take(k@.len() as int) =~= k@);
            }
        },
        None => {
            proof {
                assert(input@ =~= Seq::<u8>::empty());
            }
        },
    }
    let mut magic = websocket_magic_bytes();
    input.append(&mut magic);
    let digest = sha1_bytes(input.as_slice());
    base64_string(digest.as_slice())
}

} // verus!
