//! Types of other crates that the library carries through its own types
//! without looking inside them.  Each declaration only makes the type known
//! to Verus; nothing is claimed about what a value of it holds.

use vstd::prelude::*;

verus! {

/// `reqwest::Error`: an HTTP request that failed.
#[verifier::external_type_specification]
#[verifier::external_body]
pub struct ExReqwestError(reqwest::Error);

/// `tungstenite::Error` (as re-exported by `tokio_tungstenite`): a WebSocket
/// failure.
#[verifier::external_type_specification]
#[verifier::external_body]
pub struct ExTungsteniteError(tokio_tungstenite::tungstenite::Error);

/// `tokio::sync::TryLockError`: a lock that was already held.
#[verifier::external_type_specification]
#[verifier::external_body]
pub struct ExTryLockError(tokio::sync::TryLockError);

/// `tokio::sync::mpsc::error::SendError`: a message whose channel was closed.
#[verifier::external_type_specification]
#[verifier::external_body]
#[verifier::reject_recursive_types(T)]
pub struct ExSendError<T>(tokio::sync::mpsc::error::SendError<T>);

/// `serde_json::Value`: a JSON value of a reply, carried as it came.
#[verifier::external_type_specification]
#[verifier::external_body]
pub struct ExJsonValue(serde_json::Value);

/// `serde_json::Number`: a JSON number, carried as it came.
#[verifier::external_type_specification]
#[verifier::external_body]
pub struct ExJsonNumber(serde_json::Number);

/// `url::ParseError`: why a URL did not parse.
#[verifier::external_type_specification]
#[verifier::external_body]
pub struct ExUrlParseError(url::ParseError);

/// `std::io::Error`: a failed socket operation of the HTTP gateway.
#[verifier::external_type_specification]
#[verifier::external_body]
pub struct ExIoError(std::io::Error);

/// `tokio::sync::Mutex`: the lock around the WebSocket of a connected session.
#[verifier::external_type_specification]
#[verifier::external_body]
#[verifier::reject_recursive_types(T)]
pub struct ExTokioMutex<T: ?Sized>(tokio::sync::Mutex<T>);

/// `tokio_tungstenite::WebSocketStream`: an open WebSocket.
#[verifier::external_type_specification]
#[verifier::external_body]
#[verifier::reject_recursive_types(S)]
pub struct ExWebSocketStream<S>(tokio_tungstenite::WebSocketStream<S>);

/// `tokio_tungstenite::MaybeTlsStream`: the transport under a WebSocket.
#[verifier::external_type_specification]
#[verifier::external_body]
#[verifier::reject_recursive_types(S)]
pub struct ExMaybeTlsStream<S>(tokio_tungstenite::MaybeTlsStream<S>);

/// `tokio::net::TcpStream`: a TCP connection.
#[verifier::external_type_specification]
#[verifier::external_body]
pub struct ExTcpStream(tokio::net::TcpStream);

} // verus!
