//! Startup-time configuration rules: the fixed listen address, the ALPN
//! preference list, and the demand that the key file holds exactly one
//! private key.  Reading and decoding the PEM files themselves is I/O and
//! lives in the surrounding application; this module decides what counts as
//! valid material.

use vstd::prelude::*;
use vstd::string::StringExecFns;

verus! {

/// Why startup was refused.
#[derive(Clone, Copy, PartialEq, Eq, Structural, Debug)]
pub enum StartupError {
    /// The key file did not contain exactly one private key.
    NotSingleKey,
}

impl StartupError {
    /// The message reported to the host when startup fails.
    pub fn message(&self) -> (r: String)
        ensures
            r@ == "expected a single private key"@,
    {
        String::from_str("expected a single private key")
    }
}

/// The fixed loopback TLS listen address.
pub fn listen_address() -> (r: String)
    ensures
        r@ == "127.0.0.1:443"@,
{
    String::from_str("127.0.0.1:443")
}

/// The ALPN protocols offered during the TLS handshake, most preferred
/// first: HTTP/2, then HTTP/1.1.
pub fn alpn_protocols() -> (r: Vec<String>)
    ensures
        r@.len() == 2,
        r@[0]@ == "h2"@,
        r@[1]@ == "http/1.1"@,
{
    let mut r: Vec<String> = Vec::new();
    r.push(String::from_str("h2"));
    r.push(String::from_str("http/1.1"));
    r
}

/// Accept the decoded key list only when it holds exactly one key, and hand
/// that key back; any other count is a fatal startup error.
pub fn select_single_private_key(keys: Vec<Vec<u8>>) -> (r: Result<Vec<u8>, StartupError>)
    ensures
        keys@.len() == 1 ==> (r matches Ok(k) && k@ == keys@[0]@),
        keys@.len() != 1 ==> r == Result::<Vec<u8>, StartupError>::Err(StartupError::NotSingleKey),
{
    let mut keys = keys;
    if keys.len() != 1 {
        return Err(StartupError::NotSingleKey);
    }
    match keys.pop() {
        Some(k) => Ok(k),
        None => Err(StartupError::NotSingleKey),
    }
}

} // verus!
