//! What a store that keeps its buckets in hashes is configured with.

use vstd::prelude::*;
use vstd::string::StringExecFns;
use vstd::string::StringSliceAdditionalSpecFns;
use crate::resp::decimal::{parse_decimal, parse_i64};
use crate::store::opts::HelloOpts;

verus! {

/// The host to connect to where none is configured.
pub const HOSTNAME_DEFAULT: &'static str = "127.0.0.1";

/// The port to connect to where none is configured.
pub const PORT_DEFAULT: u16 = 6379;

/// The user to authenticate as where a password is configured and no user.
pub const USERNAME_DEFAULT: &'static str = "default";

/// The protocol version that such a store speaks.
pub const PROTO_VER: &'static str = "3";

/// The port that a text names: digits, with or without a plus sign before
/// them, whose number is at most 65535.
pub open spec fn port_of(text: Seq<u8>) -> Option<u16> {
    if text.len() > 0 && text[0] == 45 {
        None
    } else {
        match parse_i64(text) {
            Some(n) => if 0 <= n <= 65535 {
                Some(n as u16)
            } else {
                None
            },
            None => None,
        }
    }
}

/// Reads a port from its text.
pub fn parse_port(text: &str) -> (r: Option<u16>)
    ensures
        r == port_of(text.spec_bytes()),
{
    let bytes: &[u8] = text.as_bytes();
    if bytes.len() > 0 && bytes[0] == 45u8 {
        return None;
    }
    match parse_decimal(bytes) {
        Some(n) => {
            if 0 <= n && n <= 65535 {
                Some(n as u16)
            } else {
                None
            }
        },
        None => None,
    }
}

/// The port to connect to: the configured one, or the default where none
/// is configured; none where the configured text is no port.
pub fn port_setting(configured: Option<&str>) -> (r: Option<u16>)
    ensures
        r == match configured {
            Some(text) => port_of(text.spec_bytes()),
            None => Some(PORT_DEFAULT),
        },
{
    match configured {
        Some(text) => parse_port(text),
        None => Some(PORT_DEFAULT),
    }
}

/// The host to connect to: the configured one, or the default.
pub fn hostname_setting(configured: Option<&str>) -> (r: String)
    ensures
        r@ == match configured {
            Some(text) => text@,
            None => HOSTNAME_DEFAULT@,
        },
{
    match configured {
        Some(text) => String::from_str(text),
        None => String::from_str(HOSTNAME_DEFAULT),
    }
}

/// The options of the handshake of such a store: protocol version 3, and
/// authentication exactly where a password is configured, as the configured
/// user or the default one.
pub fn handshake(username: Option<&str>, password: Option<&str>) -> (r: HelloOpts)
    ensures
        r.valid(),
        r.proto_ver is Some && r.proto_ver->0@ == PROTO_VER@,
        r.client_name is None,
        r.auth.deep_view() == (match password {
            Some(password) => Some(
                (
                    match username {
                        Some(name) => name@,
                        None => USERNAME_DEFAULT@,
                    },
                    password@,
                ),
            ),
            None => None,
        }),
{
    let auth: Option<(String, String)> = match password {
        Some(password) => {
            let name: &str = match username {
                Some(name) => name,
                None => USERNAME_DEFAULT,
            };
            Some((String::from_str(name), String::from_str(password)))
        },
        None => None,
    };
    HelloOpts { proto_ver: Some(String::from_str(PROTO_VER)), auth, client_name: None }
}

/// The key of the hash that keeps a bucket: the configured prefix, if there
/// is one, then the name of the bucket.
pub fn hash_key(prefix: Option<&str>, identifier: &str) -> (r: String)
    ensures
        r@ == (match prefix {
            Some(prefix) => prefix@,
            None => Seq::<char>::empty(),
        }) + identifier@,
{
    match prefix {
        Some(prefix) => String::from_str(prefix).concat(identifier),
        None => {
            proof {
                assert(Seq::<char>::empty() + identifier@ =~= identifier@);
            }
            String::from_str(identifier)
        },
    }
}

} // verus!
