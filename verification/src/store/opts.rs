//! The options of the commands that have some.

use vstd::prelude::*;

verus! {

/// The options of the handshake.
#[derive(Debug, Clone, PartialEq, Eq)]
pub struct HelloOpts {
    /// The protocol version to speak: `2` or `3`.
    pub proto_ver: Option<String>,
    /// The name and the password to authenticate with.
    pub auth: Option<(String, String)>,
    /// The name to give this client.
    pub client_name: Option<String>,
}

impl HelloOpts {
    /// Whether the options can be sent: authentication and a client name
    /// both need a protocol version.
    pub open spec fn valid(&self) -> bool {
        self.proto_ver is None ==> self.auth is None && self.client_name is None
    }
}

/// The options of HRANDFIELD.
#[derive(Debug, Clone, Copy, PartialEq, Eq)]
pub struct HrandfieldOpts {
    /// How many fields to draw; a negative count lets a field be drawn more
    /// than once.
    pub count: Option<i64>,
    /// Whether each field comes with its value.
    pub with_values: Option<bool>,
}

impl HrandfieldOpts {
    /// Whether values are asked for.
    pub open spec fn wants_values(&self) -> bool {
        self.with_values == Some(true)
    }

    /// Whether the options can be sent: values need a count.
    pub open spec fn valid(&self) -> bool {
        self.wants_values() ==> self.count is Some
    }
}

/// The options of HSCAN.
#[derive(Debug, Clone, PartialEq, Eq)]
pub struct HscanOpts {
    /// The glob pattern that a field must match.
    pub match_: Option<String>,
    /// A hint at how many fields to look at in one call.
    pub count: Option<i64>,
    /// Whether fields come without their values.
    pub no_values: Option<bool>,
}

impl HscanOpts {
    /// Whether fields are asked for without their values.
    pub open spec fn omits_values(&self) -> bool {
        self.no_values == Some(true)
    }
}

/// Whether the options of HRANDFIELD, if there are any, ask for values.
pub open spec fn wants_values(opts: Option<HrandfieldOpts>) -> bool {
    opts is Some && opts->0.wants_values()
}

/// Whether the options of HSCAN, if there are any, ask for fields without
/// their values.
pub open spec fn omits_values(opts: Option<HscanOpts>) -> bool {
    opts is Some && opts->0.omits_values()
}

} // verus!
