//! Settings of a broker.

use crate::bytes::texts_equal;
use vstd::prelude::*;

verus! {

/// Bytes of a mebibyte.
pub const MIB: usize = 1048576;

#[derive(Debug, Clone)]
pub struct Config {
    /// Where clients connect.
    pub addr: String,
    /// Where the admin plane is served.
    pub http_addr: String,
    /// Accept shards.
    pub cores: usize,
    /// `mem` or `file`.
    pub mode: String,
    /// Size of the ring in memory mode.
    pub mem_mb: usize,
    /// The ring file, in file mode.
    pub file: String,
    /// Size of the ring in file mode.
    pub ring_capacity_mb: usize,
    /// The token that clients must present first.
    pub auth_token: Option<String>,
    /// A file with that token. It counts more than `auth_token`.
    pub auth_token_file: Option<String>,
    /// PEM certificate chain; goes with `tls_key`.
    pub tls_cert: Option<String>,
    /// PEM private key; goes with `tls_cert`.
    pub tls_key: Option<String>,
    /// The password of the admin plane.
    pub http_auth_token: Option<String>,
    /// A file with that password. It counts more than `http_auth_token`.
    pub http_auth_token_file: Option<String>,
    /// Serve the admin plane on the loopback address only.
    pub http_loopback_only: bool,
    /// Most connections at a time.
    pub max_connections: Option<usize>,
    /// Time for the TLS handshake and for the token.
    pub auth_timeout_secs: u64,
    /// Acknowledge when the record is safe.
    pub durable_acks: bool,
    /// How long an acknowledgement waits for that.
    pub durable_ack_timeout_secs: u64,
    /// `overwrite` or `reject`.
    pub on_overflow: String,
}

impl Default for Config {
    fn default() -> (c: Config)
        ensures
            c.addr@ == "0.0.0.0:9090"@,
            c.http_addr@ == "0.0.0.0:9091"@,
            c.cores == 1,
            c.mode@ == "mem"@,
            c.mem_mb == 256,
            c.file@ == "/tmp/zhensegg.ring"@,
            c.ring_capacity_mb == 1_000_000,
            c.auth_token is None,
            c.auth_token_file is None,
            c.tls_cert is None,
            c.tls_key is None,
            c.http_auth_token is None,
            c.http_auth_token_file is None,
            !c.http_loopback_only,
            c.max_connections is None,
            c.auth_timeout_secs == 10,
            c.durable_acks,
            c.durable_ack_timeout_secs == 10,
            c.on_overflow@ == "overwrite"@,
    {
        Config {
            addr: "0.0.0.0:9090".to_owned(),
            http_addr: "0.0.0.0:9091".to_owned(),
            cores: 1,
            mode: "mem".to_owned(),
            mem_mb: 256,
            file: "/tmp/zhensegg.ring".to_owned(),
            ring_capacity_mb: 1_000_000,
            auth_token: None,
            auth_token_file: None,
            tls_cert: None,
            tls_key: None,
            http_auth_token: None,
            http_auth_token_file: None,
            http_loopback_only: false,
            max_connections: None,
            auth_timeout_secs: 10,
            durable_acks: true,
            durable_ack_timeout_secs: 10,
            on_overflow: "overwrite".to_owned(),
        }
    }
}

impl Config {
    pub fn ring_capacity_bytes(&self) -> (n: usize)
        requires
            self.ring_capacity_mb * MIB <= usize::MAX,
        ensures
            n == self.ring_capacity_mb * MIB,
            n == self.ring_capacity_mb * 1048576,
    {
        self.ring_capacity_mb * MIB
    }

    pub fn mem_capacity_bytes(&self) -> (n: usize)
        requires
            self.mem_mb * MIB <= usize::MAX,
        ensures
            n == self.mem_mb * MIB,
            n == self.mem_mb * 1048576,
    {
        self.mem_mb * MIB
    }

    pub fn is_file_mode(&self) -> (yes: bool)
        ensures
            yes == (self.mode@ == "file"@),
    {
        texts_equal(self.mode.as_str(), "file")
    }

    /// Whether records that would overwrite undelivered ones are refused.
    pub fn rejects_overflow(&self) -> (yes: bool)
        ensures
            yes == (self.on_overflow@ == "reject"@),
    {
        texts_equal(self.on_overflow.as_str(), "reject")
    }
}

} // verus!
