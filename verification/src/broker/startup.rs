//! What a broker sets up, by its settings.

use crate::bytes::copy_bytes;
use crate::config::{Config, MIB};
use crate::protocol::wire::put_bytes;
use vstd::prelude::*;
use vstd::slice::slice_subrange;
use vstd::string::*;

verus! {

/// How many shards the subscription table has.
pub const SHARDS: usize = 64;

/// Which store to open.
#[derive(Debug, Clone, Copy, PartialEq, Eq, Structural)]
pub enum StorePlan {
    /// A ring of so many bytes in memory.
    Memory(usize),
    /// A ring of so many bytes in the file of the settings.
    File(usize),
}

/// What to set up.
pub struct Plan {
    pub store: StorePlan,
    /// Refuse what would overwrite undelivered records.
    pub reject_overflow: bool,
    /// Accept on so many shards, each on its own thread; one means no shards.
    pub threads: usize,
    /// Where to serve the admin plane.
    pub http_addr: Vec<u8>,
    /// Milliseconds for the TLS handshake, and again for the token.
    pub auth_timeout_ms: u64,
}

/// A ring of so many mebibytes can be made.
pub open spec fn ring_fits(mb: usize) -> bool {
    mb * MIB <= isize::MAX as usize / 2 + 1
}

/// The place of the last colon, or the length where there is none.
pub open spec fn is_last_colon(s: Seq<u8>, i: int) -> bool {
    &&& 0 <= i <= s.len()
    &&& i < s.len() ==> s[i] == 58 && forall|j: int| i < j < s.len() ==> s[j] != 58
    &&& i == s.len() ==> forall|j: int| 0 <= j < s.len() ==> s[j] != 58
}

/// `127.0.0.1`.
pub open spec fn loopback() -> Seq<u8> {
    seq![49u8, 50u8, 55u8, 46u8, 48u8, 46u8, 48u8, 46u8, 49u8]
}

/// Where the admin plane is served: at the address of the settings, or at its
/// port on the loopback address.
pub fn admin_addr(addr: &[u8], loopback_only: bool) -> (out: Vec<u8>)
    ensures
        !loopback_only ==> out@ == addr@,
        loopback_only ==> exists|i: int| #[trigger]
            is_last_colon(addr@, i) && out@ == loopback() + addr@.skip(i),
{
    if !loopback_only {
        return copy_bytes(addr);
    }
    let n: usize = addr.len();
    let mut i: usize = n;
    while i > 0 && addr[i - 1] != 58
        invariant
            i <= n,
            n == addr@.len(),
            forall|j: int| i <= j < n ==> addr@[j] != 58,
        decreases i,
    {
        i = i - 1;
    }
    let at: usize = if i > 0 {
        i - 1
    } else {
        n
    };
    assert(is_last_colon(addr@, at as int));
    let mut out: Vec<u8> = vec![49u8, 50u8, 55u8, 46u8, 48u8, 46u8, 48u8, 46u8, 49u8];
    assert(out@ =~= loopback());
    let port = slice_subrange(addr, at, n);
    assert(port@ =~= addr@.skip(at as int));
    put_bytes(&mut out, port);
    out
}

/// What to set up; nothing where the ring is too large for this machine.
pub fn plan(cfg: &Config) -> (p: Option<Plan>)
    ensures
        p is Some <==> ring_fits(
            if cfg.mode@ == "file"@ {
                cfg.ring_capacity_mb
            } else {
                cfg.mem_mb
            },
        ),
        p matches Some(p) ==> {
            &&& p.store == if cfg.mode@ == "file"@ {
                StorePlan::File((cfg.ring_capacity_mb * MIB) as usize)
            } else {
                StorePlan::Memory((cfg.mem_mb * MIB) as usize)
            }
            &&& p.reject_overflow == (cfg.on_overflow@ == "reject"@)
            &&& p.threads == if cfg.cores > 1 {
                cfg.cores
            } else {
                1
            }
            &&& !cfg.http_loopback_only ==> p.http_addr@ == vstd::utf8::encode_utf8(cfg.http_addr@)
            &&& cfg.http_loopback_only ==> exists|i: int| #[trigger]
                is_last_colon(vstd::utf8::encode_utf8(cfg.http_addr@), i) && p.http_addr@
                    == loopback() + vstd::utf8::encode_utf8(cfg.http_addr@).skip(i)
            &&& p.auth_timeout_ms == if cfg.auth_timeout_secs * 1000 <= u64::MAX {
                (cfg.auth_timeout_secs * 1000) as u64
            } else {
                u64::MAX
            }
        },
{
    let file = cfg.is_file_mode();
    let mb: usize = if file {
        cfg.ring_capacity_mb
    } else {
        cfg.mem_mb
    };
    if mb > (isize::MAX as usize / 2 + 1) / MIB {
        return None;
    }
    let store = if file {
        StorePlan::File(cfg.ring_capacity_bytes())
    } else {
        StorePlan::Memory(cfg.mem_capacity_bytes())
    };
    let threads: usize = if cfg.cores > 1 {
        cfg.cores
    } else {
        1
    };
    let auth_timeout_ms: u64 = if cfg.auth_timeout_secs <= u64::MAX / 1000 {
        cfg.auth_timeout_secs * 1000
    } else {
        u64::MAX
    };
    Some(
        Plan {
            store,
            reject_overflow: cfg.rejects_overflow(),
            threads,
            http_addr: admin_addr(cfg.http_addr.as_str().as_bytes(), cfg.http_loopback_only),
            auth_timeout_ms,
        },
    )
}

/// An address is cut before its port: of a host, a colon and a port without
/// one, the port with its colon goes to the loopback address.
pub proof fn ports_go_to_the_loopback(host: Seq<u8>, port: Seq<u8>, i: int)
    requires
        forall|j: int| 0 <= j < port.len() ==> port[j] != 58,
        is_last_colon(host.push(58) + port, i),
    ensures
        i == host.len(),
        loopback() + (host.push(58) + port).skip(i) == vstd::utf8::encode_utf8("127.0.0.1:"@)
            + port,
{
    let s = host.push(58) + port;
    assert(s[host.len() as int] == 58);
    if i < host.len() {
        assert(s[host.len() as int] != 58);
    }
    if i > host.len() && i < s.len() {
        assert(s[i] == port[i - host.len() - 1]);
    }
    reveal_strlit("127.0.0.1:");
    vstd::utf8::is_ascii_chars_encode_utf8("127.0.0.1:"@);
    assert(loopback() + s.skip(i) =~= vstd::utf8::encode_utf8("127.0.0.1:"@) + port);
}

/// There is one last colon.
pub proof fn last_colons_are_unique(s: Seq<u8>, i: int, j: int)
    requires
        is_last_colon(s, i),
        is_last_colon(s, j),
    ensures
        i == j,
{
    if i < j {
        if j < s.len() {
            assert(s[j] != 58);
        } else {
            assert(s[i] != 58);
        }
    }
    if j < i {
        if i < s.len() {
            assert(s[i] != 58);
        } else {
            assert(s[j] != 58);
        }
    }
}

/// A ring can be made where there is a size for it that a ring may have.
pub proof fn rings_fit_legal_sizes(mb: usize)
    ensures
        ring_fits(mb) <==> exists|n: nat| #[trigger]
            crate::store::file::legal_size(n) && n >= mb * 1048576,
{
    let most = (isize::MAX as usize / 2 + 1) as nat;
    vstd::arithmetic::power2::lemma2_to64();
    vstd::arithmetic::power2::lemma2_to64_rest();
    assert(most == vstd::arithmetic::power2::pow2(30) || most == vstd::arithmetic::power2::pow2(
        62,
    ));
    assert(crate::store::file::legal_size(most));
}

} // verus!
