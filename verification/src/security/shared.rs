//! The security settings that connections take their policy from, and their
//! rotation while the broker runs.

use super::auth::AccessControl;
use crate::bytes::copy_bytes;
use crate::config::Config;
use vstd::prelude::*;
use vstd::string::*;

verus! {

/// What became of a token file.
pub enum TokenFile {
    /// None is named.
    Absent,
    /// It is named and cannot be read.
    Unreadable,
    /// Its bytes.
    Read(Vec<u8>),
}

/// What became of a token file, as a value.
pub enum TokenSource {
    Absent,
    Unreadable,
    Read(Seq<u8>),
}

impl View for TokenFile {
    type V = TokenSource;

    open spec fn view(&self) -> TokenSource {
        match self {
            TokenFile::Absent => TokenSource::Absent,
            TokenFile::Unreadable => TokenSource::Unreadable,
            TokenFile::Read(raw) => TokenSource::Read(raw@),
        }
    }
}

/// The token file that a setting names; an empty name names none.
pub fn token_path(setting: &Option<String>) -> (path: Option<&str>)
    ensures
        match path {
            Some(p) => *setting matches Some(s) && s@.len() > 0 && p@ == s@,
            None => *setting is None || (*setting)->0@.len() == 0,
        },
{
    match setting {
        Some(s) => if s.as_str().is_empty() {
            None
        } else {
            Some(s.as_str())
        },
        None => None,
    }
}

/// Why the settings cannot be used.
#[derive(Debug, Clone, Copy, PartialEq, Eq, Structural)]
pub enum SecurityError {
    /// A certificate without a key, or a key without a certificate.
    TlsPair,
    /// Certificate and key could not be loaded.
    TlsLoad,
}

/// A token file's content without the line end behind it.
pub open spec fn trimmed(raw: Seq<u8>) -> Seq<u8> {
    if raw.len() > 0 && raw.last() == 10 {
        let line = raw.drop_last();
        if line.len() > 0 && line.last() == 13 {
            line.drop_last()
        } else {
            line
        }
    } else {
        raw
    }
}

/// Removes one line end, `\\n` or `\\r\\n`, from the end of a token file's
/// content.
pub fn trim_token(raw: Vec<u8>) -> (token: Vec<u8>)
    ensures
        token@ == trimmed(raw@),
{
    let mut v = raw;
    let n: usize = v.len();
    if n > 0 && v[n - 1] == 10 {
        v.pop();
        assert(v@ =~= raw@.drop_last());
        if n > 1 && v[n - 2] == 13 {
            v.pop();
            assert(v@ =~= raw@.drop_last().drop_last());
        }
    }
    v
}

/// Which token applies: the file's, unless it is empty or none is named; else
/// the setting's. A file that cannot be read leaves none.
pub open spec fn effective_token(primary: Option<Seq<u8>>, file: TokenSource) -> Option<Seq<u8>> {
    match file {
        TokenSource::Absent => primary,
        TokenSource::Unreadable => None,
        TokenSource::Read(raw) => if trimmed(raw).len() > 0 {
            Some(trimmed(raw))
        } else {
            primary
        },
    }
}

/// The bytes of a setting.
pub open spec fn setting(s: Option<String>) -> Option<Seq<u8>> {
    match s {
        Some(t) => Some(vstd::utf8::encode_utf8(t@)),
        None => None,
    }
}

/// The bytes of a value that may be there.
pub open spec fn content(v: Option<Vec<u8>>) -> Option<Seq<u8>> {
    match v {
        Some(t) => Some(t@),
        None => None,
    }
}

/// Which token applies.
pub fn read_opt(primary: &Option<String>, file: TokenFile) -> (token: Option<Vec<u8>>)
    ensures
        content(token) == effective_token(setting(*primary), file@),
{
    match file {
        TokenFile::Unreadable => {
            return None;
        },
        TokenFile::Read(raw) => {
            let token = trim_token(raw);
            if token.len() > 0 {
                return Some(token);
            }
        },
        TokenFile::Absent => {},
    }
    match primary {
        Some(t) => Some(copy_bytes(t.as_str().as_bytes())),
        None => None,
    }
}

/// The policy of the data plane: where no token applies, access is open.
pub fn resolve_auth(primary: &Option<String>, file: TokenFile) -> (auth: AccessControl)
    ensures
        auth@ == effective_token(setting(*primary), file@),
{
    match read_opt(primary, file) {
        Some(t) => AccessControl::Token(t),
        None => AccessControl::Open,
    }
}

/// The password of the admin plane.
pub fn resolve_http_token(primary: &Option<String>, file: TokenFile) -> (token: Option<Vec<u8>>)
    ensures
        content(token) == effective_token(setting(*primary), file@),
{
    read_opt(primary, file)
}

/// What the settings say of TLS.
#[derive(Debug, Clone, Copy, PartialEq, Eq, Structural)]
pub enum TlsPlan {
    /// Serve in the clear.
    Plain,
    /// Load certificate and key.
    Load,
}

/// What the settings say of TLS: certificate and key come together.
pub open spec fn tls_planned(cfg: Config) -> Result<TlsPlan, SecurityError> {
    if cfg.tls_cert is Some && cfg.tls_key is Some {
        Ok(TlsPlan::Load)
    } else if cfg.tls_cert is None && cfg.tls_key is None {
        Ok(TlsPlan::Plain)
    } else {
        Err(SecurityError::TlsPair)
    }
}

/// What the settings say of TLS.
pub fn tls_plan(cfg: &Config) -> (plan: Result<TlsPlan, SecurityError>)
    ensures
        plan == tls_planned(*cfg),
{
    match (cfg.tls_cert.is_some(), cfg.tls_key.is_some()) {
        (true, true) => Ok(TlsPlan::Load),
        (false, false) => Ok(TlsPlan::Plain),
        _ => Err(SecurityError::TlsPair),
    }
}

/// What was found outside the settings: the TLS context, where the plan was to
/// load it and that worked, and the token files.
pub struct Loaded<T> {
    pub tls: Option<T>,
    pub auth_file: TokenFile,
    pub http_file: TokenFile,
}

/// Policy, password and TLS context in force. `T` is the TLS context.
pub struct SharedSecurity<T> {
    tls: Option<T>,
    auth: AccessControl,
    http_token: Option<Vec<u8>>,
}

/// What is in force, as values.
#[verifier::ext_equal]
pub struct Security<T> {
    pub tls: Option<T>,
    pub secret: Option<Seq<u8>>,
    pub http_token: Option<Seq<u8>>,
}

impl<T> View for SharedSecurity<T> {
    type V = Security<T>;

    closed spec fn view(&self) -> Security<T> {
        Security { tls: self.tls, secret: self.auth@, http_token: content(self.http_token) }
    }
}

/// What settings and files put into force, or why they cannot.
pub open spec fn put_in_force<T>(cfg: Config, found: Loaded<T>) -> Result<
    Security<T>,
    SecurityError,
> {
    match tls_planned(cfg) {
        Err(e) => Err(e),
        Ok(plan) => if plan == TlsPlan::Load && found.tls is None {
            Err(SecurityError::TlsLoad)
        } else {
            Ok(
                Security {
                    tls: if plan == TlsPlan::Load {
                        found.tls
                    } else {
                        None
                    },
                    secret: effective_token(setting(cfg.auth_token), found.auth_file@),
                    http_token: effective_token(setting(cfg.http_auth_token), found.http_file@),
                },
            )
        },
    }
}

impl<T> SharedSecurity<T> {
    /// Open access, in the clear.
    pub fn new() -> (s: SharedSecurity<T>)
        ensures
            s@ == (Security::<T> { tls: None, secret: None, http_token: None }),
    {
        SharedSecurity { tls: None, auth: AccessControl::Open, http_token: None }
    }

    /// What the settings ask for.
    pub fn from_config(cfg: &Config, found: Loaded<T>) -> (r: Result<
        SharedSecurity<T>,
        SecurityError,
    >)
        ensures
            match r {
                Ok(s) => put_in_force(*cfg, found) == Ok::<Security<T>, SecurityError>(s@),
                Err(e) => put_in_force(*cfg, found) == Err::<Security<T>, SecurityError>(e),
            },
    {
        let plan = match tls_plan(cfg) {
            Ok(plan) => plan,
            Err(e) => {
                return Err(e);
            },
        };
        let Loaded { tls, auth_file, http_file } = found;
        let tls = if plan == TlsPlan::Load {
            if tls.is_none() {
                return Err(SecurityError::TlsLoad);
            }
            tls
        } else {
            None
        };
        let auth = resolve_auth(&cfg.auth_token, auth_file);
        let http_token = resolve_http_token(&cfg.http_auth_token, http_file);
        let s = SharedSecurity { tls, auth, http_token };
        Ok(s)
    }

    /// Puts new settings in force. Where they cannot be used, the old ones
    /// stay.
    pub fn reload(&mut self, cfg: &Config, found: Loaded<T>) -> (r: Result<(), SecurityError>)
        ensures
            match put_in_force(*cfg, found) {
                Ok(s) => r is Ok && final(self)@ == s,
                Err(e) => r == Err::<(), SecurityError>(e) && *final(self) == *old(self),
            },
    {
        match SharedSecurity::from_config(cfg, found) {
            Ok(s) => {
                *self = s;
                Ok(())
            },
            Err(e) => Err(e),
        }
    }

    /// What a new connection gets: the TLS context and the policy.
    pub fn snapshot(&self) -> (r: (Option<&T>, AccessControl))
        ensures
            match r.0 {
                Some(t) => self@.tls == Some(*t),
                None => self@.tls is None,
            },
            r.1@ == self@.secret,
    {
        let tls = match &self.tls {
            Some(t) => Some(t),
            None => None,
        };
        (tls, self.auth.clone())
    }

    /// The password of the admin plane, where one is set.
    pub fn http_token(&self) -> (r: Option<Vec<u8>>)
        ensures
            content(r) == self@.http_token,
    {
        match &self.http_token {
            Some(t) => Some(copy_bytes(t.as_slice())),
            None => None,
        }
    }
}

/// A rotated token takes the old one's place: after settings with the token
/// `new` are in force, a connection must present it, and no other will do.
pub proof fn rotation_replaces_the_token<T>(cfg: Config, found: Loaded<T>, presented: Seq<u8>)
    requires
        put_in_force(cfg, found) is Ok,
        found.auth_file@ matches TokenSource::Read(raw) && trimmed(raw).len() > 0,
    ensures
        ({
            let s = put_in_force(cfg, found)->Ok_0;
            let new = trimmed(found.auth_file@->Read_0);
            s.secret == Some(new) && (Some(presented) == s.secret <==> presented == new)
        }),
{
}

/// A token file's line end does not count: a token that does not end in one is
/// what the file gives, whether the file ends with it, with a newline, or with
/// a carriage return and a newline behind it. No more than one line end goes.
pub proof fn one_line_end_does_not_count(token: Seq<u8>)
    ensures
        token.len() == 0 || token.last() != 10 ==> trimmed(token) == token,
        token.len() == 0 || token.last() != 13 ==> trimmed(token.push(10)) == token,
        trimmed(token.push(13).push(10)) == token,
        trimmed(token.push(10).push(10)) == token.push(10),
{
    assert(token.push(10).drop_last() =~= token);
    assert(token.push(13).push(10).drop_last() =~= token.push(13));
    assert(token.push(13).drop_last() =~= token);
    assert(token.push(10).push(10).drop_last() =~= token.push(10));
}

/// A token file that says something counts more than the setting; one that
/// says nothing, or none, leaves the setting. One that cannot be read leaves
/// nothing.
pub proof fn token_files_count_more(primary: Option<Seq<u8>>, token: Seq<u8>)
    requires
        token.len() > 0,
        token.last() != 13,
    ensures
        effective_token(primary, TokenSource::Read(token.push(10))) == Some(token),
        effective_token(primary, TokenSource::Read(Seq::empty())) == primary,
        effective_token(primary, TokenSource::Read(seq![10u8])) == primary,
        effective_token(primary, TokenSource::Absent) == primary,
        effective_token(primary, TokenSource::Unreadable) is None,
{
    one_line_end_does_not_count(token);
    one_line_end_does_not_count(Seq::empty());
    assert(Seq::<u8>::empty().push(10) =~= seq![10u8]);
}

/// The two planes have nothing to do with each other: what clients must present
/// rests on the clients' settings alone, and what the admin plane asks for on
/// its own.
pub proof fn planes_do_not_mix<T>(a: Config, b: Config, x: Loaded<T>, y: Loaded<T>)
    requires
        put_in_force(a, x) is Ok,
        put_in_force(b, y) is Ok,
    ensures
        ({
            let (s, t) = (put_in_force(a, x)->Ok_0, put_in_force(b, y)->Ok_0);
            &&& a.auth_token == b.auth_token && x.auth_file@ == y.auth_file@ ==> s.secret
                == t.secret
            &&& a.http_auth_token == b.http_auth_token && x.http_file@ == y.http_file@
                ==> s.http_token == t.http_token
        }),
{
}

/// Without a token anywhere, access is open; with one in the settings and no
/// file, that one is asked for.
pub proof fn settings_alone_decide_without_files<T>(cfg: Config, found: Loaded<T>)
    requires
        found.auth_file@ is Absent,
        found.http_file@ is Absent,
        put_in_force(cfg, found) is Ok,
    ensures
        ({
            let s = put_in_force(cfg, found)->Ok_0;
            &&& cfg.auth_token is None ==> s.secret is None
            &&& cfg.auth_token matches Some(t) ==> s.secret == Some(
                vstd::utf8::encode_utf8(t@),
            )
            &&& cfg.http_auth_token is None ==> s.http_token is None
            &&& cfg.http_auth_token matches Some(t) ==> s.http_token == Some(
                vstd::utf8::encode_utf8(t@),
            )
        }),
{
}

/// TLS is all or nothing: it is served where certificate and key are named and
/// loaded, in the clear where neither is named, and refused else.
pub proof fn tls_is_all_or_nothing<T>(cfg: Config, found: Loaded<T>)
    ensures
        put_in_force(cfg, found) is Ok <==> (cfg.tls_cert is Some && cfg.tls_key is Some
            && found.tls is Some) || (cfg.tls_cert is None && cfg.tls_key is None),
        put_in_force(cfg, found) matches Ok(s) ==> s.tls == if cfg.tls_cert is Some {
            found.tls
        } else {
            None
        },
        cfg.tls_cert is Some != cfg.tls_key is Some ==> put_in_force(cfg, found) == Err::<
            Security<T>,
            SecurityError,
        >(SecurityError::TlsPair),
{
}

} // verus!
