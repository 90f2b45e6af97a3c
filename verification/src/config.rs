//! The configuration files of client and server, and where their secrets come from.

use vstd::prelude::*;
use vstd::string::*;

use crate::error::{Error, ErrorView, Result};
use crate::text;

verus! {

/// Whether `c` is white space, as Unicode defines it.
pub open spec fn is_white_space(c: char) -> bool {
    ||| 0x09 <= c as int <= 0x0d
    ||| c as int == 0x20
    ||| c as int == 0x85
    ||| c as int == 0xa0
    ||| c as int == 0x1680
    ||| 0x2000 <= c as int <= 0x200a
    ||| c as int == 0x2028
    ||| c as int == 0x2029
    ||| c as int == 0x202f
    ||| c as int == 0x205f
    ||| c as int == 0x3000
}

/// `s` without the white space at its beginning.
pub open spec fn trimmed_start(s: Seq<char>) -> Seq<char>
    decreases s.len(),
{
    if s.len() > 0 && is_white_space(s[0]) {
        trimmed_start(s.skip(1))
    } else {
        s
    }
}

/// `s` without the white space at its end.
pub open spec fn trimmed_end(s: Seq<char>) -> Seq<char>
    decreases s.len(),
{
    if s.len() > 0 && is_white_space(s.last()) {
        trimmed_end(s.drop_last())
    } else {
        s
    }
}

/// `s` without the white space at its two ends.
pub open spec fn trimmed(s: Seq<char>) -> Seq<char> {
    trimmed_end(trimmed_start(s))
}

/// Whether `c` is white space.
pub fn white_space(c: char) -> (r: bool)
    ensures
        r == is_white_space(c),
{
    let v: u32 = c as u32;
    (0x09 <= v && v <= 0x0d) || v == 0x20 || v == 0x85 || v == 0xa0 || v == 0x1680 || (0x2000 <= v
        && v <= 0x200a) || v == 0x2028 || v == 0x2029 || v == 0x202f || v == 0x205f || v == 0x3000
}

/// `s` without the white space at its two ends.
pub fn trim(s: &str) -> (t: String)
    ensures
        t@ == trimmed(s@),
{
    let chars = text::chars_of(s);
    let n: usize = chars.len();
    let mut a: usize = 0;
    assert(s@.skip(0) =~= s@);
    while a < n && white_space(chars[a])
        invariant
            a <= n,
            n == chars@.len(),
            chars@ == s@,
            trimmed_start(s@.skip(a as int)) == trimmed_start(s@),
        decreases n - a,
    {
        assert(s@.skip(a as int).skip(1) =~= s@.skip(a as int + 1));
        a = a + 1;
    }
    let mut b: usize = n;
    let ghost front = s@.skip(a as int);
    assert(s@.subrange(a as int, n as int) =~= front);
    while b > a && white_space(chars[b - 1])
        invariant
            a <= b <= n,
            n == chars@.len(),
            chars@ == s@,
            trimmed_end(s@.subrange(a as int, b as int)) == trimmed_end(front),
        decreases b,
    {
        assert(s@.subrange(a as int, b as int).drop_last() =~= s@.subrange(a as int, b - 1));
        b = b - 1;
    }
    let mut t = String::new();
    let mut i: usize = a;
    assert(t@ =~= s@.subrange(a as int, a as int));
    while i < b
        invariant
            a <= i <= b <= n,
            n == chars@.len(),
            chars@ == s@,
            t@ == s@.subrange(a as int, i as int),
        decreases b - i,
    {
        t.push(chars[i]);
        i = i + 1;
        assert(t@ =~= s@.subrange(a as int, i as int));
    }
    t
}

proof fn lemma_trimmed_start_first(s: Seq<char>)
    ensures
        trimmed_start(s).len() > 0 ==> !is_white_space(trimmed_start(s)[0]),
    decreases s.len(),
{
    if s.len() > 0 && is_white_space(s[0]) {
        lemma_trimmed_start_first(s.skip(1));
    }
}

proof fn lemma_trimmed_end_last(s: Seq<char>)
    ensures
        trimmed_end(s).len() > 0 ==> !is_white_space(trimmed_end(s).last()) && trimmed_end(s)[0]
            == s[0],
    decreases s.len(),
{
    if s.len() > 0 && is_white_space(s.last()) {
        lemma_trimmed_end_last(s.drop_last());
    }
}

/// What is left after trimming neither begins nor ends with white space.
pub proof fn law_trimmed_ends(s: Seq<char>)
    ensures
        trimmed(s).len() > 0 ==> !is_white_space(trimmed(s)[0]) && !is_white_space(
            trimmed(s).last(),
        ),
{
    lemma_trimmed_start_first(s);
    lemma_trimmed_end_last(trimmed_start(s));
}

proof fn lemma_trimmed_start_is_suffix(s: Seq<char>)
    ensures
        trimmed_start(s).len() <= s.len(),
        trimmed_start(s) == s.skip(s.len() - trimmed_start(s).len()),
        forall|i: int|
            0 <= i < s.len() - trimmed_start(s).len() ==> is_white_space(#[trigger] s[i]),
    decreases s.len(),
{
    if s.len() > 0 && is_white_space(s[0]) {
        let t = s.skip(1);
        lemma_trimmed_start_is_suffix(t);
        let k = s.len() - trimmed_start(s).len();
        assert(t.skip(k - 1) =~= s.skip(k));
        assert forall|i: int| 0 <= i < k implies is_white_space(#[trigger] s[i]) by {
            if i > 0 {
                assert(t[i - 1] == s[i]);
            }
        }
    } else {
        assert(s.skip(0) =~= s);
    }
}

proof fn lemma_trimmed_end_is_prefix(s: Seq<char>)
    ensures
        trimmed_end(s).len() <= s.len(),
        trimmed_end(s) == s.take(trimmed_end(s).len() as int),
        forall|i: int| trimmed_end(s).len() <= i < s.len() ==> is_white_space(#[trigger] s[i]),
    decreases s.len(),
{
    if s.len() > 0 && is_white_space(s.last()) {
        let t = s.drop_last();
        lemma_trimmed_end_is_prefix(t);
        let n = trimmed_end(s).len() as int;
        assert(t.take(n) =~= s.take(n));
        assert forall|i: int| n <= i < s.len() implies is_white_space(#[trigger] s[i]) by {
            if i < t.len() {
                assert(t[i] == s[i]);
            }
        }
    } else {
        assert(s.take(s.len() as int) =~= s);
    }
}

/// Trimming takes white space away at the two ends and nothing else: what is left is the piece of
/// the text between two places before and after which there is nothing but white space.
pub proof fn law_trimming_takes_white_space_only(s: Seq<char>) -> (ends: (int, int))
    ensures
        0 <= ends.0 <= ends.1 <= s.len(),
        trimmed(s) == s.subrange(ends.0, ends.1),
        forall|i: int| 0 <= i < ends.0 ==> is_white_space(#[trigger] s[i]),
        forall|i: int| ends.1 <= i < s.len() ==> is_white_space(#[trigger] s[i]),
{
    let t = trimmed_start(s);
    lemma_trimmed_start_is_suffix(s);
    lemma_trimmed_end_is_prefix(t);
    let a = s.len() - t.len();
    let b = a + trimmed(s).len();
    assert(trimmed(s) =~= s.subrange(a, b));
    assert forall|i: int| b <= i < s.len() implies is_white_space(#[trigger] s[i]) by {
        assert(t[i - a] == s[i]);
    }
    (a, b)
}

/// The part of a file mode that gives rights to others than the owner.
pub open spec fn open_to_others(mode: u32) -> bool {
    (mode & 0o777) & 0o077 != 0
}

/// Whether a file mode gives rights to others than the owner, which deserves a warning if the
/// file is a configuration.
pub fn is_permissive(mode: u32) -> (r: bool)
    ensures
        r == open_to_others(mode),
{
    (mode & 0o777) & 0o077 != 0
}

/// Whether a file mode is one that a password file may have: 600 or 400.
pub open spec fn secret_mode(mode: u32) -> bool {
    mode & 0o777 == 0o600 || mode & 0o777 == 0o400
}

/// Whether a file mode is one that a password file may have: 600 or 400.
pub fn is_secret_mode(mode: u32) -> (r: bool)
    ensures
        r == secret_mode(mode),
{
    mode & 0o777 == 0o600 || mode & 0o777 == 0o400
}

/// A file that holds a secret.
#[derive(Debug)]
pub struct SecretFile {
    /// Its mode, where the system has modes.
    pub mode: Option<u32>,
    pub contents: String,
}

/// The complaint about the mode of a password file.
pub open spec fn permissive_text(path: Seq<char>, mode: u32) -> Seq<char> {
    "password_file "@ + path + " has overly permissive mode "@ + text::number_text(
        (mode & 0o777) as nat,
        8,
    ) + " (expected 600 or 400)"@
}

fn permissive_error(path: &str, mode: u32) -> (e: Error)
    ensures
        e@ == ErrorView::Message(permissive_text(path@, mode)),
{
    let mut s = String::new();
    text::put_str(&mut s, "password_file ");
    text::put_str(&mut s, path);
    text::put_str(&mut s, " has overly permissive mode ");
    text::put_number(&mut s, (mode & 0o777) as u64, 8);
    text::put_str(&mut s, " (expected 600 or 400)");
    assert(s@ =~= permissive_text(path@, mode));
    Error::Message(s)
}

/// The password in a password file, if its mode is right and there is something in it.
pub open spec fn file_password(path: Seq<char>, mode: Option<u32>, contents: Seq<char>) ->
    core::result::Result<Seq<char>, ErrorView> {
    if mode matches Some(m) && !secret_mode(m) {
        Err(ErrorView::Message(permissive_text(path, mode->0)))
    } else if trimmed(contents).len() == 0 {
        Err(ErrorView::Message("password_file is empty"@))
    } else {
        Ok(trimmed(contents))
    }
}

/// The password from the environment or, failing that, from the configuration.
pub open spec fn other_password(env: Option<Seq<char>>, configured: Option<Seq<char>>) ->
    core::result::Result<Seq<char>, ErrorView> {
    if env is Some && trimmed(env->0).len() > 0 {
        Ok(trimmed(env->0))
    } else if configured is Some && trimmed(configured->0).len() > 0 {
        Ok(trimmed(configured->0))
    } else {
        Err(
            ErrorView::Message(
                "password not set: use `password`, `password_file` or env HYDR_PASSWORD"@,
            ),
        )
    }
}

/// A mode gives rights to others exactly if one of its last six bits is set; a password file has
/// to be readable by its owner and by nobody else, and at most writable by its owner.
pub proof fn law_file_modes(mode: u32)
    ensures
        open_to_others(mode) <==> mode % 64 != 0,
        secret_mode(mode) <==> mode % 512 == 384 || mode % 512 == 256,
        secret_mode(mode) ==> !open_to_others(mode),
        mode & 0o777 == mode % 512,
{
    assert(mode & 0o777 == mode % 512) by (bit_vector);
    assert((mode & 0o777) & 0o077 == mode % 64) by (bit_vector);
    assert(mode % 512 == 384 || mode % 512 == 256 ==> mode % 64 == 0) by (bit_vector);
}

/// Where the password comes from. A password file counts if its mode is one that it may have, and
/// its trimmed contents are the password, if there are any. Without a password file the
/// environment goes before the configuration, and each counts only if there is something in it.
pub proof fn law_password_sources(
    path: Seq<char>,
    mode: Option<u32>,
    contents: Seq<char>,
    env: Option<Seq<char>>,
    configured: Option<Seq<char>>,
)
    ensures
        ({
            let allowed = mode is None || mode->0 % 512 == 384 || mode->0 % 512 == 256;
            let r = file_password(path, mode, contents);
            &&& r is Ok <==> allowed && trimmed(contents).len() > 0
            &&& r matches Ok(p) ==> p == trimmed(contents)
            &&& !allowed ==> r == Err::<Seq<char>, ErrorView>(
                ErrorView::Message(
                    "password_file "@ + path + " has overly permissive mode "@ + text::number_text(
                        mode->0 as nat % 512,
                        8,
                    ) + " (expected 600 or 400)"@,
                ),
            )
            &&& allowed && trimmed(contents).len() == 0 ==> r == Err::<Seq<char>, ErrorView>(
                ErrorView::Message("password_file is empty"@),
            )
        }),
        ({
            let from_env = env is Some && trimmed(env->0).len() > 0;
            let from_file = configured is Some && trimmed(configured->0).len() > 0;
            let r = other_password(env, configured);
            &&& from_env ==> r == Ok::<Seq<char>, ErrorView>(trimmed(env->0))
            &&& !from_env && from_file ==> r == Ok::<Seq<char>, ErrorView>(trimmed(configured->0))
            &&& !from_env && !from_file ==> r == Err::<Seq<char>, ErrorView>(
                ErrorView::Message(
                    "password not set: use `password`, `password_file` or env HYDR_PASSWORD"@,
                ),
            )
        }),
{
    if mode is Some {
        law_file_modes(mode->0);
    }
}

/// An optional text as an optional sequence.
pub open spec fn opt_view(s: Option<String>) -> Option<Seq<char>> {
    match s {
        Some(t) => Some(t@),
        None => None,
    }
}

/// A text that is there is seen as it is, and one that is not as none.
pub proof fn law_optional_text(s: String)
    ensures
        opt_view(Some(s)) == Some(s@),
        opt_view(None) is None,
{
}

/// Finds the password in a password file.
pub fn password_from_file(path: &str, file: &SecretFile) -> (r: Result<String>)
    ensures
        match file_password(path@, file.mode, file.contents@) {
            Ok(p) => r matches Ok(s) && s@ == p,
            Err(e) => r matches Err(re) && re@ == e,
        },
{
    if let Some(mode) = file.mode {
        if !is_secret_mode(mode) {
            return Err(permissive_error(path, mode));
        }
    }
    let s = trim(file.contents.as_str());
    if s.as_str().is_empty() {
        return Err(Error::Message("password_file is empty".to_owned()));
    }
    Ok(s)
}

/// Finds the password in the environment or, failing that, in the configuration.
pub fn password_from_other(env: &Option<String>, configured: &Option<String>) -> (r: Result<
    String,
>)
    ensures
        match other_password(opt_view(*env), opt_view(*configured)) {
            Ok(p) => r matches Ok(s) && s@ == p,
            Err(e) => r matches Err(re) && re@ == e,
        },
{
    if let Some(v) = env {
        let s = trim(v.as_str());
        if !s.as_str().is_empty() {
            return Ok(s);
        }
    }
    if let Some(v) = configured {
        let s = trim(v.as_str());
        if !s.as_str().is_empty() {
            return Ok(s);
        }
    }
    Err(
        Error::Message(
            "password not set: use `password`, `password_file` or env HYDR_PASSWORD".to_owned(),
        ),
    )
}

/// The way to the server, as it stands in the client's file.
#[derive(Debug)]
pub enum TransportFile {
    Quic { addr: String, server_name: String, insecure: bool, fingerprint: Option<String> },
    Ws { url: String, insecure: bool, obfuscation: Option<String>, fingerprint: Option<String> },
}

/// The client's configuration file.
#[derive(Debug)]
pub struct ClientFile {
    pub password: Option<String>,
    pub password_file: Option<String>,
    /// The target rate in bits per second; zero leaves it to the transport.
    pub cc_rx: Option<u64>,
    pub socks5_bind: String,
    pub socks5_username: Option<String>,
    pub socks5_password: Option<String>,
    pub transport: TransportFile,
}

impl ClientFile {
    /// The password: from the password file if one is configured, else from the
    /// environment, else from the configuration. The file, if configured, has to be given.
    pub fn resolve_password(&self, file: Option<&SecretFile>, env: &Option<String>) -> (r: Result<
        String,
    >)
        requires
            self.password_file is Some ==> file is Some,
        ensures
            match (match self.password_file {
                Some(p) => file_password(p@, file->0.mode, file->0.contents@),
                None => other_password(opt_view(*env), opt_view(self.password)),
            }) {
                Ok(p) => r matches Ok(s) && s@ == p,
                Err(e) => r matches Err(re) && re@ == e,
            },
    {
        match &self.password_file {
            Some(p) => password_from_file(p.as_str(), file.unwrap()),
            None => password_from_other(env, &self.password),
        }
    }

    /// The password of the local entry: from the environment if there is one, else from the
    /// configuration; none if no username is configured.
    pub fn resolve_socks5_password(&self, env: &Option<String>) -> (r: Option<String>)
        ensures
            opt_view(r) == (if self.socks5_username is None {
                None
            } else if env is Some && trimmed(env->0@).len() > 0 {
                Some(trimmed(env->0@))
            } else {
                opt_view(self.socks5_password)
            }),
    {
        if self.socks5_username.is_none() {
            return None;
        }
        if let Some(v) = env {
            let s = trim(v.as_str());
            if !s.as_str().is_empty() {
                return Some(s);
            }
        }
        match &self.socks5_password {
            Some(s) => Some(s.clone()),
            None => None,
        }
    }

    /// The target rate; zero unless configured.
    pub fn rate(&self) -> (r: u64)
        ensures
            r == (match self.cc_rx {
                Some(v) => v,
                None => 0,
            }),
    {
        match self.cc_rx {
            Some(v) => v,
            None => 0,
        }
    }
}

/// A QUIC listener, as it stands in the server's file.
#[derive(Debug)]
pub struct QuicFile {
    pub bind: String,
    pub server_name: String,
    pub cert: Option<String>,
    pub key: Option<String>,
}

/// A WebSocket listener, as it stands in the server's file.
#[derive(Debug)]
pub struct WsFile {
    pub bind: String,
    pub path: String,
    pub obfuscation: Option<String>,
}

/// The way to the next hop, as it stands in the server's file.
#[derive(Debug)]
pub enum HopTransportFile {
    Quic { addr: String, server_name: String, insecure: bool, fingerprint: Option<String> },
    Ws { url: String, insecure: bool, obfuscation: Option<String>, fingerprint: Option<String> },
}

/// The next hop, as it stands in the server's file.
#[derive(Debug)]
pub struct NextHopFile {
    pub password: String,
    pub transport: HopTransportFile,
}

/// The server's configuration file.
#[derive(Debug)]
pub struct ServerFile {
    pub password: Option<String>,
    pub password_file: Option<String>,
    /// The target rate in bits per second; zero leaves it to the transport.
    pub cc_rx: Option<u64>,
    /// The most tunnels at once; zero stands for the default.
    pub max_conns: Option<usize>,
    pub max_udp_sessions: Option<usize>,
    pub max_udp_sessions_per_ip: Option<usize>,
    pub metrics_bind: Option<String>,
    pub quic: Option<QuicFile>,
    pub ws: Option<WsFile>,
    pub next_hop: Option<NextHopFile>,
}

/// The numbers in a server's configuration, with zero for those that are not set.
#[derive(Debug, Clone, Copy, PartialEq, Eq)]
pub struct ServerLimits {
    pub cc_rx: u64,
    pub max_conns: usize,
    pub max_udp_sessions: usize,
    pub max_udp_sessions_per_ip: usize,
}

/// A number or, if it is not set, zero.
pub open spec fn or_zero(v: Option<usize>) -> usize {
    match v {
        Some(n) => n,
        None => 0,
    }
}

/// A number that is set counts, and one that is not counts as zero.
pub proof fn law_unset_is_zero(n: usize)
    ensures
        or_zero(Some(n)) == n,
        or_zero(None) == 0,
{
}

impl ServerFile {
    /// The password: from the password file if one is configured, else from the
    /// environment, else from the configuration. The file, if configured, has to be given.
    pub fn resolve_password(&self, file: Option<&SecretFile>, env: &Option<String>) -> (r: Result<
        String,
    >)
        requires
            self.password_file is Some ==> file is Some,
        ensures
            match (match self.password_file {
                Some(p) => file_password(p@, file->0.mode, file->0.contents@),
                None => other_password(opt_view(*env), opt_view(self.password)),
            }) {
                Ok(p) => r matches Ok(s) && s@ == p,
                Err(e) => r matches Err(re) && re@ == e,
            },
    {
        match &self.password_file {
            Some(p) => password_from_file(p.as_str(), file.unwrap()),
            None => password_from_other(env, &self.password),
        }
    }

    /// The numbers of the configuration.
    pub fn limits(&self) -> (l: ServerLimits)
        ensures
            l.cc_rx == (match self.cc_rx {
                Some(v) => v,
                None => 0,
            }),
            l.max_conns == or_zero(self.max_conns),
            l.max_udp_sessions == or_zero(self.max_udp_sessions),
            l.max_udp_sessions_per_ip == or_zero(self.max_udp_sessions_per_ip),
    {
        ServerLimits {
            cc_rx: self.cc_rx.unwrap_or(0),
            max_conns: self.max_conns.unwrap_or(0),
            max_udp_sessions: self.max_udp_sessions.unwrap_or(0),
            max_udp_sessions_per_ip: self.max_udp_sessions_per_ip.unwrap_or(0),
        }
    }
}

} // verus!
