//! What a configured transport amounts to when a tunnel is opened through it.

use vstd::prelude::*;
use vstd::string::*;
use vstd::utf8::*;

use crate::config;
use crate::config::{HopTransportFile, TransportFile};
use crate::error::{ErrorView, Result};
use crate::obfuscation::Obfuscator;
use crate::tls;
use crate::tls::{Verification, VerificationView};
use crate::ws;

verus! {

/// How to open a tunnel.
pub enum Dial {
    Quic { addr: String, server_name: String, verification: Verification },
    Ws {
        url: String,
        /// How the certificate is judged, if the URL asks for TLS.
        tls: Option<Verification>,
        obfuscator: Option<Obfuscator>,
    },
}

/// A `Dial` over views; of an obfuscator only its key counts.
#[verifier::ext_equal]
pub enum DialView {
    Quic { addr: Seq<char>, server_name: Seq<char>, verification: VerificationView },
    Ws { url: Seq<char>, tls: Option<VerificationView>, key: Option<Seq<u8>> },
}

impl View for Dial {
    type V = DialView;

    open spec fn view(&self) -> DialView {
        match self {
            Dial::Quic { addr, server_name, verification } => DialView::Quic {
                addr: addr@,
                server_name: server_name@,
                verification: verification@,
            },
            Dial::Ws { url, tls, obfuscator } => DialView::Ws {
                url: url@,
                tls: match tls {
                    Some(v) => Some(v@),
                    None => None,
                },
                key: match obfuscator {
                    Some(ob) => Some(ob@),
                    None => None,
                },
            },
        }
    }
}

/// The pin in a configuration, if there is one and it can be read.
pub open spec fn pin_of(fingerprint: Option<Seq<char>>) -> core::result::Result<
    Option<Seq<u8>>,
    ErrorView,
> {
    match fingerprint {
        None => Ok(None),
        Some(s) => match tls::fingerprint_of(s) {
            Some(fp) => Ok(Some(fp)),
            None => Err(
                ErrorView::InvalidData(
                    "invalid certificate fingerprint: expected 64 hex characters"@,
                ),
            ),
        },
    }
}

/// The tunnel through QUIC, and whether a pin makes `insecure` moot.
pub open spec fn quic_dial(
    addr: Seq<char>,
    server_name: Seq<char>,
    insecure: bool,
    fingerprint: Option<Seq<char>>,
) -> core::result::Result<(DialView, bool), ErrorView> {
    match pin_of(fingerprint) {
        Err(e) => Err(e),
        Ok(pin) => Ok(
            (
                DialView::Quic {
                    addr,
                    server_name,
                    verification: tls::verification_view(insecure, pin),
                },
                insecure && pin is Some,
            ),
        ),
    }
}

/// The tunnel through WebSocket, and whether a pin makes `insecure` moot.
pub open spec fn ws_dial(
    url: Seq<char>,
    insecure: bool,
    obfuscation: Option<Seq<char>>,
    fingerprint: Option<Seq<char>>,
) -> core::result::Result<(DialView, bool), ErrorView> {
    match pin_of(fingerprint) {
        Err(e) => Err(e),
        Ok(pin) => Ok(
            (
                DialView::Ws {
                    url,
                    tls: if "wss://"@.is_prefix_of(url) {
                        Some(tls::verification_view(insecure, pin))
                    } else {
                        None
                    },
                    key: match obfuscation {
                        Some(k) => Some(encode_utf8(k)),
                        None => None,
                    },
                },
                insecure && pin is Some,
            ),
        ),
    }
}

fn read_pin(fingerprint: &Option<String>) -> (r: Result<Option<[u8; 32]>>)
    ensures
        match pin_of(config::opt_view(*fingerprint)) {
            Ok(Some(fp)) => r matches Ok(Some(v)) && v@ == fp,
            Ok(None) => r matches Ok(None),
            Err(e) => r matches Err(re) && re@ == e,
        },
{
    match fingerprint {
        Some(s) => tls::require_fingerprint(Some(s.as_str())),
        None => tls::require_fingerprint(None),
    }
}

fn plan_quic(addr: &String, server_name: &String, insecure: bool, fingerprint: &Option<String>) ->
    (r: Result<(Dial, bool)>)
    ensures
        match quic_dial(addr@, server_name@, insecure, config::opt_view(*fingerprint)) {
            Ok((d, moot)) => r matches Ok((rd, rm)) && rd@ == d && rm == moot,
            Err(e) => r matches Err(re) && re@ == e,
        },
{
    let pin = match read_pin(fingerprint) {
        Ok(p) => p,
        Err(e) => return Err(e),
    };
    let moot = insecure && pin.is_some();
    let verification = tls::verification(insecure, pin);
    Ok((Dial::Quic { addr: addr.clone(), server_name: server_name.clone(), verification }, moot))
}

fn plan_ws(
    url: &String,
    insecure: bool,
    obfuscation: &Option<String>,
    fingerprint: &Option<String>,
) -> (r: Result<(Dial, bool)>)
    ensures
        match ws_dial(
            url@,
            insecure,
            config::opt_view(*obfuscation),
            config::opt_view(*fingerprint),
        ) {
            Ok((d, moot)) => r matches Ok((rd, rm)) && rd@ == d && rm == moot,
            Err(e) => r matches Err(re) && re@ == e,
        },
{
    let pin = match read_pin(fingerprint) {
        Ok(p) => p,
        Err(e) => return Err(e),
    };
    let moot = insecure && pin.is_some();
    let tls = if ws::uses_tls(url.as_str()) {
        Some(tls::verification(insecure, pin))
    } else {
        None
    };
    let obfuscator = match obfuscation {
        Some(k) => Some(Obfuscator::new(k.as_str().as_bytes())),
        None => None,
    };
    Ok((Dial::Ws { url: url.clone(), tls, obfuscator }, moot))
}

/// The tunnel that the client's transport stands for.
pub open spec fn client_dial(t: TransportFile) -> core::result::Result<
    (DialView, bool),
    ErrorView,
> {
    match t {
        TransportFile::Quic { addr, server_name, insecure, fingerprint } => quic_dial(
            addr@,
            server_name@,
            insecure,
            config::opt_view(fingerprint),
        ),
        TransportFile::Ws { url, insecure, obfuscation, fingerprint } => ws_dial(
            url@,
            insecure,
            config::opt_view(obfuscation),
            config::opt_view(fingerprint),
        ),
    }
}

/// The tunnel that the way to a next hop stands for.
pub open spec fn hop_dial(t: HopTransportFile) -> core::result::Result<
    (DialView, bool),
    ErrorView,
> {
    match t {
        HopTransportFile::Quic { addr, server_name, insecure, fingerprint } => quic_dial(
            addr@,
            server_name@,
            insecure,
            config::opt_view(fingerprint),
        ),
        HopTransportFile::Ws { url, insecure, obfuscation, fingerprint } => ws_dial(
            url@,
            insecure,
            config::opt_view(obfuscation),
            config::opt_view(fingerprint),
        ),
    }
}

/// Plans the client's tunnel. The flag says whether `insecure` is set and a pin overrides
/// it, which deserves a warning.
pub fn plan_client(t: &TransportFile) -> (r: Result<(Dial, bool)>)
    ensures
        match client_dial(*t) {
            Ok((d, moot)) => r matches Ok((rd, rm)) && rd@ == d && rm == moot,
            Err(e) => r matches Err(re) && re@ == e,
        },
{
    match t {
        TransportFile::Quic { addr, server_name, insecure, fingerprint } => plan_quic(
            addr,
            server_name,
            *insecure,
            fingerprint,
        ),
        TransportFile::Ws { url, insecure, obfuscation, fingerprint } => plan_ws(
            url,
            *insecure,
            obfuscation,
            fingerprint,
        ),
    }
}

/// Plans the tunnel to a next hop; see `plan_client`.
pub fn plan_next_hop(t: &HopTransportFile) -> (r: Result<(Dial, bool)>)
    ensures
        match hop_dial(*t) {
            Ok((d, moot)) => r matches Ok((rd, rm)) && rd@ == d && rm == moot,
            Err(e) => r matches Err(re) && re@ == e,
        },
{
    match t {
        HopTransportFile::Quic { addr, server_name, insecure, fingerprint } => plan_quic(
            addr,
            server_name,
            *insecure,
            fingerprint,
        ),
        HopTransportFile::Ws { url, insecure, obfuscation, fingerprint } => plan_ws(
            url,
            *insecure,
            obfuscation,
            fingerprint,
        ),
    }
}

/// How a tunnel is opened is seen as it is.
pub proof fn law_dial_is_seen_as_it_is(d: Dial)
    ensures
        d matches Dial::Quic { addr, server_name, verification } ==> d@ == (DialView::Quic {
            addr: addr@,
            server_name: server_name@,
            verification: verification@,
        }),
        d matches Dial::Ws { url, tls, obfuscator } ==> (d@ matches DialView::Ws {
            url: u,
            tls: t,
            key,
        } && u == url@ && (tls matches Some(v) ==> t == Some(v@)) && (tls is None ==> t is None)
            && (obfuscator matches Some(ob) ==> key == Some(ob@)) && (obfuscator is None
            ==> key is None)),
{
}

/// A tunnel goes where the configuration says. Its server is judged by the pin if there is one,
/// and the flag then says whether `insecure` was set; without a pin any certificate is accepted
/// if `insecure` is set, and else the public authorities decide. A pin that cannot be read is an
/// error. A WebSocket is judged only where its URL asks for TLS, and obfuscated exactly where a
/// key is configured, with that key.
pub proof fn law_tunnel_follows_configuration(
    url: Seq<char>,
    addr: Seq<char>,
    server_name: Seq<char>,
    insecure: bool,
    obfuscation: Option<Seq<char>>,
    fingerprint: Option<Seq<char>>,
)
    ensures
        ({
            let quic = quic_dial(addr, server_name, insecure, fingerprint);
            let ws = ws_dial(url, insecure, obfuscation, fingerprint);
            let readable = fingerprint is None || tls::fingerprint_of(fingerprint->0) is Some;
            let judged = if fingerprint is Some {
                VerificationView::Pinned(tls::fingerprint_of(fingerprint->0)->0)
            } else if insecure {
                VerificationView::AcceptAny
            } else {
                VerificationView::PublicRoots
            };
            let error = ErrorView::InvalidData(
                "invalid certificate fingerprint: expected 64 hex characters"@,
            );
            &&& readable ==> (quic matches Ok((d, moot)) && d == (DialView::Quic {
                addr,
                server_name,
                verification: judged,
            }) && moot == (insecure && fingerprint is Some))
            &&& !readable ==> quic == Err::<(DialView, bool), ErrorView>(error)
            &&& readable ==> (ws matches Ok((d, moot)) && (d matches DialView::Ws {
                url: u,
                tls,
                key,
            } && u == url && tls == (if seq!['w', 's', 's', ':', '/', '/'].is_prefix_of(url) {
                Some(judged)
            } else {
                None
            }) && (obfuscation matches Some(k) ==> key == Some(encode_utf8(k))) && (
            obfuscation is None ==> key is None)) && moot == (insecure && fingerprint is Some))
            &&& !readable ==> ws == Err::<(DialView, bool), ErrorView>(error)
        }),
{
    reveal_strlit("wss://");
    assert("wss://"@ =~= seq!['w', 's', 's', ':', '/', '/']);
}

/// The client's way to its server and a server's way to the next hop are read alike, each field
/// as itself.
pub proof fn law_both_files_are_read_alike(t: TransportFile, h: HopTransportFile)
    ensures
        t matches TransportFile::Quic { addr, server_name, insecure, fingerprint } ==> client_dial(t)
            == quic_dial(addr@, server_name@, insecure, config::opt_view(fingerprint)),
        t matches TransportFile::Ws { url, insecure, obfuscation, fingerprint } ==> client_dial(t)
            == ws_dial(
            url@,
            insecure,
            config::opt_view(obfuscation),
            config::opt_view(fingerprint),
        ),
        h matches HopTransportFile::Quic { addr, server_name, insecure, fingerprint } ==> hop_dial(
            h,
        ) == quic_dial(addr@, server_name@, insecure, config::opt_view(fingerprint)),
        h matches HopTransportFile::Ws { url, insecure, obfuscation, fingerprint } ==> hop_dial(h)
            == ws_dial(
            url@,
            insecure,
            config::opt_view(obfuscation),
            config::opt_view(fingerprint),
        ),
{
}

/// A configured pin is always enforced, whatever `insecure` says: no tunnel over TLS accepts
/// another certificate.
pub proof fn law_pin_is_enforced(
    url: Seq<char>,
    addr: Seq<char>,
    server_name: Seq<char>,
    insecure: bool,
    obfuscation: Option<Seq<char>>,
    fp: Seq<char>,
)
    ensures
        quic_dial(addr, server_name, insecure, Some(fp)) matches Ok((d, _)) ==> (
        d matches DialView::Quic { verification, .. } && Some(verification)
            == tls::pinned(tls::fingerprint_of(fp))),
        ws_dial(url, insecure, obfuscation, Some(fp)) matches Ok((d, _)) ==> (
        d matches DialView::Ws { tls, .. } && (tls is Some ==> tls == tls::pinned(
            tls::fingerprint_of(fp),
        ))),
{
}

} // verus!
