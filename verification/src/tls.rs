//! Certificates: fingerprints and pins, their textual form, and what a server does about its
//! own.

use vstd::prelude::*;
use vstd::string::*;

use crate::error::{Error, ErrorView, Result};
use crate::outside;
use crate::text;

verus! {

/// Whether `c` is a hexadecimal digit of either case.
pub open spec fn is_hex(c: char) -> bool {
    '0' <= c <= '9' || 'a' <= c <= 'f' || 'A' <= c <= 'F'
}

/// The value of a hexadecimal digit.
pub open spec fn hex_value(c: char) -> int {
    if '0' <= c <= '9' {
        c as int - '0' as int
    } else if 'a' <= c <= 'f' {
        c as int - 'a' as int + 10
    } else {
        c as int - 'A' as int + 10
    }
}

/// `s` without its colons.
pub open spec fn without_colons(s: Seq<char>) -> Seq<char>
    decreases s.len(),
{
    if s.len() == 0 {
        Seq::empty()
    } else if s.last() == ':' {
        without_colons(s.drop_last())
    } else {
        without_colons(s.drop_last()).push(s.last())
    }
}

/// The 32 bytes that `s` stands for: 64 hexadecimal digits of either case, with colons
/// anywhere between them.
pub open spec fn fingerprint_of(s: Seq<char>) -> Option<Seq<u8>> {
    let c = without_colons(s);
    if c.len() == 64 && forall|i: int| 0 <= i < c.len() ==> is_hex(#[trigger] c[i]) {
        Some(Seq::new(32, |i: int| (16 * hex_value(c[2 * i]) + hex_value(c[2 * i + 1])) as u8))
    } else {
        None
    }
}

proof fn lemma_digit_char(d: nat)
    requires
        d < 16,
    ensures
        is_hex(text::digit_char(d)),
        hex_value(text::digit_char(d)) == d,
        text::digit_char(d) != ':',
{
}

proof fn lemma_hex_text(bytes: Seq<u8>)
    ensures
        text::hex_text(bytes).len() == 2 * bytes.len(),
        forall|i: int| 0 <= i < bytes.len() ==> {
            &&& #[trigger] text::hex_text(bytes)[2 * i] == text::digit_char(bytes[i] as nat / 16)
            &&& text::hex_text(bytes)[2 * i + 1] == text::digit_char(bytes[i] as nat % 16)
        },
    decreases bytes.len(),
{
    if bytes.len() > 0 {
        let front = bytes.drop_last();
        lemma_hex_text(front);
        assert forall|i: int| 0 <= i < bytes.len() implies {
            &&& #[trigger] text::hex_text(bytes)[2 * i] == text::digit_char(bytes[i] as nat / 16)
            &&& text::hex_text(bytes)[2 * i + 1] == text::digit_char(bytes[i] as nat % 16)
        } by {
            if i < front.len() {
                assert(front[i] == bytes[i]);
                assert(text::hex_text(front)[2 * i] == text::digit_char(front[i] as nat / 16));
            }
        }
    }
}

proof fn lemma_without_colons_none(s: Seq<char>)
    requires
        forall|i: int| 0 <= i < s.len() ==> #[trigger] s[i] != ':',
    ensures
        without_colons(s) == s,
    decreases s.len(),
{
    if s.len() > 0 {
        let d = s.drop_last();
        assert forall|i: int| 0 <= i < d.len() implies #[trigger] d[i] != ':' by {
            assert(s[i] != ':');
        }
        lemma_without_colons_none(d);
        assert(s[s.len() - 1] != ':');
        assert(d.push(s.last()) =~= s);
    } else {
        assert(s =~= Seq::empty());
    }
}

proof fn lemma_hex_chars(bytes: Seq<u8>, k: int)
    requires
        0 <= k < text::hex_text(bytes).len(),
    ensures
        is_hex(text::hex_text(bytes)[k]),
        text::hex_text(bytes)[k] != ':',
{
    lemma_hex_text(bytes);
    let i = k / 2;
    assert(text::hex_text(bytes)[2 * i] == text::digit_char(bytes[i] as nat / 16));
    lemma_digit_char(bytes[i] as nat / 16);
    lemma_digit_char(bytes[i] as nat % 16);
    assert(k == 2 * i || k == 2 * i + 1);
}

/// A fingerprint that was written in hexadecimal is read back.
pub proof fn law_fingerprint_roundtrip(fp: Seq<u8>)
    requires
        fp.len() == 32,
    ensures
        fingerprint_of(text::hex_text(fp)) == Some(fp),
{
    let h = text::hex_text(fp);
    lemma_hex_text(fp);
    assert forall|k: int| 0 <= k < h.len() implies #[trigger] h[k] != ':' && is_hex(h[k]) by {
        lemma_hex_chars(fp, k);
    }
    lemma_without_colons_none(h);
    let got = Seq::new(32, |i: int| (16 * hex_value(h[2 * i]) + hex_value(h[2 * i + 1])) as u8);
    assert forall|i: int| 0 <= i < 32 implies got[i] == fp[i] by {
        assert(h[2 * i] == text::digit_char(fp[i] as nat / 16));
        lemma_digit_char(fp[i] as nat / 16);
        lemma_digit_char(fp[i] as nat % 16);
    }
    assert(got =~= fp);
}

/// A fingerprint is read exactly from 64 hexadecimal digits of either case, with colons anywhere:
/// each two digits are one byte, the higher one first.
pub proof fn law_fingerprint_is_64_digits(s: Seq<char>, i: int)
    requires
        0 <= i < 32,
    ensures
        without_colons(s) == s.filter(|c: char| c != ':'),
        ({
            let c = s.filter(|c: char| c != ':');
            &&& fingerprint_of(s) is Some <==> c.len() == 64 && forall|j: int|
                0 <= j < 64 ==> '0' <= #[trigger] c[j] <= '9' || 'a' <= c[j] <= 'f' || 'A' <= c[j]
                    <= 'F'
            &&& fingerprint_of(s) matches Some(fp) ==> fp.len() == 32 && text::digit_value(
                lower(c[2 * i]),
            ) == fp[i] / 16 && text::digit_value(lower(c[2 * i + 1])) == fp[i] % 16
        }),
{
    lemma_without_colons_filters(s);
    let c = without_colons(s);
    if let Some(fp) = fingerprint_of(s) {
        assert(is_hex(c[2 * i]));
        assert(is_hex(c[2 * i + 1]));
    } else if c.len() == 64 && forall|j: int|
        0 <= j < 64 ==> '0' <= #[trigger] c[j] <= '9' || 'a' <= c[j] <= 'f' || 'A' <= c[j] <= 'F' {
        assert forall|j: int| 0 <= j < c.len() implies is_hex(#[trigger] c[j]) by {}
    }
}

/// A letter in lower case; anything else as it is.
pub open spec fn lower(c: char) -> char {
    if 'A' <= c <= 'Z' {
        (c as int + 32) as char
    } else {
        c
    }
}

proof fn lemma_without_colons_filters(s: Seq<char>)
    ensures
        without_colons(s) == s.filter(|c: char| c != ':'),
    decreases s.len(),
{
    reveal(Seq::filter);
    if s.len() > 0 {
        lemma_without_colons_filters(s.drop_last());
    }
}

proof fn lemma_without_colons_idempotent(s: Seq<char>)
    ensures
        without_colons(without_colons(s)) == without_colons(s),
    decreases s.len(),
{
    if s.len() > 0 {
        let d = s.drop_last();
        lemma_without_colons_idempotent(d);
        if s.last() != ':' {
            assert(without_colons(s).drop_last() =~= without_colons(d));
        }
    }
}

/// Colons make no difference, wherever they stand.
pub proof fn law_fingerprint_ignores_colons(s: Seq<char>)
    ensures
        fingerprint_of(without_colons(s)) == fingerprint_of(s),
{
    lemma_without_colons_idempotent(s);
}

/// The digit `c` in upper case.
pub open spec fn upper(c: char) -> char {
    if 'a' <= c <= 'f' {
        (c as int - 32) as char
    } else {
        c
    }
}

proof fn lemma_without_colons_upper(s: Seq<char>)
    ensures
        without_colons(s.map_values(|c: char| upper(c))) == without_colons(s).map_values(
            |c: char| upper(c),
        ),
    decreases s.len(),
{
    let u = s.map_values(|c: char| upper(c));
    if s.len() > 0 {
        let d = s.drop_last();
        lemma_without_colons_upper(d);
        assert(u.drop_last() =~= d.map_values(|c: char| upper(c)));
        assert(u.last() == upper(s.last()));
        assert(without_colons(s).map_values(|c: char| upper(c)) =~= without_colons(u));
    } else {
        assert(without_colons(s).map_values(|c: char| upper(c)) =~= without_colons(u));
    }
}

/// Upper case makes no difference.
pub proof fn law_fingerprint_ignores_case(s: Seq<char>)
    ensures
        fingerprint_of(s.map_values(|c: char| upper(c))) == fingerprint_of(s),
{
    lemma_without_colons_upper(s);
    let u = without_colons(s.map_values(|c: char| upper(c)));
    let w = without_colons(s);
    assert forall|i: int| 0 <= i < w.len() implies is_hex(#[trigger] u[i]) == is_hex(w[i]) && (
    is_hex(w[i]) ==> hex_value(u[i]) == hex_value(w[i])) by {
        assert(u[i] == upper(w[i]));
    }
    if fingerprint_of(s) is Some {
        let a = Seq::new(32, |i: int| (16 * hex_value(u[2 * i]) + hex_value(u[2 * i + 1])) as u8);
        let b = Seq::new(32, |i: int| (16 * hex_value(w[2 * i]) + hex_value(w[2 * i + 1])) as u8);
        assert forall|i: int| 0 <= i < 32 implies a[i] == b[i] by {
            assert(is_hex(w[2 * i]) && is_hex(w[2 * i + 1]));
            assert(is_hex(u[2 * i]) && is_hex(u[2 * i + 1]));
        }
        assert(a =~= b);
    } else if w.len() == 64 {
        let k = choose|k: int| 0 <= k < w.len() && !is_hex(#[trigger] w[k]);
        assert(!is_hex(u[k]));
    }
}

/// The bytes in lower-case hexadecimal.
pub fn hex_encode(bytes: &[u8]) -> (s: String)
    ensures
        s@ == text::hex_text(bytes@),
{
    let mut s = String::new();
    let mut i: usize = 0;
    assert(bytes@.take(0) =~= Seq::empty());
    assert(s@ =~= Seq::empty());
    while i < bytes.len()
        invariant
            i <= bytes@.len(),
            s@ == text::hex_text(bytes@.take(i as int)),
        decreases bytes@.len() - i,
    {
        assert(bytes@.take(i as int + 1).drop_last() =~= bytes@.take(i as int));
        text::put_hex(&mut s, bytes[i]);
        i = i + 1;
    }
    assert(bytes@.take(i as int) =~= bytes@);
    s
}

/// A fingerprint in lower-case hexadecimal.
pub fn fingerprint_hex(bytes: &[u8; 32]) -> (s: String)
    ensures
        s@ == text::hex_text(bytes@),
{
    hex_encode(bytes.as_slice())
}

fn digit_value(c: char) -> (r: Option<u8>)
    ensures
        is_hex(c) ==> (r matches Some(v) && v == hex_value(c) && v < 16),
        !is_hex(c) ==> r is None,
{
    let v: u32 = c as u32;
    if '0' <= c && c <= '9' {
        Some((v - 48) as u8)
    } else if 'a' <= c && c <= 'f' {
        Some((v - 87) as u8)
    } else if 'A' <= c && c <= 'F' {
        Some((v - 55) as u8)
    } else {
        None
    }
}

/// Reads a fingerprint: 64 hexadecimal digits, with colons anywhere between them.
pub fn parse_fingerprint(s: &str) -> (r: Option<[u8; 32]>)
    ensures
        match fingerprint_of(s@) {
            Some(fp) => r matches Some(v) && v@ == fp,
            None => r is None,
        },
{
    let chars = text::chars_of(s);
    let mut digits: Vec<char> = Vec::new();
    let mut i: usize = 0;
    assert(chars@.take(0) =~= Seq::empty());
    assert(digits@ =~= without_colons(chars@.take(0)));
    while i < chars.len()
        invariant
            i <= chars@.len(),
            digits@ == without_colons(chars@.take(i as int)),
        decreases chars@.len() - i,
    {
        assert(chars@.take(i as int + 1).drop_last() =~= chars@.take(i as int));
        if chars[i] != ':' {
            digits.push(chars[i]);
        }
        i = i + 1;
    }
    assert(chars@.take(i as int) =~= chars@);
    if digits.len() != 64 {
        return None;
    }
    let mut out: [u8; 32] = [0;32];
    let mut k: usize = 0;
    while k < 32
        invariant
            k <= 32,
            digits@.len() == 64,
            digits@ == without_colons(s@),
            forall|j: int| 0 <= j < 2 * k ==> is_hex(#[trigger] digits@[j]),
            forall|j: int|
                0 <= j < k ==> #[trigger] out@[j] == (16 * hex_value(digits@[2 * j]) + hex_value(
                    digits@[2 * j + 1],
                )) as u8,
        decreases 32 - k,
    {
        let hi: u8 = match digit_value(digits[2 * k]) {
            Some(v) => v,
            None => return None,
        };
        let lo: u8 = match digit_value(digits[2 * k + 1]) {
            Some(v) => v,
            None => return None,
        };
        out[k] = 16 * hi + lo;
        k = k + 1;
    }
    proof {
        let fp = Seq::new(
            32,
            |i: int| (16 * hex_value(digits@[2 * i]) + hex_value(digits@[2 * i + 1])) as u8,
        );
        assert(out@ =~= fp);
    }
    Some(out)
}

/// Reads an optional fingerprint from a configuration.
pub fn require_fingerprint(s: Option<&str>) -> (r: Result<Option<[u8; 32]>>)
    ensures
        s is None ==> r matches Ok(None),
        s matches Some(t) ==> match fingerprint_of(t@) {
            Some(fp) => r matches Ok(Some(v)) && v@ == fp,
            None => r matches Err(e) && e@ == ErrorView::InvalidData(
                "invalid certificate fingerprint: expected 64 hex characters"@,
            ),
        },
{
    match s {
        None => Ok(None),
        Some(t) => match parse_fingerprint(t) {
            Some(v) => Ok(Some(v)),
            None => Err(
                Error::InvalidData("invalid certificate fingerprint: expected 64 hex characters"),
            ),
        },
    }
}

/// The SHA-256 fingerprint of a certificate in DER form.
pub fn cert_fingerprint(der: &[u8]) -> (fp: [u8; 32])
    ensures
        fp@ == outside::sha256_digest(der@),
{
    outside::sha256(der)
}

/// The SHA-256 fingerprint of a certificate in DER form, in lower-case hexadecimal.
pub fn cert_fingerprint_hex(der: &[u8]) -> (s: String)
    ensures
        s@ == text::hex_text(outside::sha256_digest(der@)),
{
    fingerprint_hex(&cert_fingerprint(der))
}

/// Whether two fingerprints are the same.
fn same_fingerprint(a: &[u8; 32], b: &[u8; 32]) -> (r: bool)
    ensures
        r == (a@ == b@),
{
    crate::message::ct_eq(a.as_slice(), b.as_slice())
}

/// Judges a server's certificate: with a pin only the one with that fingerprint is accepted,
/// without one any.
pub fn verify_pin(pin: Option<&[u8; 32]>, der: &[u8]) -> (r: Result<()>)
    ensures
        pin is None ==> r is Ok,
        pin matches Some(p) ==> {
            &&& p@ == outside::sha256_digest(der@) ==> r is Ok
            &&& p@ != outside::sha256_digest(der@) ==> (r matches Err(e) && e@
                == ErrorView::Message("certificate fingerprint mismatch"@))
        },
{
    match pin {
        Some(p) => if same_fingerprint(&cert_fingerprint(der), p) {
            Ok(())
        } else {
            Err(Error::Message("certificate fingerprint mismatch".to_owned()))
        },
        None => Ok(()),
    }
}

/// How a client judges the certificate of its server.
#[derive(Debug, Clone, Copy, PartialEq, Eq)]
pub enum Verification {
    /// Only the certificate with this fingerprint is accepted.
    Pinned([u8; 32]),
    /// Any certificate is accepted.
    AcceptAny,
    /// The certificate has to be signed by a public authority.
    PublicRoots,
}

/// A `Verification` with its fingerprint as a sequence.
#[verifier::ext_equal]
pub enum VerificationView {
    Pinned(Seq<u8>),
    AcceptAny,
    PublicRoots,
}

impl View for Verification {
    type V = VerificationView;

    open spec fn view(&self) -> VerificationView {
        match self {
            Verification::Pinned(p) => VerificationView::Pinned(p@),
            Verification::AcceptAny => VerificationView::AcceptAny,
            Verification::PublicRoots => VerificationView::PublicRoots,
        }
    }
}

/// The judgement by a pin, if there is one.
pub open spec fn pinned(pin: Option<Seq<u8>>) -> Option<VerificationView> {
    match pin {
        Some(p) => Some(VerificationView::Pinned(p)),
        None => None,
    }
}

/// How a client judges the certificate of its server: a pin goes before `insecure`.
pub open spec fn verification_view(insecure: bool, pin: Option<Seq<u8>>) -> VerificationView {
    match pin {
        Some(p) => VerificationView::Pinned(p),
        None => if insecure {
            VerificationView::AcceptAny
        } else {
            VerificationView::PublicRoots
        },
    }
}

/// How a certificate is judged is seen as it is.
pub proof fn law_verification_is_seen_as_it_is(v: Verification)
    ensures
        v matches Verification::Pinned(p) ==> v@ == VerificationView::Pinned(p@),
        v is AcceptAny <==> v@ is AcceptAny,
        v is PublicRoots <==> v@ is PublicRoots,
{
}

/// A pin alone decides where there is one; without it, `insecure` does.
pub proof fn law_pin_goes_first(insecure: bool, p: Seq<u8>)
    ensures
        verification_view(insecure, Some(p)) == VerificationView::Pinned(p),
        verification_view(true, None) == VerificationView::AcceptAny,
        verification_view(false, None) == VerificationView::PublicRoots,
        pinned(Some(p)) == Some(VerificationView::Pinned(p)),
        pinned(None) is None,
{
}

/// How a client judges the certificate of its server: a pin goes before `insecure`.
pub fn verification(insecure: bool, pin: Option<[u8; 32]>) -> (v: Verification)
    ensures
        v@ == verification_view(
            insecure,
            match pin {
                Some(p) => Some(p@),
                None => None,
            },
        ),
{
    match pin {
        Some(p) => Verification::Pinned(p),
        None => if insecure {
            Verification::AcceptAny
        } else {
            Verification::PublicRoots
        },
    }
}

/// Judges a server's certificate where that is not left to the public authorities.
pub fn judge_certificate(v: &Verification, der: &[u8]) -> (r: Result<()>)
    ensures
        v@ matches VerificationView::Pinned(p) ==> {
            &&& p == outside::sha256_digest(der@) ==> r is Ok
            &&& p != outside::sha256_digest(der@) ==> (r matches Err(e) && e@
                == ErrorView::Message("certificate fingerprint mismatch"@))
        },
        !(v@ is Pinned) ==> r is Ok,
{
    match v {
        Verification::Pinned(p) => verify_pin(Some(p), der),
        _ => verify_pin(None, der),
    }
}

/// What a server does about its certificate.
#[derive(Debug, Clone, Copy, PartialEq, Eq)]
pub enum CertPlan {
    /// Load certificate and key from their files.
    Load,
    /// Make new ones and store them.
    GenerateAndStore,
    /// Make new ones for this run only.
    Generate,
}

/// What a server does about its certificate, given whether a path for certificate and key is
/// configured and, if so, whether the file exists.
pub open spec fn plan_of(cert: Option<bool>, key: Option<bool>) -> core::result::Result<
    CertPlan,
    ErrorView,
> {
    match (cert, key) {
        (Some(true), Some(true)) => Ok(CertPlan::Load),
        (Some(false), Some(false)) => Ok(CertPlan::GenerateAndStore),
        (None, None) => Ok(CertPlan::Generate),
        (Some(_), Some(_)) => Err(
            ErrorView::Message("cert and key must either both exist or both be absent"@),
        ),
        _ => Err(ErrorView::Message("cert and key paths must be set together"@)),
    }
}

/// What a server does about its certificate. Each argument says whether a path is
/// configured and, if so, whether the file exists.
pub fn cert_plan(cert: Option<bool>, key: Option<bool>) -> (r: Result<CertPlan>)
    ensures
        match plan_of(cert, key) {
            Ok(plan) => r == Ok::<CertPlan, Error>(plan),
            Err(e) => r matches Err(x) && x@ == e,
        },
{
    match (cert, key) {
        (Some(c), Some(k)) => if c && k {
            Ok(CertPlan::Load)
        } else if c != k {
            Err(Error::Message("cert and key must either both exist or both be absent".to_owned()))
        } else {
            Ok(CertPlan::GenerateAndStore)
        },
        (None, None) => Ok(CertPlan::Generate),
        _ => Err(Error::Message("cert and key paths must be set together".to_owned())),
    }
}

/// A certificate in DER form, and its private key in PKCS #8 form.
#[derive(Debug)]
pub struct GeneratedCert {
    pub cert_der: Vec<u8>,
    pub key_der: Vec<u8>,
}

/// The certificate and key that were made, or the failure with its own text.
pub fn adopt_certificate(made: core::result::Result<(Vec<u8>, Vec<u8>), String>) -> (r: Result<
    GeneratedCert,
>)
    ensures
        match made {
            Ok((cert, key)) => r matches Ok(g) && g.cert_der@ == cert@ && g.key_der@ == key@,
            Err(text) => r matches Err(e) && e@ == ErrorView::Message(text@),
        },
{
    match made {
        Ok((cert_der, key_der)) => Ok(GeneratedCert { cert_der, key_der }),
        Err(text) => Err(Error::Message(text)),
    }
}

/// Whether the issuer of self-signed certificates, asked for one for `server_name`, may answer
/// `made`.
pub closed spec fn may_issue(
    server_name: &str,
    made: core::result::Result<(Vec<u8>, Vec<u8>), String>,
) -> bool {
    call_ensures(outside::self_signed, (server_name,), made)
}

/// Makes a new key and a certificate for `server_name` signed with it: what the issuer
/// answers for that name, the certificate as the certificate and the key as the key, or its
/// failure. The key is random, so nothing is said of the bytes. Fails for a name that is not
/// ASCII.
pub fn generate_self_signed(server_name: &str) -> (r: Result<GeneratedCert>)
    ensures
        exists|made: core::result::Result<(Vec<u8>, Vec<u8>), String>| #[trigger]
            may_issue(server_name, made) && (match made {
                Ok((cert, key)) => r matches Ok(g) && g.cert_der@ == cert@ && g.key_der@ == key@,
                Err(text) => r matches Err(e) && e@ == ErrorView::Message(text@),
            }),
        !outside::ascii(server_name@) ==> r is Err,
{
    let made = outside::self_signed(server_name);
    assert(may_issue(server_name, made));
    adopt_certificate(made)
}

/// A text in lines of 64 characters.
pub open spec fn lines_of_64(s: Seq<char>) -> Seq<char>
    decreases s.len(),
{
    if s.len() == 0 {
        Seq::empty()
    } else if s.len() <= 64 {
        s + "\n"@
    } else {
        s.take(64) + "\n"@ + lines_of_64(s.skip(64))
    }
}

/// The PEM form of `der`.
pub open spec fn pem_spec(tag: Seq<char>, der: Seq<u8>) -> Seq<char> {
    "-----BEGIN "@ + tag + "-----\n"@ + lines_of_64(outside::base64_text(der)) + "-----END "@ + tag
        + "-----\n"@
}

proof fn lemma_base64_char(x: int, y: int)
    requires
        0 <= x < 64,
        0 <= y < 64,
    ensures
        outside::base64_char(x) == outside::base64_char(y) ==> x == y,
        outside::base64_char(x) != '=',
{
}

/// The first three bytes as one number, bytes that are not there as zero.
spec fn group_bits(data: Seq<u8>) -> int {
    let first = data[0] * 65536;
    let second = if data.len() > 1 {
        data[1] * 256
    } else {
        0
    };
    let third = if data.len() > 2 {
        data[2] as int
    } else {
        0
    };
    first + second + third
}

proof fn lemma_base64_group(data: Seq<u8>)
    requires
        data.len() > 0,
    ensures
        0 <= group_bits(data) < 16777216,
        outside::base64_text(data).len() >= 4,
        outside::base64_text(data)[0] == outside::base64_char(group_bits(data) / 262144),
        outside::base64_text(data)[1] == outside::base64_char(group_bits(data) / 4096 % 64),
        outside::base64_text(data)[2] == (if data.len() > 1 {
            outside::base64_char(group_bits(data) / 64 % 64)
        } else {
            '='
        }),
        outside::base64_text(data)[3] == (if data.len() > 2 {
            outside::base64_char(group_bits(data) % 64)
        } else {
            '='
        }),
        data.len() <= 1 ==> group_bits(data) / 64 % 64 == 0,
        data.len() <= 2 ==> group_bits(data) % 64 == 0,
{
    let w = group_bits(data);
    if data.len() == 1 {
        let v = data[0] * 16;
        assert(w == v * 4096);
        assert(w / 262144 == v / 64);
        assert(w / 4096 % 64 == v % 64);
    } else if data.len() == 2 {
        let v = (data[0] * 256 + data[1]) * 4;
        assert(w == v * 64);
        assert(w / 262144 == v / 4096);
        assert(w / 4096 % 64 == v / 64 % 64);
        assert(w / 64 % 64 == v % 64);
    }
}

/// What four characters say is settled by each of them.
proof fn lemma_base64_digits(v: int, w: int)
    requires
        0 <= v < 16777216,
        0 <= w < 16777216,
        v / 262144 == w / 262144,
        v / 4096 % 64 == w / 4096 % 64,
        v / 64 % 64 == w / 64 % 64,
        v % 64 == w % 64,
    ensures
        v == w,
{
}

proof fn lemma_group_bytes(a: Seq<u8>, b: Seq<u8>)
    requires
        a.len() > 0,
        b.len() > 0,
        a.len() == b.len() || (a.len() > 2 && b.len() > 2),
        group_bits(a) == group_bits(b),
    ensures
        a[0] == b[0],
        a.len() > 1 ==> a[1] == b[1],
        a.len() > 2 ==> a[2] == b[2],
{
}

proof fn lemma_base64_injective(a: Seq<u8>, b: Seq<u8>)
    requires
        outside::base64_text(a) == outside::base64_text(b),
    ensures
        a == b,
    decreases a.len(),
{
    if a.len() == 0 || b.len() == 0 {
        if a.len() > 0 {
            lemma_base64_group(a);
        }
        if b.len() > 0 {
            lemma_base64_group(b);
        }
    } else {
        lemma_first_group(a, b);
        if a.len() >= 3 {
            assert(outside::base64_text(a).skip(4) == outside::base64_text(a.skip(3)));
            assert(outside::base64_text(b).skip(4) == outside::base64_text(b.skip(3)));
            lemma_base64_injective(a.skip(3), b.skip(3));
            assert(a.take(3) == b.take(3));
            assert(a == a.take(3) + a.skip(3));
            assert(b == b.take(3) + b.skip(3));
        }
    }
}

/// The first four characters settle the first three bytes, or all where there are fewer.
proof fn lemma_first_group(a: Seq<u8>, b: Seq<u8>)
    requires
        a.len() > 0,
        b.len() > 0,
        outside::base64_text(a) == outside::base64_text(b),
    ensures
        a.len() == b.len() || (a.len() > 2 && b.len() > 2),
        a[0] == b[0],
        a.len() > 1 ==> a[1] == b[1],
        a.len() > 2 ==> a[2] == b[2],
{
    let (v, w) = (group_bits(a), group_bits(b));
    lemma_base64_group(a);
    lemma_base64_group(b);
    lemma_base64_char(v / 262144, w / 262144);
    lemma_base64_char(v / 4096 % 64, w / 4096 % 64);
    lemma_base64_char(v / 64 % 64, w / 64 % 64);
    lemma_base64_char(w / 64 % 64, v / 64 % 64);
    lemma_base64_char(v % 64, w % 64);
    lemma_base64_char(w % 64, v % 64);
    lemma_base64_digits(v, w);
    lemma_group_bytes(a, b);
}

proof fn lemma_lines_len(s: Seq<char>)
    ensures
        lines_of_64(s).len() >= s.len(),
        s.len() > 0 ==> lines_of_64(s).len() > s.len(),
    decreases s.len(),
{
    reveal_strlit("\n");
    if s.len() > 64 {
        lemma_lines_len(s.skip(64));
    }
}

proof fn lemma_lines_injective(s: Seq<char>, t: Seq<char>)
    requires
        lines_of_64(s) == lines_of_64(t),
    ensures
        s == t,
    decreases s.len(),
{
    reveal_strlit("\n");
    lemma_lines_len(s);
    lemma_lines_len(t);
    if s.len() > 64 && t.len() > 64 {
        assert(lines_of_64(s).skip(65) == lines_of_64(s.skip(64)));
        assert(lines_of_64(t).skip(65) == lines_of_64(t.skip(64)));
        lemma_lines_injective(s.skip(64), t.skip(64));
        assert(s.take(64) == lines_of_64(s).take(64));
        assert(t.take(64) == lines_of_64(t).take(64));
        assert(s == s.take(64) + s.skip(64));
        assert(t == t.take(64) + t.skip(64));
    } else if 0 < s.len() <= 64 && 0 < t.len() <= 64 {
        assert(s == lines_of_64(s).drop_last());
        assert(t == lines_of_64(t).drop_last());
    }
}

/// Lines have 64 characters and a line break, and the last one has what is left and a line break:
/// every character is there, in its place, with one line break after each 64 of them and one at
/// the end.
pub proof fn law_lines_of_64(s: Seq<char>, i: int)
    requires
        0 <= i < s.len(),
    ensures
        lines_of_64(s).len() == s.len() + (s.len() + 63) / 64,
        lines_of_64(s)[i + i / 64] == s[i],
        i % 64 == 63 || i == s.len() - 1 ==> lines_of_64(s)[i + i / 64 + 1] == '\n',
    decreases s.len(),
{
    reveal_strlit("\n");
    if s.len() > 64 {
        let t = s.skip(64);
        if i >= 64 {
            law_lines_of_64(t, i - 64);
            assert(i / 64 == (i - 64) / 64 + 1);
        } else {
            law_lines_of_64(t, 0);
        }
        assert((s.len() + 63) / 64 == (t.len() + 63) / 64 + 1);
    }
}

/// A PEM text is its lines between two lines that name what it is.
pub proof fn law_pem_layout(tag: Seq<char>, der: Seq<u8>)
    ensures
        pem_spec(tag, der) == "-----BEGIN "@ + tag + "-----\n"@ + lines_of_64(
            outside::base64_text(der),
        ) + "-----END "@ + tag + "-----\n"@,
{
}

/// A server's certificate is loaded where both files are there, made and stored where neither is,
/// and made for one run where no path is set; one path or one file alone is an error that says so.
pub proof fn law_certificate_plans(there: bool)
    ensures
        plan_of(Some(there), Some(there)) == Ok::<CertPlan, ErrorView>(
            if there {
                CertPlan::Load
            } else {
                CertPlan::GenerateAndStore
            },
        ),
        plan_of(Some(there), Some(!there)) == Err::<CertPlan, ErrorView>(
            ErrorView::Message("cert and key must either both exist or both be absent"@),
        ),
        plan_of(None, None) == Ok::<CertPlan, ErrorView>(CertPlan::Generate),
        plan_of(Some(there), None) == Err::<CertPlan, ErrorView>(
            ErrorView::Message("cert and key paths must be set together"@),
        ),
        plan_of(None, Some(there)) == Err::<CertPlan, ErrorView>(
            ErrorView::Message("cert and key paths must be set together"@),
        ),
{
}

/// A PEM text keeps all of the DER form: different bytes give different texts.
pub proof fn law_pem_keeps_der(tag: Seq<char>, a: Seq<u8>, b: Seq<u8>)
    ensures
        pem_spec(tag, a) == pem_spec(tag, b) ==> a == b,
{
    if pem_spec(tag, a) == pem_spec(tag, b) {
        let head = "-----BEGIN "@ + tag + "-----\n"@;
        let tail = "-----END "@ + tag + "-----\n"@;
        let s = lines_of_64(outside::base64_text(a));
        let t = lines_of_64(outside::base64_text(b));
        assert(pem_spec(tag, a) == head + s + tail);
        assert(pem_spec(tag, b) == head + t + tail);
        assert(s == (head + s + tail).subrange(head.len() as int, (head + s).len() as int));
        assert(t == (head + t + tail).subrange(head.len() as int, (head + t).len() as int));
        lemma_lines_injective(outside::base64_text(a), outside::base64_text(b));
        lemma_base64_injective(a, b);
    }
}

/// A server keeps its identity from one start to the next. Where neither file is there, what it
/// makes is stored; where both are, they are loaded; one alone is an error, so neither is ever
/// replaced. Of two identities that read the same as stored, certificate, key and fingerprint
/// are the same.
pub proof fn law_stored_identity_survives(
    cert: Seq<u8>,
    key: Seq<u8>,
    stored_cert: Seq<u8>,
    stored_key: Seq<u8>,
)
    ensures
        plan_of(Some(false), Some(false)) == Ok::<CertPlan, ErrorView>(CertPlan::GenerateAndStore),
        plan_of(Some(true), Some(true)) == Ok::<CertPlan, ErrorView>(CertPlan::Load),
        plan_of(Some(true), Some(false)) is Err,
        plan_of(Some(false), Some(true)) is Err,
        pem_spec("CERTIFICATE"@, cert) == pem_spec("CERTIFICATE"@, stored_cert) && pem_spec(
            "PRIVATE KEY"@,
            key,
        ) == pem_spec("PRIVATE KEY"@, stored_key) ==> cert == stored_cert && key == stored_key
            && outside::sha256_digest(cert) == outside::sha256_digest(stored_cert),
{
    law_pem_keeps_der("CERTIFICATE"@, cert, stored_cert);
    law_pem_keeps_der("PRIVATE KEY"@, key, stored_key);
}

fn put_lines(out: &mut String, chars: &[char])
    ensures
        final(out)@ == old(out)@ + lines_of_64(chars@),
{
    let ghost before = out@;
    let n: usize = chars.len();
    let mut pos: usize = 0;
    assert(chars@.skip(0) =~= chars@);
    assert(out@ + lines_of_64(chars@) =~= before + lines_of_64(chars@));
    while pos < n
        invariant
            pos <= n == chars@.len(),
            out@ + lines_of_64(chars@.skip(pos as int)) == before + lines_of_64(chars@),
        decreases n - pos,
    {
        let ghost start = out@;
        let end: usize = if n - pos <= 64 {
            n
        } else {
            pos + 64
        };
        let mut i: usize = pos;
        assert(out@ =~= start + chars@.subrange(pos as int, pos as int));
        while i < end
            invariant
                pos <= i <= end <= chars@.len(),
                out@ == start + chars@.subrange(pos as int, i as int),
            decreases end - i,
        {
            out.push(chars[i]);
            i = i + 1;
            assert(out@ =~= start + chars@.subrange(pos as int, i as int));
        }
        text::put_str(out, "\n");
        proof {
            let rest = chars@.skip(pos as int);
            let line = chars@.subrange(pos as int, end as int);
            if rest.len() <= 64 {
                assert(line =~= rest);
                assert(chars@.skip(end as int) =~= Seq::empty());
            } else {
                assert(line =~= rest.take(64));
                assert(chars@.skip(end as int) =~= rest.skip(64));
            }
            assert(out@ + lines_of_64(chars@.skip(end as int)) =~= start + lines_of_64(rest));
        }
        pos = end;
    }
    assert(chars@.skip(pos as int) =~= Seq::empty());
    assert(out@ =~= before + lines_of_64(chars@));
}

/// The PEM form of `der`, with the given label. It must fit into memory.
pub fn pem_text(tag: &str, der: &[u8]) -> (s: String)
    requires
        der@.len() / 3 * 4 + 4 <= isize::MAX,
    ensures
        s@ == pem_spec(tag@, der@),
{
    let b64 = outside::base64_encode(der);
    let chars = text::chars_of(b64.as_str());
    let mut s = String::new();
    text::put_str(&mut s, "-----BEGIN ");
    text::put_str(&mut s, tag);
    text::put_str(&mut s, "-----\n");
    put_lines(&mut s, chars.as_slice());
    text::put_str(&mut s, "-----END ");
    text::put_str(&mut s, tag);
    text::put_str(&mut s, "-----\n");
    assert(s@ =~= pem_spec(tag@, der@));
    s
}

} // verus!
