//! Certificates: what the proxy's authority and the hosts it stands in for are
//! certified with, and the authority's certificate as text.

use vstd::prelude::*;

use crate::numbers;
use crate::text::{self, prefixed};

verus! {

/// Why a certificate, or a configuration that uses it, could not be made.
#[derive(Debug)]
pub enum CertError {
    /// No key could be made.
    KeyGen(String),
    /// The authority could not be certified.
    CaGen(String),
    /// A host could not be certified.
    LeafGen(String),
    /// The key cannot sign.
    KeyImport(String),
    /// The server could not be configured.
    ServerConfig(String),
}

/// The text of an error.
pub open spec fn cert_error_text(e: CertError) -> Seq<char> {
    match e {
        CertError::KeyGen(m) => "rcgen key generation failed: "@ + m@,
        CertError::CaGen(m) => "rcgen CA certificate generation failed: "@ + m@,
        CertError::LeafGen(m) => "rcgen leaf certificate generation failed: "@ + m@,
        CertError::KeyImport(m) => "rustls key import failed: "@ + m@,
        CertError::ServerConfig(m) => "rustls server config build failed: "@ + m@,
    }
}

impl CertError {
    /// The text of the error.
    pub fn message(&self) -> (s: String)
        ensures
            s@ == cert_error_text(*self),
    {
        match self {
            CertError::KeyGen(m) => prefixed("rcgen key generation failed: ", m.as_str()),
            CertError::CaGen(m) => prefixed(
                "rcgen CA certificate generation failed: ",
                m.as_str(),
            ),
            CertError::LeafGen(m) => prefixed(
                "rcgen leaf certificate generation failed: ",
                m.as_str(),
            ),
            CertError::KeyImport(m) => prefixed("rustls key import failed: ", m.as_str()),
            CertError::ServerConfig(m) => prefixed(
                "rustls server config build failed: ",
                m.as_str(),
            ),
        }
    }
}

// ---------------------------------------------------------------------------
// What is certified
// ---------------------------------------------------------------------------

/// What a certificate is to say.
pub struct Profile {
    /// Whether its holder may certify others.
    pub is_ca: bool,
    /// The common name of its holder.
    pub common_name: String,
    /// The organization of its holder.
    pub organization: Option<String>,
    /// The host names that it is for.
    pub names: Vec<String>,
    /// From when on it holds, in seconds from now.
    pub from_secs: i64,
    /// Until when it holds, in seconds from now.
    pub until_secs: i64,
}

/// Whether the profile is that of the authority: it may certify others, is for no
/// host, and holds from a day ago for 3650 days from now.
pub open spec fn is_authority(p: Profile) -> bool {
    &&& p.is_ca
    &&& p.common_name@ == "ae-poc MITM CA"@
    &&& crate::text::opt_view(p.organization) == Some("mintybasil"@)
    &&& p.names@.len() == 0
    &&& p.from_secs == -(24 * 3600)
    &&& p.until_secs == 3650 * 24 * 3600
}

/// Whether the profile is that of a host: it certifies that host only, may certify
/// no others, and holds from a minute ago for seven days from now.
pub open spec fn is_host(p: Profile, host: Seq<char>) -> bool {
    &&& !p.is_ca
    &&& p.common_name@ == host
    &&& p.organization is None
    &&& p.names@.len() == 1
    &&& p.names@[0]@ == host
    &&& p.from_secs == -60
    &&& p.until_secs == 7 * 24 * 3600
}

/// What the authority's certificate says.
pub fn ca_profile() -> (p: Profile)
    ensures
        is_authority(p),
{
    Profile {
        is_ca: true,
        common_name: "ae-poc MITM CA".to_owned(),
        organization: Some("mintybasil".to_owned()),
        names: Vec::new(),
        from_secs: -86400,
        until_secs: 315360000,
    }
}

/// What the certificate of a host says.
pub fn leaf_profile(host: &str) -> (p: Profile)
    ensures
        is_host(p, host@),
{
    let mut names: Vec<String> = Vec::new();
    names.push(host.to_owned());
    Profile {
        is_ca: false,
        common_name: host.to_owned(),
        organization: None,
        names,
        from_secs: -60,
        until_secs: 604800,
    }
}

// ---------------------------------------------------------------------------
// The authority's certificate
// ---------------------------------------------------------------------------

/// The SHA-256 digest of a run of bytes, as `sha2` computes it.
pub uninterp spec fn sha256(data: Seq<u8>) -> Seq<u8>;

/// The text that `pem` makes of a certificate.
pub uninterp spec fn certificate_pem(der: Seq<u8>) -> Seq<char>;

/// `sha2::Sha256::digest`: the SHA-256 digest of `data`, which has 32 bytes and
/// depends on the data alone.
#[verifier::external_body]
fn digest(data: &[u8]) -> (d: Vec<u8>)
    ensures
        d@ == sha256(data@),
        d@.len() == 32,
{
    <sha2::Sha256 as sha2::Digest>::digest(data).to_vec()
}

/// `pem::encode` of `der` under the label `CERTIFICATE`. The text depends on the
/// bytes alone.
#[verifier::external_body]
fn encode_certificate(der: &[u8]) -> (s: String)
    ensures
        s@ == certificate_pem(der@),
{
    pem::encode(&pem::Pem::new("CERTIFICATE", der.to_vec()))
}

/// The two hexadecimal digits of a byte.
pub open spec fn hex_byte(b: u8) -> Seq<char> {
    seq![numbers::hex_digit(b as int / 16), numbers::hex_digit(b as int % 16)]
}

/// The bytes in hexadecimal digits, with a colon between each two of them.
pub open spec fn colon_hex_text(bytes: Seq<u8>) -> Seq<char> {
    text::join(Seq::new(bytes.len(), |i: int| hex_byte(bytes[i])), ":"@)
}

/// The bytes in hexadecimal digits, with a colon between each two of them.
pub fn colon_hex(bytes: &[u8]) -> (s: String)
    ensures
        s@ == colon_hex_text(bytes@),
{
    let mut parts: Vec<Vec<char>> = Vec::new();
    let mut i: usize = 0;
    while i < bytes.len()
        invariant
            i <= bytes@.len(),
            parts@.len() == i,
            forall|j: int| 0 <= j < i ==> (#[trigger] parts@[j])@ == hex_byte(bytes@[j]),
        decreases bytes@.len() - i,
    {
        let b: u8 = bytes[i];
        let mut part: Vec<char> = Vec::new();
        part.push(numbers::hex_char(b / 16));
        part.push(numbers::hex_char(b % 16));
        proof {
            assert(part@ =~= hex_byte(b));
        }
        parts.push(part);
        i = i + 1;
    }
    let sep = text::chars_of(":");
    let all = text::join_chars(&parts, sep.as_slice());
    proof {
        assert(text::views(parts@) =~= Seq::new(bytes@.len(), |i: int| hex_byte(bytes@[i])));
    }
    text::string_of(all.as_slice())
}

/// The proxy's certificate authority, as others see it.
pub struct Ca {
    /// Its certificate, in DER.
    pub ca_der: Vec<u8>,
}

impl Ca {
    /// The certificate as PEM text.
    pub fn ca_pem(&self) -> (s: String)
        ensures
            s@ == certificate_pem(self.ca_der@),
    {
        encode_certificate(self.ca_der.as_slice())
    }

    /// The SHA-256 digest of the certificate, in hexadecimal digits with colons.
    pub fn fingerprint(&self) -> (s: String)
        ensures
            s@ == colon_hex_text(sha256(self.ca_der@)),
    {
        let d = digest(self.ca_der.as_slice());
        colon_hex(d.as_slice())
    }
}

// ---------------------------------------------------------------------------
// Laws
// ---------------------------------------------------------------------------

/// A certificate for a host names that host and no other, is none of an authority, and is
/// valid now and for seven days; that of the authority is one of an authority, and outlasts
/// it.
pub proof fn law_certificate_is_for_its_host(leaf: Profile, host: Seq<char>, ca: Profile)
    requires
        is_host(leaf, host),
        is_authority(ca),
    ensures
        leaf.names@.len() == 1 && leaf.names@[0]@ == host && leaf.common_name@ == host,
        !leaf.is_ca && ca.is_ca,
        leaf.from_secs < 0 < leaf.until_secs,
        leaf.until_secs == 604800,
        ca.from_secs < leaf.from_secs && leaf.until_secs < ca.until_secs,
        ca.names@.len() == 0,
{
}

proof fn lemma_colon_hex(bytes: Seq<u8>)
    ensures
        bytes.len() > 0 ==> colon_hex_text(bytes).len() == 3 * bytes.len() - 1,
        forall|i: int|
            #![trigger bytes[i]]
            0 <= i < bytes.len() ==> colon_hex_text(bytes)[3 * i] == numbers::hex_digit(
                bytes[i] as int / 16,
            ) && colon_hex_text(bytes)[3 * i + 1] == numbers::hex_digit(bytes[i] as int % 16) && (i
                + 1 < bytes.len() ==> colon_hex_text(bytes)[3 * i + 2] == ':'),
    decreases bytes.len(),
{
    if bytes.len() > 0 {
        let init = bytes.drop_last();
        let n = bytes.len() - 1;
        lemma_colon_hex(init);
        reveal_strlit(":");
        let parts = Seq::new(bytes.len(), |i: int| hex_byte(bytes[i]));
        let before = Seq::new(init.len(), |i: int| hex_byte(init[i]));
        assert(parts.drop_last() =~= before);
        let t = colon_hex_text(bytes);
        let s = colon_hex_text(init);
        if n > 0 {
            assert(t == s + ":"@ + hex_byte(bytes[n]));
            assert forall|i: int|
                #![trigger bytes[i]]
                0 <= i < bytes.len() implies t[3 * i] == numbers::hex_digit(bytes[i] as int / 16)
                && t[3 * i + 1] == numbers::hex_digit(bytes[i] as int % 16) && (i + 1 < bytes.len()
                ==> t[3 * i + 2] == ':') by {
                if i < n {
                    assert(init[i] == bytes[i]);
                    assert(s.len() == 3 * n - 1);
                } else {
                    assert(t[3 * n] == hex_byte(bytes[n])[0]);
                    assert(t[3 * n + 1] == hex_byte(bytes[n])[1]);
                }
            }
        } else {
            assert(t == hex_byte(bytes[0]));
        }
    }
}

/// A fingerprint has two hexadecimal digits for each byte, from which the byte can be read,
/// and a colon between each two bytes.
pub proof fn law_fingerprint_reads_back(bytes: Seq<u8>, i: int)
    requires
        0 <= i < bytes.len(),
    ensures
        ({
            let t = colon_hex_text(bytes);
            let high = crate::proxy::reply::hex_value(t[3 * i]);
            let low = crate::proxy::reply::hex_value(t[3 * i + 1]);
            &&& t.len() == 3 * bytes.len() - 1
            &&& high is Some && low is Some && 16 * high->0 + low->0 == bytes[i]
            &&& i + 1 < bytes.len() ==> t[3 * i + 2] == ':'
        }),
{
    lemma_colon_hex(bytes);
    let b = bytes[i] as int;
    assert(0 <= b / 16 < 16 && 0 <= b % 16 < 16 && 16 * (b / 16) + b % 16 == b);
}

} // verus!
