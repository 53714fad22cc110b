//! What the certificates of a generated network say. Keys are drawn and certificates are signed
//! elsewhere.

use vstd::prelude::*;

verus! {

/// What a certified key may be used for.
#[derive(Debug, Clone, Copy, PartialEq, Eq, Structural)]
pub enum Usage {
    KeyCertSign,
    CrlSign,
    NonRepudiation,
    DigitalSignature,
    KeyEncipherment,
}

/// A name that a certificate stands for.
pub enum AltName {
    Dns(String),
    Ip(String),
}

/// A name that a certificate stands for.
pub enum AltNameView {
    Dns(Seq<char>),
    Ip(Seq<char>),
}

impl View for AltName {
    type V = AltNameView;

    open spec fn view(&self) -> AltNameView {
        match self {
            AltName::Dns(s) => AltNameView::Dns(s@),
            AltName::Ip(s) => AltNameView::Ip(s@),
        }
    }
}

/// Who issues a certificate, and signs it with its key.
#[derive(Debug, Clone, Copy, PartialEq, Eq, Structural)]
pub enum Issuer {
    /// The subject itself.
    Itself,
    /// The root of the network.
    Root,
}

/// The hash function that a certificate is signed with.
#[derive(Debug, Clone, Copy, PartialEq, Eq, Structural)]
pub enum SignatureHash {
    Sha256,
}

/// What a certificate says, and how it is made.
pub struct CertPlan {
    pub issuer: Issuer,
    /// How many bits the subject's RSA key has.
    pub key_bits: u32,
    /// The version as it is encoded: one less than its number.
    pub version: i32,
    /// How many random bits the serial number has at most.
    pub serial_bits: i32,
    pub signature_hash: SignatureHash,
    /// The subject, entry by entry: the field's short name, and its text.
    pub subject: Vec<(&'static str, &'static str)>,
    /// For how many days from now the certificate is valid.
    pub days: u32,
    /// Whether the subject may certify others.
    pub is_authority: bool,
    /// Whether whoever does not know of such a restriction must refuse the certificate.
    pub critical_constraints: bool,
    /// What the key may be used for, and for nothing else.
    pub usage: Vec<Usage>,
    /// Whether whoever does not know of such a usage must refuse the certificate.
    pub critical_usage: bool,
    /// Whether the certificate refers to the key of its issuer.
    pub names_issuer_key: bool,
    pub alt_names: Vec<AltName>,
}

/// How every certificate is made: with an RSA key of 2048 bits, as a certificate of the third
/// version with a random serial number, signed over its SHA-256 hash.
pub open spec fn is_usual(c: CertPlan) -> bool {
    &&& c.key_bits == 2048
    &&& c.version == 2
    &&& c.serial_bits == 159
    &&& c.signature_hash == SignatureHash::Sha256
    &&& c.days == 365
    &&& c.critical_usage
}

/// The subject with a country, a state, an organisation and a name.
pub open spec fn is_subject(
    s: Seq<(&'static str, &'static str)>,
    organisation: Seq<char>,
    name: Seq<char>,
) -> bool {
    &&& s.len() == 4
    &&& s[0].0@ == "C"@ && s[0].1@ == "US"@
    &&& s[1].0@ == "ST"@ && s[1].1@ == "IN"@
    &&& s[2].0@ == "O"@ && s[2].1@ == organisation
    &&& s[3].0@ == "CN"@ && s[3].1@ == name
}

/// The names that a certificate stands for: this machine and the nodes by name, this machine by
/// address, and then each further address.
pub open spec fn alt_names_of(extra: Seq<String>) -> Seq<AltNameView> {
    seq![
        AltNameView::Dns("localhost"@),
        AltNameView::Dns("nodes.com"@),
        AltNameView::Ip("127.0.0.1"@),
    ] + extra.map_values(|s: String| AltNameView::Ip(s@))
}

/// The names as they are meant.
pub open spec fn alt_views(v: Seq<AltName>) -> Seq<AltNameView> {
    v.map_values(|n: AltName| n@)
}

/// The subject of the root's certificate.
fn root_subject() -> (s: Vec<(&'static str, &'static str)>)
    ensures
        is_subject(s@, "Libchatter Test"@, "Root"@),
{
    let mut s: Vec<(&'static str, &'static str)> = Vec::new();
    s.push(("C", "US"));
    s.push(("ST", "IN"));
    s.push(("O", "Libchatter Test"));
    s.push(("CN", "Root"));
    s
}

/// The subject that nodes and clients ask a certificate for.
pub fn mk_request() -> (s: Vec<(&'static str, &'static str)>)
    ensures
        is_subject(s@, "Nodes"@, "nodes.com"@),
{
    let mut s: Vec<(&'static str, &'static str)> = Vec::new();
    s.push(("C", "US"));
    s.push(("ST", "IN"));
    s.push(("O", "Nodes"));
    s.push(("CN", "nodes.com"));
    s
}

/// The root's certificate, which the root signs itself: it may certify others and do nothing
/// else.
pub fn new_root_cert() -> (c: CertPlan)
    ensures
        c.issuer == Issuer::Itself,
        is_usual(c),
        is_subject(c.subject@, "Libchatter Test"@, "Root"@),
        c.is_authority,
        c.critical_constraints,
        c.usage@ == seq![Usage::KeyCertSign, Usage::CrlSign],
        !c.names_issuer_key,
        c.alt_names@.len() == 0,
{
    let mut usage: Vec<Usage> = Vec::new();
    usage.push(Usage::KeyCertSign);
    usage.push(Usage::CrlSign);
    CertPlan {
        issuer: Issuer::Itself,
        key_bits: 2048,
        version: 2,
        serial_bits: 159,
        signature_hash: SignatureHash::Sha256,
        subject: root_subject(),
        days: 365,
        is_authority: true,
        critical_constraints: true,
        usage,
        critical_usage: true,
        names_issuer_key: false,
        alt_names: Vec::new(),
    }
}

/// A certificate that the root signs for a node or a client. Besides this machine it stands for
/// each of the further addresses, so that one at another machine can be told by its address.
pub fn get_signed_cert(extra_ip_sans: &[String]) -> (c: CertPlan)
    ensures
        c.issuer == Issuer::Root,
        is_usual(c),
        is_subject(c.subject@, "Nodes"@, "nodes.com"@),
        !c.is_authority,
        !c.critical_constraints,
        c.usage@ == seq![
            Usage::NonRepudiation,
            Usage::DigitalSignature,
            Usage::KeyEncipherment,
        ],
        c.names_issuer_key,
        alt_views(c.alt_names@) == alt_names_of(extra_ip_sans@),
{
    let mut usage: Vec<Usage> = Vec::new();
    usage.push(Usage::NonRepudiation);
    usage.push(Usage::DigitalSignature);
    usage.push(Usage::KeyEncipherment);
    let mut alt_names: Vec<AltName> = Vec::new();
    alt_names.push(AltName::Dns("localhost".to_owned()));
    alt_names.push(AltName::Dns("nodes.com".to_owned()));
    alt_names.push(AltName::Ip("127.0.0.1".to_owned()));
    assert(alt_views(alt_names@) =~= alt_names_of(extra_ip_sans@.take(0)));
    let mut i: usize = 0;
    while i < extra_ip_sans.len()
        invariant
            i <= extra_ip_sans@.len(),
            alt_views(alt_names@) == alt_names_of(extra_ip_sans@.take(i as int)),
        decreases extra_ip_sans@.len() - i,
    {
        let ghost before = alt_names@;
        alt_names.push(AltName::Ip(extra_ip_sans[i].clone()));
        assert(alt_views(alt_names@) =~= alt_views(before).push(
            AltNameView::Ip(extra_ip_sans@[i as int]@),
        ));
        assert(alt_names_of(extra_ip_sans@.take(i + 1)) =~= alt_names_of(
            extra_ip_sans@.take(i as int),
        ).push(AltNameView::Ip(extra_ip_sans@[i as int]@)));
        i = i + 1;
    }
    assert(extra_ip_sans@.take(i as int) =~= extra_ip_sans@);
    CertPlan {
        issuer: Issuer::Root,
        key_bits: 2048,
        version: 2,
        serial_bits: 159,
        signature_hash: SignatureHash::Sha256,
        subject: mk_request(),
        days: 365,
        is_authority: false,
        critical_constraints: false,
        usage,
        critical_usage: true,
        names_issuer_key: true,
        alt_names,
    }
}

/// A certificate chain: the certificate itself, then the root's, so that the one file both
/// identifies its owner and says whom to trust.
pub fn chain_pem(leaf: Vec<u8>, root: &[u8]) -> (chain: Vec<u8>)
    ensures
        chain@ == leaf@ + root@,
{
    let mut chain = leaf;
    chain.extend_from_slice(root);
    assert(chain@ =~= leaf@ + root@);
    chain
}

/// Every certificate has a key of 2048 bits, is of the third version, has a serial number of up to
/// 159 bits, is signed over its SHA-256 hash, and is valid for a year.
pub proof fn law_every_certificate(c: CertPlan)
    requires
        is_usual(c),
    ensures
        c.key_bits == 2048,
        c.version + 1 == 3,
        c.serial_bits == 159,
        c.signature_hash == SignatureHash::Sha256,
        c.days == 365,
        c.critical_usage,
{
}

/// A certificate stands for this machine and the nodes by name, for this machine by its address,
/// and for each further address, in their order; and its subject says where it is from, whose it
/// is, and its name.
pub proof fn law_whom_a_certificate_names(
    extra: Seq<String>,
    i: int,
    s: Seq<(&'static str, &'static str)>,
    organisation: Seq<char>,
    name: Seq<char>,
)
    ensures
        alt_names_of(extra).len() == 3 + extra.len(),
        alt_names_of(extra)[0] == AltNameView::Dns("localhost"@),
        alt_names_of(extra)[1] == AltNameView::Dns("nodes.com"@),
        alt_names_of(extra)[2] == AltNameView::Ip("127.0.0.1"@),
        0 <= i < extra.len() ==> alt_names_of(extra)[3 + i] == AltNameView::Ip(extra[i]@),
        is_subject(s, organisation, name) ==> {
            &&& s.len() == 4
            &&& s[0].0@ == "C"@ && s[0].1@ == "US"@
            &&& s[1].0@ == "ST"@ && s[1].1@ == "IN"@
            &&& s[2].0@ == "O"@ && s[2].1@ == organisation
            &&& s[3].0@ == "CN"@ && s[3].1@ == name
        },
{
}

} // verus!
