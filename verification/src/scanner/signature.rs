//! Authenticode signatures: who vouches for a file.
//!
//! A broken signature is strong evidence against a file; a valid one is weak
//! evidence in its favour, because certificates are stolen and abused. So the
//! credit that a valid signature earns is capped, and it is withheld entirely
//! when anything worse than a medium finding exists. Verification itself asks
//! the operating system about a file on disk; this module says what is to be
//! asked, and what the answer means.
use crate::numbers;
use crate::numbers::{push_hexadecimal_padded, RISK_ONE};
use crate::scanner::finding;
use crate::scanner::finding::{one_lines, Finding, FindingModel, Severity};
use crate::text;
use crate::text::{copy_of, is_one_of, tail_extension_of};
use vstd::prelude::*;

verus! {

/// Largest amount by which a valid signature may reduce a risk score.
pub const MAX_TRUST_CREDIT: i64 = 2_500;

/// What the operating system says about a file's signature.
#[derive(Debug, PartialEq, Eq)]
pub enum TrustStatus {
    /// Valid signature chaining to a trusted root.
    Trusted { publisher: Option<String> },
    /// The file's hash appears in a signed system catalog.
    TrustedByCatalog { catalog: Option<String> },
    /// Signed, but the chain ends somewhere that is not trusted.
    UntrustedRoot { publisher: Option<String> },
    /// Signed, but the bytes no longer match the signature.
    Tampered,
    /// Signed, but the certificate had expired.
    Expired { publisher: Option<String> },
    /// Explicitly distrusted.
    Distrusted { publisher: Option<String> },
    /// No signature at all.
    Unsigned,
    /// Verification could not be performed.
    Unavailable(String),
}

/// What a status says.
pub enum TrustModel {
    Trusted { publisher: Option<Seq<char>> },
    TrustedByCatalog { catalog: Option<Seq<char>> },
    UntrustedRoot { publisher: Option<Seq<char>> },
    Tampered,
    Expired { publisher: Option<Seq<char>> },
    Distrusted { publisher: Option<Seq<char>> },
    Unsigned,
    Unavailable(Seq<char>),
}

impl View for TrustStatus {
    type V = TrustModel;

    open spec fn view(&self) -> TrustModel {
        match *self {
            TrustStatus::Trusted { publisher } => TrustModel::Trusted {
                publisher: text::text_of(publisher),
            },
            TrustStatus::TrustedByCatalog { catalog } => TrustModel::TrustedByCatalog {
                catalog: text::text_of(catalog),
            },
            TrustStatus::UntrustedRoot { publisher } => TrustModel::UntrustedRoot {
                publisher: text::text_of(publisher),
            },
            TrustStatus::Tampered => TrustModel::Tampered,
            TrustStatus::Expired { publisher } => TrustModel::Expired {
                publisher: text::text_of(publisher),
            },
            TrustStatus::Distrusted { publisher } => TrustModel::Distrusted {
                publisher: text::text_of(publisher),
            },
            TrustStatus::Unsigned => TrustModel::Unsigned,
            TrustStatus::Unavailable(reason) => TrustModel::Unavailable(reason@),
        }
    }
}

impl Clone for TrustStatus {
    fn clone(&self) -> (r: Self)
        ensures
            r@ == self@,
    {
        match self {
            TrustStatus::Trusted { publisher } => TrustStatus::Trusted {
                publisher: copy_of(publisher),
            },
            TrustStatus::TrustedByCatalog { catalog } => TrustStatus::TrustedByCatalog {
                catalog: copy_of(catalog),
            },
            TrustStatus::UntrustedRoot { publisher } => TrustStatus::UntrustedRoot {
                publisher: copy_of(publisher),
            },
            TrustStatus::Tampered => TrustStatus::Tampered,
            TrustStatus::Expired { publisher } => TrustStatus::Expired {
                publisher: copy_of(publisher),
            },
            TrustStatus::Distrusted { publisher } => TrustStatus::Distrusted {
                publisher: copy_of(publisher),
            },
            TrustStatus::Unsigned => TrustStatus::Unsigned,
            TrustStatus::Unavailable(reason) => TrustStatus::Unavailable(reason.clone()),
        }
    }
}

/// What an optional status says.
pub open spec fn status_view(s: Option<TrustStatus>) -> Option<TrustModel> {
    match s {
        Some(t) => Some(t@),
        None => None,
    }
}

/// A copy of an optional status.
pub fn copy_status(s: &Option<TrustStatus>) -> (r: Option<TrustStatus>)
    ensures
        status_view(r) == status_view(*s),
{
    match s {
        Some(t) => Some(t.clone()),
        None => None,
    }
}

/// The publisher that a status names.
pub open spec fn publisher_of(s: TrustModel) -> Option<Seq<char>> {
    match s {
        TrustModel::Trusted { publisher } => publisher,
        TrustModel::UntrustedRoot { publisher } => publisher,
        TrustModel::Expired { publisher } => publisher,
        TrustModel::Distrusted { publisher } => publisher,
        _ => None,
    }
}

/// The text of an optional string slice.
pub open spec fn str_text(s: Option<&str>) -> Option<Seq<char>> {
    match s {
        Some(t) => Some(t@),
        None => None,
    }
}

/// The string slice of an optional string.
fn as_slice_of(s: &Option<String>) -> (r: Option<&str>)
    ensures
        str_text(r) == text::text_of(*s),
{
    match s {
        Some(t) => Some(t.as_str()),
        None => None,
    }
}

impl TrustStatus {
    /// The publisher, where the signature names one.
    pub fn publisher(&self) -> (r: Option<&str>)
        ensures
            str_text(r) == publisher_of(self@),
    {
        match self {
            TrustStatus::Trusted { publisher } => as_slice_of(publisher),
            TrustStatus::UntrustedRoot { publisher } => as_slice_of(publisher),
            TrustStatus::Expired { publisher } => as_slice_of(publisher),
            TrustStatus::Distrusted { publisher } => as_slice_of(publisher),
            _ => None,
        }
    }
}

/// Extensions that can carry an embedded signature.
pub const SIGNABLE_EXTENSIONS: [&'static str; 13] = [
    "exe", "dll", "sys", "ocx", "msi", "msix", "appx", "cab", "cat", "ps1", "psm1", "scr", "cpl",
];

/// Result of the analysis.
#[derive(Debug)]
pub struct SignatureResult {
    pub status: Option<TrustStatus>,
    pub flagged: bool,
    pub flags: Vec<String>,
    pub findings: Vec<Finding>,
    /// Risk contributed by a broken or absent signature.
    pub risk: i64,
    /// Risk to subtract for a valid signature.
    pub trust_credit: i64,
}

/// What a result says.
pub struct SignatureModel {
    pub status: Option<TrustModel>,
    pub flagged: bool,
    pub flags: Seq<Seq<char>>,
    pub findings: Seq<FindingModel>,
    pub risk: int,
    pub trust_credit: int,
}

impl View for SignatureResult {
    type V = SignatureModel;

    open spec fn view(&self) -> SignatureModel {
        SignatureModel {
            status: status_view(self.status),
            flagged: self.flagged,
            flags: text::texts(self.flags@),
            findings: finding::models(self.findings@),
            risk: self.risk as int,
            trust_credit: self.trust_credit as int,
        }
    }
}

// ---------------------------------------------------------------------------
// The answer of the operating system
// ---------------------------------------------------------------------------

pub const TRUST_E_NOSIGNATURE: u32 = 0x800B_0100;

pub const TRUST_E_BAD_DIGEST: u32 = 0x8009_6010;

pub const TRUST_E_EXPLICIT_DISTRUST: u32 = 0x800B_0111;

pub const TRUST_E_SUBJECT_NOT_TRUSTED: u32 = 0x800B_0004;

pub const CERT_E_UNTRUSTEDROOT: u32 = 0x800B_0109;

pub const CERT_E_CHAINING: u32 = 0x800B_010A;

pub const CERT_E_EXPIRED: u32 = 0x800B_0101;

pub const CERT_E_REVOKED: u32 = 0x800B_010C;

pub const CERT_E_UNTRUSTEDTESTROOT: u32 = 0x800B_010D;

pub const CRYPT_E_FILE_ERROR: u32 = 0x8009_2003;

/// What a status code of the verification means, for a file whose signer is
/// `publisher` and whose hash a verified system catalog lists if `catalog`
/// names one.
pub open spec fn trust_model(code: u32, publisher: Option<Seq<char>>, catalog: Option<Seq<char>>) -> TrustModel {
    if code == 0 {
        TrustModel::Trusted { publisher }
    } else if code == TRUST_E_NOSIGNATURE {
        if catalog is Some {
            TrustModel::TrustedByCatalog { catalog }
        } else {
            TrustModel::Unsigned
        }
    } else if code == TRUST_E_BAD_DIGEST {
        TrustModel::Tampered
    } else if code == TRUST_E_EXPLICIT_DISTRUST || code == CERT_E_REVOKED {
        TrustModel::Distrusted { publisher }
    } else if code == CERT_E_EXPIRED {
        TrustModel::Expired { publisher }
    } else if code == CERT_E_UNTRUSTEDROOT || code == CERT_E_CHAINING || code
        == CERT_E_UNTRUSTEDTESTROOT || code == TRUST_E_SUBJECT_NOT_TRUSTED {
        TrustModel::UntrustedRoot { publisher }
    } else if code == CRYPT_E_FILE_ERROR {
        TrustModel::Unavailable(
            "file could not be read for verification (0x"@ + numbers::hexadecimal_padded(
                code as nat,
                8,
            ) + ")"@,
        )
    } else {
        TrustModel::Unavailable(
            "WinVerifyTrust returned 0x"@ + numbers::hexadecimal_padded(code as nat, 8),
        )
    }
}

/// Turns a status code of the verification into a status.
pub fn trust_status(code: u32, publisher: Option<String>, catalog: Option<String>) -> (r:
    TrustStatus)
    ensures
        r@ == trust_model(code, text::text_of(publisher), text::text_of(catalog)),
{
    if code == 0 {
        TrustStatus::Trusted { publisher }
    } else if code == TRUST_E_NOSIGNATURE {
        if catalog.is_some() {
            TrustStatus::TrustedByCatalog { catalog }
        } else {
            TrustStatus::Unsigned
        }
    } else if code == TRUST_E_BAD_DIGEST {
        TrustStatus::Tampered
    } else if code == TRUST_E_EXPLICIT_DISTRUST || code == CERT_E_REVOKED {
        TrustStatus::Distrusted { publisher }
    } else if code == CERT_E_EXPIRED {
        TrustStatus::Expired { publisher }
    } else if code == CERT_E_UNTRUSTEDROOT || code == CERT_E_CHAINING || code
        == CERT_E_UNTRUSTEDTESTROOT || code == TRUST_E_SUBJECT_NOT_TRUSTED {
        TrustStatus::UntrustedRoot { publisher }
    } else if code == CRYPT_E_FILE_ERROR {
        let mut reason: String = "file could not be read for verification (0x".to_string();
        push_hexadecimal_padded(&mut reason, code as u64, 8);
        reason.append(")");
        TrustStatus::Unavailable(reason)
    } else {
        let mut reason: String = "WinVerifyTrust returned 0x".to_string();
        push_hexadecimal_padded(&mut reason, code as u64, 8);
        TrustStatus::Unavailable(reason)
    }
}

// ---------------------------------------------------------------------------
// What it means
// ---------------------------------------------------------------------------

pub const CATALOG_TITLE: &'static str = "Signed by a trusted Windows catalog";

pub const CATALOG_DETAIL: &'static str = "The file has no signature embedded in it, but its hash is listed in the \
     signed system catalog ";

pub const CATALOG_UNNAMED_DETAIL: &'static str = "The file's hash is listed in a signed system catalog.";

pub const CATALOG_WHY: &'static str = "Windows signs most of its own components by listing their hashes in a separate \
     signed catalog file rather than embedding a signature in each one. Being in a \
     trusted catalog means Windows itself vouches for these exact bytes.";

pub const TRUSTED_DETAIL: &'static str = ", and the \
     certificate chains to a root this machine trusts.";

pub const TRUSTED_WHY: &'static str = "A valid signature means the file has not been altered since that publisher \
     signed it, and that they can be identified. It is not a guarantee of safety - \
     certificates are stolen and misused - so it counts in the file's favour without \
     being decisive.";

pub const TAMPERED_TITLE: &'static str = "File has been modified since it was signed";

pub const TAMPERED_DETAIL: &'static str = "The Authenticode signature is present but does not match the file's contents \
     (TRUST_E_BAD_DIGEST).";

pub const TAMPERED_WHY: &'static str = "Someone took a signed program and changed it. The signature is the publisher's \
     statement about exactly which bytes they produced, and these are not those \
     bytes. Corruption in transit can cause this, but so can code being inserted \
     into legitimate software.";

pub const DISTRUSTED_TITLE: &'static str = "File is signed by a publisher Windows explicitly distrusts";

pub const DISTRUSTED_WHY: &'static str = "This is stronger than being unsigned. A certificate reaches this list because it \
     was found to be issued fraudulently, stolen, or used to sign malware.";

pub const UNTRUSTED_TITLE: &'static str = "Signature does not identify a verifiable publisher";

pub const UNTRUSTED_DETAIL: &'static str = ", but the certificate chain does not lead to a \
     certificate authority this machine trusts.";

pub const UNTRUSTED_WHY: &'static str = "Anyone can generate a certificate and sign a file with it - doing so proves \
     nothing about who they are. A signature is only meaningful when it chains \
     back to an authority that verified the signer's identity, and this one does \
     not.";

pub const EXPIRED_TITLE: &'static str = "Signature has expired";

pub const EXPIRED_WHY: &'static str = "This is common and usually harmless: code-signing certificates expire after \
     a few years, and older software keeps working. It only means the signature \
     can no longer be confirmed as current, not that anything is wrong.";

pub const UNSIGNED_TITLE: &'static str = "Program is not signed";

pub const UNSIGNED_DETAIL: &'static str = "The file carries no Authenticode signature.";

pub const UNSIGNED_WHY: &'static str = "Nothing identifies who produced this program or confirms it has not been \
     altered. Plenty of legitimate software is unsigned - signing costs money - \
     so this is a weak signal on its own, but it does mean there is nothing to \
     check against.";

pub const UNAVAILABLE_TITLE: &'static str = "Signature could not be checked";

pub const UNAVAILABLE_WHY: &'static str = "This says nothing about the file either way. It is reported so the verdict does \
     not silently look like a clean result on a check that never happened.";

pub const UNNAMED_PUBLISHER: &'static str = "an unnamed publisher";

pub const UNIDENTIFIED_PUBLISHER: &'static str = "an unidentified publisher";

pub const NO_PATH: &'static str = "no on-disk path available to verify";

/// A publisher's name, or what stands for it.
pub open spec fn named(publisher: Option<Seq<char>>, otherwise: Seq<char>) -> Seq<char> {
    match publisher {
        Some(p) => p,
        None => otherwise,
    }
}

/// What a status gives to report. A chain that is not trusted, an expired
/// certificate and a missing signature say something of executables only.
pub open spec fn status_findings(status: TrustModel, is_executable: bool) -> Seq<FindingModel> {
    match status {
        TrustModel::TrustedByCatalog { catalog } => seq![
            finding::finding(
                Severity::Low,
                CATALOG_TITLE@,
                match catalog {
                    Some(c) => CATALOG_DETAIL@ + c + "."@,
                    None => CATALOG_UNNAMED_DETAIL@,
                },
                CATALOG_WHY@,
                0,
            ),
        ],
        TrustModel::Trusted { publisher } => seq![
            finding::finding(
                Severity::Low,
                "Signed by "@ + named(publisher, UNNAMED_PUBLISHER@),
                "The file carries a valid Authenticode signature from "@ + named(
                    publisher,
                    UNNAMED_PUBLISHER@,
                ) + TRUSTED_DETAIL@,
                TRUSTED_WHY@,
                0,
            ),
        ],
        TrustModel::Tampered => seq![
            finding::finding(
                Severity::Critical,
                TAMPERED_TITLE@,
                TAMPERED_DETAIL@,
                TAMPERED_WHY@,
                8_000,
            ),
        ],
        TrustModel::Distrusted { publisher } => seq![
            finding::finding(
                Severity::Critical,
                DISTRUSTED_TITLE@,
                "Signed by "@ + named(publisher, UNNAMED_PUBLISHER@)
                    + "; the certificate is on an explicit distrust list."@,
                DISTRUSTED_WHY@,
                9_000,
            ),
        ],
        TrustModel::UntrustedRoot { publisher } => if is_executable {
            seq![
                finding::finding(
                    Severity::Medium,
                    UNTRUSTED_TITLE@,
                    "Signed by "@ + named(publisher, UNIDENTIFIED_PUBLISHER@) + UNTRUSTED_DETAIL@,
                    UNTRUSTED_WHY@,
                    3_000,
                ),
            ]
        } else {
            Seq::empty()
        },
        TrustModel::Expired { publisher } => if is_executable {
            seq![
                finding::finding(
                    Severity::Low,
                    EXPIRED_TITLE@,
                    "Signed by "@ + named(publisher, UNNAMED_PUBLISHER@)
                        + ", but the certificate is no longer within its validity period."@,
                    EXPIRED_WHY@,
                    1_500,
                ),
            ]
        } else {
            Seq::empty()
        },
        TrustModel::Unsigned => if is_executable {
            seq![
                finding::finding(
                    Severity::Low,
                    UNSIGNED_TITLE@,
                    UNSIGNED_DETAIL@,
                    UNSIGNED_WHY@,
                    2_000,
                ),
            ]
        } else {
            Seq::empty()
        },
        TrustModel::Unavailable(reason) => seq![
            finding::finding(
                Severity::Low,
                UNAVAILABLE_TITLE@,
                "Verification did not run: "@ + reason,
                UNAVAILABLE_WHY@,
                0,
            ),
        ],
    }
}

/// The credit that a status earns.
pub open spec fn earned_credit(status: TrustModel) -> int {
    match status {
        TrustModel::Trusted { .. } => MAX_TRUST_CREDIT as int,
        TrustModel::TrustedByCatalog { .. } => MAX_TRUST_CREDIT as int,
        _ => 0,
    }
}

/// What a status amounts to. A valid signature is reported without being an
/// anomaly.
pub open spec fn assessment(status: TrustModel, is_executable: bool) -> SignatureModel {
    let findings = status_findings(status, is_executable);
    SignatureModel {
        status: Some(status),
        flagged: finding::worst_risk(findings) > 0,
        flags: finding::one_line_texts(findings),
        findings,
        risk: finding::worst_risk(findings),
        trust_credit: earned_credit(status),
    }
}

/// The name of a publisher, or what stands for it.
fn name_or(publisher: &Option<String>, otherwise: &str) -> (r: String)
    ensures
        r@ == named(text::text_of(*publisher), otherwise@),
{
    match publisher {
        Some(p) => p.clone(),
        None => otherwise.to_string(),
    }
}

/// Reports a status.
fn check_status(status: &TrustStatus, is_executable: bool) -> (r: Option<Finding>)
    ensures
        finding::optional(r) == status_findings(status@, is_executable),
{
    match status {
        TrustStatus::TrustedByCatalog { catalog } => {
            let detail: String = match catalog {
                Some(c) => {
                    let mut d: String = CATALOG_DETAIL.to_string();
                    d.append(c.as_str());
                    d.append(".");
                    d
                },
                None => CATALOG_UNNAMED_DETAIL.to_string(),
            };
            Some(
                Finding::new(
                    Severity::Low,
                    CATALOG_TITLE.to_string(),
                    detail,
                    CATALOG_WHY.to_string(),
                    0,
                ),
            )
        },
        TrustStatus::Trusted { publisher } => {
            let who = name_or(publisher, UNNAMED_PUBLISHER);
            let mut title: String = "Signed by ".to_string();
            title.append(who.as_str());
            let mut detail: String =
                "The file carries a valid Authenticode signature from ".to_string();
            detail.append(who.as_str());
            detail.append(TRUSTED_DETAIL);
            Some(Finding::new(Severity::Low, title, detail, TRUSTED_WHY.to_string(), 0))
        },
        TrustStatus::Tampered => Some(
            Finding::new(
                Severity::Critical,
                TAMPERED_TITLE.to_string(),
                TAMPERED_DETAIL.to_string(),
                TAMPERED_WHY.to_string(),
                8_000,
            ),
        ),
        TrustStatus::Distrusted { publisher } => {
            let mut detail: String = "Signed by ".to_string();
            detail.append(name_or(publisher, UNNAMED_PUBLISHER).as_str());
            detail.append("; the certificate is on an explicit distrust list.");
            Some(
                Finding::new(
                    Severity::Critical,
                    DISTRUSTED_TITLE.to_string(),
                    detail,
                    DISTRUSTED_WHY.to_string(),
                    9_000,
                ),
            )
        },
        TrustStatus::UntrustedRoot { publisher } => {
            if !is_executable {
                return None;
            }
            let mut detail: String = "Signed by ".to_string();
            detail.append(name_or(publisher, UNIDENTIFIED_PUBLISHER).as_str());
            detail.append(UNTRUSTED_DETAIL);
            Some(
                Finding::new(
                    Severity::Medium,
                    UNTRUSTED_TITLE.to_string(),
                    detail,
                    UNTRUSTED_WHY.to_string(),
                    3_000,
                ),
            )
        },
        TrustStatus::Expired { publisher } => {
            if !is_executable {
                return None;
            }
            let mut detail: String = "Signed by ".to_string();
            detail.append(name_or(publisher, UNNAMED_PUBLISHER).as_str());
            detail.append(", but the certificate is no longer within its validity period.");
            Some(
                Finding::new(
                    Severity::Low,
                    EXPIRED_TITLE.to_string(),
                    detail,
                    EXPIRED_WHY.to_string(),
                    1_500,
                ),
            )
        },
        TrustStatus::Unsigned => {
            if !is_executable {
                return None;
            }
            Some(
                Finding::new(
                    Severity::Low,
                    UNSIGNED_TITLE.to_string(),
                    UNSIGNED_DETAIL.to_string(),
                    UNSIGNED_WHY.to_string(),
                    2_000,
                ),
            )
        },
        TrustStatus::Unavailable(reason) => {
            let mut detail: String = "Verification did not run: ".to_string();
            detail.append(reason.as_str());
            Some(
                Finding::new(
                    Severity::Low,
                    UNAVAILABLE_TITLE.to_string(),
                    detail,
                    UNAVAILABLE_WHY.to_string(),
                    0,
                ),
            )
        },
    }
}

/// Turns a status into a result.
pub fn build_result(status: TrustStatus, is_executable: bool) -> (r: SignatureResult)
    ensures
        r@ == assessment(status@, is_executable),
{
    let mut findings: Vec<Finding> = Vec::new();
    assert(finding::models(findings@) =~= Seq::<FindingModel>::empty());
    finding::append_one(&mut findings, check_status(&status, is_executable));
    assert(finding::models(findings@) =~= status_findings(status@, is_executable));
    let flags = one_lines(findings.as_slice());
    let risk: i64 = finding::worst(findings.as_slice());
    let trust_credit: i64 = match &status {
        TrustStatus::Trusted { .. } => MAX_TRUST_CREDIT,
        TrustStatus::TrustedByCatalog { .. } => MAX_TRUST_CREDIT,
        _ => 0,
    };
    SignatureResult {
        flagged: risk > 0,
        status: Some(status),
        flags,
        findings,
        risk,
        trust_credit,
    }
}

/// A file that can carry a signature, by its content or by its extension.
pub open spec fn signable(is_pe: bool, ext: Seq<char>) -> bool {
    is_pe || text::one_of(ext, SIGNABLE_EXTENSIONS@)
}

/// The result for a file that cannot carry a signature.
pub open spec fn nothing_to_check() -> SignatureModel {
    SignatureModel {
        status: None,
        flagged: false,
        flags: Seq::empty(),
        findings: Seq::empty(),
        risk: 0,
        trust_credit: 0,
    }
}

/// The result for a file that was not verified, because only its bytes were at
/// hand.
pub open spec fn not_checked() -> SignatureModel {
    SignatureModel { status: Some(TrustModel::Unavailable(NO_PATH@)), ..nothing_to_check() }
}

/// What the answer of the operating system, if it was asked, amounts to for a
/// file whose extension is `ext`, in lower case.
pub open spec fn signature_check(verified: Option<TrustModel>, is_pe: bool, ext: Seq<char>) -> SignatureModel {
    if !signable(is_pe, ext) {
        nothing_to_check()
    } else {
        match verified {
            Some(status) => assessment(status, is_pe || ext.len() > 0),
            None => not_checked(),
        }
    }
}

/// Whether the signature of a file is to be verified.
pub fn is_signable(is_pe: bool, filename: &str) -> (r: bool)
    ensures
        r == signable(is_pe, text::tail_extension(filename@)),
{
    let ext = tail_extension_of(filename);
    is_pe || is_one_of(ext.as_str(), &SIGNABLE_EXTENSIONS)
}

/// A result without findings.
fn empty_result(status: Option<TrustStatus>) -> (r: SignatureResult)
    ensures
        r@ == (SignatureModel { status: status_view(status), ..nothing_to_check() }),
{
    let r = SignatureResult {
        status,
        flagged: false,
        flags: Vec::new(),
        findings: Vec::new(),
        risk: 0,
        trust_credit: 0,
    };
    assert(text::texts(r.flags@) =~= Seq::<Seq<char>>::empty());
    assert(finding::models(r.findings@) =~= Seq::<FindingModel>::empty());
    r
}

/// Turns the answer of the operating system, if it was asked, into findings.
///
/// `verified` is nothing where only the bytes of the file were at hand: that
/// is said, rather than reporting the file as unsigned. The result is empty for
/// files that cannot carry a signature.
pub fn analyse(verified: Option<TrustStatus>, is_pe: bool, filename: &str) -> (r: SignatureResult)
    ensures
        r@ == signature_check(status_view(verified), is_pe, text::tail_extension(filename@)),
{
    let ext = tail_extension_of(filename);
    check(verified, is_pe, ext.as_str())
}

/// Turns the answer of the operating system, if it was asked, into findings on
/// a file whose extension is `ext`, in lower case.
pub fn check(verified: Option<TrustStatus>, is_pe: bool, ext: &str) -> (r: SignatureResult)
    ensures
        r@ == signature_check(status_view(verified), is_pe, ext@),
{
    if !is_pe && !is_one_of(ext, &SIGNABLE_EXTENSIONS) {
        return empty_result(None);
    }
    match verified {
        Some(status) => build_result(status, is_pe || !ext.is_empty()),
        None => empty_result(Some(TrustStatus::Unavailable(NO_PATH.to_string()))),
    }
}

// ---------------------------------------------------------------------------
// Credit
// ---------------------------------------------------------------------------

/// A finding that is worse than a medium one.
pub open spec fn serious(f: FindingModel) -> bool {
    f.severity == Severity::Critical || f.severity == Severity::High
}

/// A list with a finding that is worse than a medium one.
pub open spec fn has_serious(findings: Seq<FindingModel>) -> bool {
    exists|i: int| 0 <= i < findings.len() && serious(#[trigger] findings[i])
}

/// A risk score after the credit for a valid signature.
pub open spec fn credited(risk: int, credit: int, findings: Seq<FindingModel>) -> int {
    if credit <= 0 || has_serious(findings) {
        risk
    } else {
        let discount = if credit < MAX_TRUST_CREDIT {
            credit
        } else {
            MAX_TRUST_CREDIT as int
        };
        if risk < discount {
            0
        } else {
            risk - discount
        }
    }
}

/// Whether there is a finding that is worse than a medium one.
pub fn any_serious(findings: &[Finding]) -> (r: bool)
    ensures
        r == has_serious(finding::models(findings@)),
{
    let ghost list = finding::models(findings@);
    let mut i: usize = 0;
    while i < findings.len()
        invariant
            i <= findings@.len(),
            list == finding::models(findings@),
            forall|j: int| 0 <= j < i ==> !serious(#[trigger] list[j]),
        decreases findings@.len() - i,
    {
        assert(list[i as int] == findings@[i as int]@);
        match findings[i].severity {
            Severity::Critical | Severity::High => {
                assert(serious(list[i as int]));
                return true;
            },
            _ => {},
        }
        i += 1;
    }
    false
}

/// Applies the credit for a valid signature to a risk score. It may only
/// reduce risk when nothing worse than a medium finding was found.
pub fn apply_trust_credit(risk: i64, credit: i64, findings: &[Finding]) -> (r: i64)
    ensures
        r == credited(risk as int, credit as int, finding::models(findings@)),
{
    if credit <= 0 || any_serious(findings) {
        return risk;
    }
    let discount: i64 = if credit < MAX_TRUST_CREDIT {
        credit
    } else {
        MAX_TRUST_CREDIT
    };
    if risk < discount {
        0
    } else {
        risk - discount
    }
}

// ---------------------------------------------------------------------------
// Laws
// ---------------------------------------------------------------------------

/// A serious finding is still there once the findings are sorted.
pub proof fn lemma_sorting_keeps_the_serious(list: Seq<FindingModel>, i: int)
    requires
        0 <= i < list.len(),
        serious(list[i]),
    ensures
        has_serious(finding::ordered(list)),
{
    broadcast use vstd::seq_lib::group_to_multiset_ensures;

    let sorted = finding::ordered(list);
    finding::law_sorting_keeps_the_findings(list);
    assert(list.contains(list[i]));
    assert(list.to_multiset().count(list[i]) > 0);
    assert(sorted.contains(list[i]));
    let k = choose|k: int| 0 <= k < sorted.len() && sorted[k] == list[i];
    assert(serious(sorted[k]));
}

/// A signature cannot argue away a serious finding.
pub proof fn law_credit_is_withheld_from_serious_findings(
    risk: int,
    credit: int,
    findings: Seq<FindingModel>,
    i: int,
)
    requires
        0 <= i < findings.len(),
        serious(findings[i]),
    ensures
        credited(risk, credit, findings) == risk,
{
}

/// However large the credit, it takes off no more than `MAX_TRUST_CREDIT`, and
/// it never adds risk to a score that is not negative.
pub proof fn law_credit_is_capped(risk: int, credit: int, findings: Seq<FindingModel>)
    requires
        risk >= 0,
    ensures
        risk - MAX_TRUST_CREDIT <= credited(risk, credit, findings) <= risk,
{
}

/// Credit never makes a score negative.
pub proof fn law_credit_never_goes_below_zero(risk: int, credit: int, findings: Seq<FindingModel>)
    requires
        risk >= 0,
    ensures
        credited(risk, credit, findings) >= 0,
{
}

/// Without credit the score stays as it is.
pub proof fn law_no_credit_leaves_the_score(risk: int, credit: int, findings: Seq<FindingModel>)
    requires
        credit <= 0,
    ensures
        credited(risk, credit, findings) == risk,
{
}

/// Only a valid signature earns credit, and a status that earns credit adds no
/// risk.
pub proof fn law_only_valid_signatures_earn_credit(status: TrustModel, is_executable: bool)
    ensures
        assessment(status, is_executable).trust_credit > 0 <==> (status is Trusted
            || status is TrustedByCatalog),
        assessment(status, is_executable).trust_credit > 0 ==> assessment(
            status,
            is_executable,
        ).risk == 0 && !assessment(status, is_executable).flagged,
{
    let list = status_findings(status, is_executable);
    if list.len() > 0 {
        assert(list.drop_last() =~= Seq::<FindingModel>::empty());
        assert(finding::worst_risk(list.drop_last()) == 0);
    }
}

/// A file that cannot carry a signature is not reported as unsigned.
pub proof fn law_unsignable_files_are_not_checked(
    verified: Option<TrustModel>,
    is_pe: bool,
    ext: Seq<char>,
)
    requires
        !signable(is_pe, ext),
    ensures
        signature_check(verified, is_pe, ext).status is None,
        signature_check(verified, is_pe, ext).findings.len() == 0,
        signature_check(verified, is_pe, ext).risk == 0,
{
}

/// An explicit distrust weighs more than tampering, which weighs more than an
/// unknown authority, which weighs more than no signature, which weighs more
/// than an expired one.
pub proof fn law_broken_signatures_are_ranked(
    a: Option<Seq<char>>,
    b: Option<Seq<char>>,
    c: Option<Seq<char>>,
)
    ensures
        assessment(TrustModel::Distrusted { publisher: a }, true).risk > assessment(
            TrustModel::Tampered,
            true,
        ).risk,
        assessment(TrustModel::Tampered, true).risk > assessment(
            TrustModel::UntrustedRoot { publisher: b },
            true,
        ).risk,
        assessment(TrustModel::UntrustedRoot { publisher: b }, true).risk > assessment(
            TrustModel::Unsigned,
            true,
        ).risk,
        assessment(TrustModel::Unsigned, true).risk > assessment(
            TrustModel::Expired { publisher: c },
            true,
        ).risk,
        assessment(TrustModel::Expired { publisher: c }, true).risk > 0,
{
    assert forall|s: TrustModel| (#[trigger] status_findings(s, true)).len() == 1 implies finding::worst_risk(
        status_findings(s, true),
    ) == (if status_findings(s, true)[0].risk > 0 {
        status_findings(s, true)[0].risk
    } else {
        0
    }) by {
        let list = status_findings(s, true);
        assert(list.drop_last() =~= Seq::<FindingModel>::empty());
        assert(finding::worst_risk(list.drop_last()) == 0);
    }
}

/// The risk that a signature gives is a risk.
pub proof fn law_signature_risk_is_bounded(
    verified: Option<TrustModel>,
    is_pe: bool,
    ext: Seq<char>,
)
    ensures
        0 <= signature_check(verified, is_pe, ext).risk <= RISK_ONE,
{
    if let Some(status) = verified {
        let findings = status_findings(status, is_pe || ext.len() > 0);
        assert(findings.len() <= 1);
        finding::law_worst_risk_is_the_maximum(findings);
    }
}

/// Trust comes only of a verification that succeeded. Each status code of the
/// verification means one thing, whoever signed the file: only success, or a
/// missing signature where a catalog lists the file, is trust, and a digest that
/// does not match is tampering.
pub proof fn law_trust_comes_of_success_alone(
    code: u32,
    publisher: Option<Seq<char>>,
    catalog: Option<Seq<char>>,
)
    ensures
        trust_model(code, publisher, catalog) is Trusted <==> code == 0,
        trust_model(code, publisher, catalog) is TrustedByCatalog <==> code == 0x800B_0100
            && catalog is Some,
        trust_model(code, publisher, catalog) is Unsigned <==> code == 0x800B_0100 && catalog
            is None,
        trust_model(code, publisher, catalog) is Tampered <==> code == 0x8009_6010,
        trust_model(code, publisher, catalog) is Distrusted <==> code == 0x800B_0111 || code
            == 0x800B_010C,
        trust_model(code, publisher, catalog) is Expired <==> code == 0x800B_0101,
        trust_model(code, publisher, catalog) is UntrustedRoot <==> code == 0x800B_0109 || code
            == 0x800B_010A || code == 0x800B_010D || code == 0x800B_0004,
{
}

/// A status names the signer or the catalog that the verification named, and no
/// other.
pub proof fn law_a_status_names_the_signer(
    code: u32,
    publisher: Option<Seq<char>>,
    catalog: Option<Seq<char>>,
)
    ensures
        match trust_model(code, publisher, catalog) {
            TrustModel::Trusted { publisher: p } => p == publisher,
            TrustModel::UntrustedRoot { publisher: p } => p == publisher,
            TrustModel::Expired { publisher: p } => p == publisher,
            TrustModel::Distrusted { publisher: p } => p == publisher,
            TrustModel::TrustedByCatalog { catalog: c } => c == catalog,
            _ => true,
        },
        publisher_of(trust_model(code, publisher, catalog)) == if code == 0 || code == 0x800B_0111
            || code == 0x800B_010C || code == 0x800B_0101 || code == 0x800B_0109 || code
            == 0x800B_010A || code == 0x800B_010D || code == 0x800B_0004 {
            publisher
        } else {
            None
        },
{
}

/// A list of one finding has its risk.
proof fn lemma_one_finding(f: FindingModel)
    ensures
        finding::worst_risk(seq![f]) == if f.risk > 0 {
            f.risk
        } else {
            0
        },
{
    assert(seq![f].drop_last() =~= Seq::<FindingModel>::empty());
    assert(finding::worst_risk(seq![f].drop_last()) == 0);
}

/// What a verification is worth, from the status code to the risk and the
/// credit. A changed file and a distrusted signer are critical and no credit
/// rescues them; an unknown authority, a missing signature and an expired one
/// weigh little; only success and a catalog earn credit, all of it; and a
/// verification that could not be made counts neither way.
pub proof fn law_what_a_verification_is_worth(
    code: u32,
    publisher: Option<Seq<char>>,
    catalog: Option<Seq<char>>,
    is_pe: bool,
    ext: Seq<char>,
)
    requires
        signable(is_pe, ext),
        is_pe || ext.len() > 0,
    ensures
        ({
            let r = signature_check(Some(trust_model(code, publisher, catalog)), is_pe, ext);
            let trusted = code == 0 || (code == 0x800B_0100 && catalog is Some);
            &&& r.status == Some(trust_model(code, publisher, catalog))
            &&& r.findings.len() == 1
            &&& r.findings[0].risk == r.risk
            &&& r.flags == seq![finding::one_line_text(r.findings[0])]
            &&& r.flagged == (r.risk > 0)
            &&& r.trust_credit == if trusted {
                2_500int
            } else {
                0
            }
            &&& trusted ==> r.risk == 0 && r.findings[0].severity == Severity::Low
            &&& code == 0x8009_6010 ==> r.risk == 8_000 && r.findings[0].severity
                == Severity::Critical
            &&& code == 0x800B_0111 || code == 0x800B_010C ==> r.risk == 9_000
                && r.findings[0].severity == Severity::Critical
            &&& code == 0x800B_0109 || code == 0x800B_010A || code == 0x800B_010D || code
                == 0x800B_0004 ==> r.risk == 3_000 && r.findings[0].severity == Severity::Medium
            &&& code == 0x800B_0101 ==> r.risk == 1_500 && r.findings[0].severity == Severity::Low
            &&& code == 0x800B_0100 && catalog is None ==> r.risk == 2_000
                && r.findings[0].severity == Severity::Low
            &&& trust_model(code, publisher, catalog) is Unavailable ==> r.risk == 0
                && r.findings[0].severity == Severity::Low
        }),
{
    let status = trust_model(code, publisher, catalog);
    let findings = status_findings(status, true);
    assert(findings =~= seq![findings[0]]);
    lemma_one_finding(findings[0]);
    assert(finding::one_line_texts(findings) =~= seq![finding::one_line_text(findings[0])]);
}

/// Programs, libraries, drivers, packages, catalogs and scripts can carry a
/// signature, and so can every image, whatever it is called. Nothing else can.
pub proof fn law_what_can_carry_a_signature(is_pe: bool, ext: Seq<char>)
    ensures
        signable(is_pe, ext) <==> is_pe || ext == "exe"@ || ext == "dll"@ || ext == "sys"@ || ext
            == "ocx"@ || ext == "msi"@ || ext == "msix"@ || ext == "appx"@ || ext == "cab"@ || ext
            == "cat"@ || ext == "ps1"@ || ext == "psm1"@ || ext == "scr"@ || ext == "cpl"@,
{
    let list = SIGNABLE_EXTENSIONS@;
    assert(list[0]@ == "exe"@ && list[1]@ == "dll"@ && list[2]@ == "sys"@ && list[3]@ == "ocx"@);
    assert(list[4]@ == "msi"@ && list[5]@ == "msix"@ && list[6]@ == "appx"@ && list[7]@ == "cab"@);
    assert(list[8]@ == "cat"@ && list[9]@ == "ps1"@ && list[10]@ == "psm1"@ && list[11]@
        == "scr"@ && list[12]@ == "cpl"@);
    assert(list.len() == 13);
}

/// A file whose signature was not verified is reported as such: it is neither
/// trusted nor called unsigned.
pub proof fn law_an_unchecked_file_is_not_judged(is_pe: bool, ext: Seq<char>)
    requires
        signable(is_pe, ext),
    ensures
        signature_check(None, is_pe, ext).status is Some,
        (signature_check(None, is_pe, ext).status->0) is Unavailable,
        signature_check(None, is_pe, ext).risk == 0,
        signature_check(None, is_pe, ext).trust_credit == 0,
        !signature_check(None, is_pe, ext).flagged,
{
}

/// A credit settles a weak case: where no finding is critical or high, it takes
/// off what it is worth, up to its ceiling, and no score falls below zero.
pub proof fn law_credit_settles_a_weak_case(risk: int, credit: int, findings: Seq<FindingModel>)
    requires
        risk >= 0,
        credit > 0,
        forall|i: int|
            0 <= i < findings.len() ==> (#[trigger] findings[i]).severity == Severity::Medium
                || findings[i].severity == Severity::Low,
    ensures
        credited(risk, credit, findings) == vstd::math::max(
            0,
            risk - vstd::math::min(credit, 2_500),
        ),
{
}

/// A critical or high finding withholds the credit, wherever it stands.
pub proof fn law_a_critical_or_high_finding_withholds_the_credit(
    risk: int,
    credit: int,
    findings: Seq<FindingModel>,
    i: int,
)
    requires
        0 <= i < findings.len(),
        findings[i].severity == Severity::Critical || findings[i].severity == Severity::High,
    ensures
        credited(risk, credit, findings) == risk,
        has_serious(findings),
{
    assert(serious(findings[i]));
}

} // verus!
