use vstd::prelude::*;

use crate::errors::VaultError;
use crate::store::{is_safe_segment, safe_segment, valid_stored_name};
use crate::text::{lemma_split_seq_first, split_seq};
use crate::text::{chars_of, extend_chars, has_prefix, push_str_chars, starts_with_lit,
    string_from_chars};

verus! {

#[verifier::external_type_specification]
pub struct ExAlgorithm(totp_rs::Algorithm);

#[verifier::external_type_specification]
pub struct ExTotp(totp_rs::TOTP);

#[verifier::external_type_specification]
#[verifier::external_body]
pub struct ExTotpUrlError(totp_rs::TotpUrlError);

/// A payload beginning with this scheme is a one-time-password provisioning
/// URI; anything else is a plain secret.
pub open spec fn otp_scheme_prefix() -> Seq<char> {
    seq!['o', 't', 'p', 'a', 'u', 't', 'h', ':', '/', '/']
}

/// The standard time-based provisioning URIs this engine derives codes from.
pub open spec fn totp_url_prefix() -> Seq<char> {
    seq!['o', 't', 'p', 'a', 'u', 't', 'h', ':', '/', '/', 't', 'o', 't', 'p', '/']
}

/// What parsing a provisioning URI yields, as a function of the characters
/// of the URI alone: nothing when the URI is rejected, else the issuer (if
/// any), the account, the period in seconds, and the digit count.
pub uninterp spec fn otp_url_parts(url: Seq<char>) -> Option<
    (Option<Seq<char>>, Seq<char>, u64, usize),
>;

pub open spec fn issuer_view(o: Option<String>) -> Option<Seq<char>> {
    match o {
        Some(s) => Some(s@),
        None => None,
    }
}

/// Relies on totp_rs::TOTP::from_url_unchecked: the parse depends on the
/// characters of the URL alone; on success the shared secret is non-empty
/// (an empty one is rejected), and the issuer, account, period and digit
/// count are the URI's parameters as given, unchecked beyond that, so
/// secrets shorter than the recommended length still enroll and derive
/// codes. The URL must carry the lower-case time-based scheme and host,
/// which keeps the parse total.
#[verifier::external_body]
fn parse_otp_url(url: &str) -> (r: Result<totp_rs::TOTP, totp_rs::TotpUrlError>)
    requires
        has_prefix(url@, totp_url_prefix()),
    ensures
        r is Ok <==> otp_url_parts(url@) is Some,
        r matches Ok(t) ==> otp_url_parts(url@) matches Some(p) && {
            &&& issuer_view(t.issuer) == p.0
            &&& t.account_name@ == p.1
            &&& t.step == p.2
            &&& t.digits == p.3
            &&& t.secret@.len() > 0
        },
{
    totp_rs::TOTP::from_url_unchecked(url)
}

pub open spec fn is_code_digit(c: char) -> bool {
    '0' <= c <= '9'
}

/// The code the engine derives for a provisioning URI at a given time: a
/// function of the URI's characters and the time alone.
pub uninterp spec fn totp_code_of(url: Seq<char>, time: u64) -> Seq<char>;

/// Relies on totp_rs::TOTP::from_url_unchecked and TOTP::generate: parse
/// and code are both functions of the URI's characters and the time alone.
/// The requires keep the computation total: the period must be nonzero (the
/// counter divides by it) and the digit count must lie between one and
/// nine, so the decimal power stays in range and the code comes back
/// zero-padded to exactly that many decimal digits. The error arm is
/// unreachable under the requires.
#[verifier::external_body]
fn code_from_url(url: &str, time: u64) -> (r: String)
    requires
        has_prefix(url@, totp_url_prefix()),
        otp_url_parts(url@) matches Some(p) && p.2 > 0 && 1 <= p.3 <= 9,
    ensures
        r@ == totp_code_of(url@, time),
        otp_url_parts(url@) matches Some(p) ==> r@.len() == p.3,
        forall|i: int| 0 <= i < r@.len() ==> is_code_digit(#[trigger] r@[i]),
{
    match totp_rs::TOTP::from_url_unchecked(url) {
        Ok(t) => t.generate(time),
        Err(_) => String::new(),
    }
}

/// A decrypted payload: either a plain secret, returned as it is, or a
/// one-time-password provisioning URI.
#[derive(Debug)]
pub enum Payload {
    Plain { value: String },
    OtpUri { uri: String },
}

/// A payload is a provisioning URI exactly when it begins with the fixed
/// scheme prefix; otherwise it is a plain secret, unchanged.
pub fn classify(plaintext: &str) -> (r: Payload)
    ensures
        has_prefix(plaintext@, otp_scheme_prefix()) ==> (r matches Payload::OtpUri { uri }
            && uri@ == plaintext@),
        !has_prefix(plaintext@, otp_scheme_prefix()) ==> (r matches Payload::Plain { value }
            && value@ == plaintext@),
{
    let chars = chars_of(plaintext);
    proof {
        reveal_strlit("otpauth://");
        assert("otpauth://"@ =~= otp_scheme_prefix());
    }
    if starts_with_lit(&chars, "otpauth://") {
        Payload::OtpUri { uri: String::from_str(plaintext) }
    } else {
        Payload::Plain { value: String::from_str(plaintext) }
    }
}

pub open spec fn lower_char(c: char) -> char {
    if 'A' <= c <= 'Z' {
        ((c as u32) + 32) as char
    } else {
        c
    }
}

/// The scheme and host of a provisioning URI compare case-insensitively, so
/// the leading characters, as many as the time-based prefix has, are
/// lowered before any prefix test or parse.
pub open spec fn canonical_uri(s: Seq<char>) -> Seq<char> {
    Seq::new(
        s.len(),
        |i: int|
            if i < 15 {
                lower_char(s[i])
            } else {
                s[i]
            },
    )
}

fn lower_char_ascii(c: char) -> (r: char)
    ensures
        r == lower_char(c),
{
    if 'A' <= c && c <= 'Z' {
        crate::text::char_from_code(c as u32 + 32)
    } else {
        c
    }
}

/// The URI with its scheme and host lowered.
fn canonical_chars(uri: &str) -> (r: Vec<char>)
    ensures
        r@ == canonical_uri(uri@),
{
    let chars = chars_of(uri);
    let mut out: Vec<char> = Vec::new();
    let mut i: usize = 0;
    while i < chars.len()
        invariant
            i <= chars@.len(),
            chars@ == uri@,
            out@ =~= canonical_uri(uri@).subrange(0, i as int),
        decreases chars@.len() - i,
    {
        let c = if i < 15 {
            lower_char_ascii(chars[i])
        } else {
            chars[i]
        };
        out.push(c);
        proof {
            assert(out@ =~= canonical_uri(uri@).subrange(0, i + 1));
        }
        i = i + 1;
    }
    proof {
        assert(canonical_uri(uri@).subrange(0, uri@.len() as int) =~= canonical_uri(uri@));
        assert(out@ =~= canonical_uri(uri@));
    }
    out
}

/// A code can be derived exactly when the URI, its scheme and host lowered,
/// is a well-formed time-based provisioning URI with a nonzero period and a
/// sane digit count.
pub open spec fn code_available(uri: Seq<char>) -> bool {
    &&& has_prefix(canonical_uri(uri), totp_url_prefix())
    &&& otp_url_parts(canonical_uri(uri)) matches Some(p) && p.2 > 0 && 1 <= p.3 <= 9
}

/// Derives the live code for a provisioning URI at the given time: the
/// time-step counter comes from the time and the URI's period, and the code
/// has the URI's configured digit count. A structurally invalid URI is an
/// `OtpComputationError`, never a panic.
pub fn current_code(uri: &str, time: u64) -> (r: Result<String, VaultError>)
    ensures
        match r {
            Ok(code) => {
                &&& code_available(uri@)
                &&& code@ == totp_code_of(canonical_uri(uri@), time)
                &&& otp_url_parts(canonical_uri(uri@)) matches Some(p) && code@.len() == p.3
                &&& forall|i: int| 0 <= i < code@.len() ==> is_code_digit(#[trigger] code@[i])
            },
            Err(e) => !code_available(uri@) && e == VaultError::OtpComputationError,
        },
{
    let canon = canonical_chars(uri);
    proof {
        reveal_strlit("otpauth://totp/");
        assert("otpauth://totp/"@ =~= totp_url_prefix());
    }
    if !starts_with_lit(&canon, "otpauth://totp/") {
        return Err(VaultError::OtpComputationError);
    }
    let canon_str = string_from_chars(&canon);
    match parse_otp_url(canon_str.as_str()) {
        Err(_) => Err(VaultError::OtpComputationError),
        Ok(t) => {
            if t.step == 0 || t.digits == 0 || t.digits > 9 {
                return Err(VaultError::OtpComputationError);
            }
            Ok(code_from_url(canon_str.as_str(), time))
        },
    }
}

/// What a decrypted payload yields for the caller: a plain secret unchanged,
/// or the live code derived from a provisioning URI at the given time.
pub fn extract_payload(plaintext: &str, time: u64) -> (r: Result<String, VaultError>)
    ensures
        !has_prefix(plaintext@, otp_scheme_prefix()) ==> (r matches Ok(s) && s@ == plaintext@),
        has_prefix(plaintext@, otp_scheme_prefix()) ==> match r {
            Ok(code) => {
                &&& code_available(plaintext@)
                &&& code@ == totp_code_of(canonical_uri(plaintext@), time)
                &&& otp_url_parts(canonical_uri(plaintext@)) matches Some(p) && code@.len()
                    == p.3
                &&& forall|i: int|
                    0 <= i < code@.len() ==> is_code_digit(#[trigger] code@[i])
            },
            Err(e) => !code_available(plaintext@) && e == VaultError::OtpComputationError,
        },
{
    match classify(plaintext) {
        Payload::Plain { value } => Ok(value),
        Payload::OtpUri { uri } => current_code(uri.as_str(), time),
    }
}

/// An enrollment ready to store: the derived logical name and the full URI
/// kept as the record's plaintext, so later retrieval regenerates codes with
/// the original parameters.
#[derive(Debug)]
pub struct OtpEnrollment {
    pub logical_name: String,
    pub plaintext: String,
}

/// The logical name an enrollment is stored under.
pub open spec fn otp_logical_name(issuer: Seq<char>, account: Seq<char>) -> Seq<char> {
    seq!['o', 't', 'p', '/'] + issuer + seq!['/'] + account
}

/// Enrolls a provisioning URI: the issuer and the account name the URI
/// carries give the logical name, and the whole URI becomes the record's
/// plaintext. A URI that cannot be parsed, lacks the issuer, or whose issuer
/// or account cannot stand as a path segment is an `InvalidOtpUri`.
pub fn provision(uri: &str) -> (r: Result<OtpEnrollment, VaultError>)
    ensures
        match r {
            Ok(enr) => {
                &&& has_prefix(canonical_uri(uri@), totp_url_prefix())
                &&& otp_url_parts(canonical_uri(uri@)) matches Some(p) && p.0 matches Some(
                    issuer,
                ) && safe_segment(issuer) && safe_segment(p.1) && enr.logical_name@
                    == otp_logical_name(issuer, p.1) && valid_stored_name(enr.logical_name@)
                &&& enr.plaintext@ == uri@
            },
            Err(e) => {
                &&& e == VaultError::InvalidOtpUri
                &&& !(has_prefix(canonical_uri(uri@), totp_url_prefix()) && (otp_url_parts(
                    canonical_uri(uri@),
                ) matches Some(p) && (p.0 matches Some(issuer) && safe_segment(issuer)
                    && safe_segment(p.1))))
            },
        },
{
    let canon = canonical_chars(uri);
    proof {
        reveal_strlit("otpauth://totp/");
        assert("otpauth://totp/"@ =~= totp_url_prefix());
    }
    if !starts_with_lit(&canon, "otpauth://totp/") {
        return Err(VaultError::InvalidOtpUri);
    }
    let canon_str = string_from_chars(&canon);
    match parse_otp_url(canon_str.as_str()) {
        Err(_) => Err(VaultError::InvalidOtpUri),
        Ok(t) => {
            let issuer: &String = match &t.issuer {
                Some(s) => s,
                None => {
                    return Err(VaultError::InvalidOtpUri);
                },
            };
            let issuer_chars = chars_of(issuer.as_str());
            let account_chars = chars_of(t.account_name.as_str());
            if !is_safe_segment(&issuer_chars) {
                return Err(VaultError::InvalidOtpUri);
            }
            if !is_safe_segment(&account_chars) {
                return Err(VaultError::InvalidOtpUri);
            }
            let mut name: Vec<char> = Vec::new();
            push_str_chars(&mut name, "otp/");
            extend_chars(&mut name, &issuer_chars);
            name.push('/');
            extend_chars(&mut name, &account_chars);
            proof {
                reveal_strlit("otp/");
                assert("otp/"@ =~= seq!['o', 't', 'p', '/']);
                assert(name@ =~= otp_logical_name(issuer@, t.account_name@));
                lemma_otp_name_resolves(issuer@, t.account_name@);
            }
            Ok(
                OtpEnrollment {
                    logical_name: string_from_chars(&name),
                    plaintext: String::from_str(uri),
                },
            )
        },
    }
}

/// A system-generated enrollment name always resolves for later retrieval:
/// its three separator-joined segments — the fixed namespace, the issuer
/// and the account — are each safe, so the name passes the stored-name
/// check that `show`, `clip` and `remove` resolve through.
pub proof fn lemma_otp_name_resolves(issuer: Seq<char>, account: Seq<char>)
    requires
        safe_segment(issuer),
        safe_segment(account),
    ensures
        valid_stored_name(otp_logical_name(issuer, account)),
{
    let name = otp_logical_name(issuer, account);
    let ns = seq!['o', 't', 'p'];
    assert(name[0] == 'o' && name[1] == 't' && name[2] == 'p' && name[3] == '/');
    assert(forall|j: int| 0 <= j < 3 ==> name[j] != '/');
    lemma_split_seq_first(name, '/', 3);
    assert(name.subrange(0, 3) =~= ns);
    let rest1 = name.subrange(4, name.len() as int);
    assert(rest1 =~= issuer + seq!['/'] + account);
    assert(forall|j: int| 0 <= j < issuer.len() ==> rest1[j] == issuer[j]);
    assert(forall|j: int| 0 <= j < issuer.len() ==> rest1[j] != '/');
    assert(rest1[issuer.len() as int] == '/');
    lemma_split_seq_first(rest1, '/', issuer.len() as int);
    let rest2 = rest1.subrange(issuer.len() as int + 1, rest1.len() as int);
    assert(rest2 =~= account);
    assert(forall|j: int| 0 <= j < account.len() ==> account[j] != '/');
    lemma_split_seq_first(account, '/', account.len() as int);
    assert(split_seq(account, '/') =~= seq![account]);
    assert(rest1.subrange(0, issuer.len() as int) =~= issuer);
    assert(split_seq(rest1, '/') =~= seq![issuer] + split_seq(account, '/'));
    assert(split_seq(rest1, '/') =~= seq![issuer, account]);
    assert(split_seq(name, '/') =~= seq![ns] + split_seq(rest1, '/'));
    assert(split_seq(name, '/') =~= seq![ns, issuer, account]);
    assert(forall|j: int| 0 <= j < 3 ==> ns[j] != '/' && ns[j] != '\\');
    assert(safe_segment(ns));
}

/// Chooses the payload of a decoded enrollment image: exactly one readable
/// candidate is accepted; none, several, or an unreadable one is an
/// `OtpDecodeError`.
pub fn select_decoded(results: &Vec<Option<String>>) -> (r: Result<String, VaultError>)
    ensures
        match r {
            Ok(s) => results@.len() == 1 && (results@[0] matches Some(v) && s@ == v@),
            Err(e) => e == VaultError::OtpDecodeError && (results@.len() != 1 || results@[0]
                is None),
        },
{
    if results.len() != 1 {
        return Err(VaultError::OtpDecodeError);
    }
    match &results[0] {
        Some(v) => Ok(String::from_str(v.as_str())),
        None => Err(VaultError::OtpDecodeError),
    }
}

} // verus!
