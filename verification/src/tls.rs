//! Certificates and private keys in PEM files.
use crate::dnssec::names;
use crate::text;
use rustls::pki_types::PrivateKeyDer;
use vstd::prelude::*;

verus! {

/// The forms of a private key.
#[derive(Debug, Clone, Copy, PartialEq, Eq, Structural)]
pub enum KeyForm {
    Pkcs1,
    Sec1,
    Pkcs8,
}

/// A private key.
#[derive(Debug)]
pub struct PrivateKey {
    pub form: KeyForm,
    pub der: Vec<u8>,
}

/// Why a file is refused, and what the parser said where it refused it.
#[derive(Debug)]
pub struct TlsFileError {
    pub message: String,
    pub cause: Option<String>,
}

pub ghost struct TlsFileErrorV {
    pub message: Seq<char>,
    pub cause: Option<Seq<char>>,
}

impl View for TlsFileError {
    type V = TlsFileErrorV;

    open spec fn view(&self) -> TlsFileErrorV {
        TlsFileErrorV {
            message: self.message@,
            cause: match self.cause {
                Some(s) => Some(s@),
                None => None,
            },
        }
    }
}

/// The certificates that rustls-pemfile finds in the bytes of a file, in their order; an error
/// carries its words.
pub uninterp spec fn pem_certificates(pem: Seq<u8>) -> Result<Seq<Seq<u8>>, Seq<char>>;

/// The first private key that rustls-pemfile finds in the bytes of a file, if there is one; an
/// error carries its words.
pub uninterp spec fn pem_private_key(pem: Seq<u8>) -> Result<
    Option<(KeyForm, Seq<u8>)>,
    Seq<char>,
>;

pub open spec fn parsed_certificates(r: Result<Vec<Vec<u8>>, String>) -> Result<
    Seq<Seq<u8>>,
    Seq<char>,
> {
    match r {
        Ok(c) => Ok(names::byte_views(c@)),
        Err(s) => Err(s@),
    }
}

pub open spec fn parsed_key(r: Result<Option<PrivateKey>, String>) -> Result<
    Option<(KeyForm, Seq<u8>)>,
    Seq<char>,
> {
    match r {
        Ok(Some(k)) => Ok(Some((k.form, k.der@))),
        Ok(None) => Ok(None),
        Err(s) => Err(s@),
    }
}

/// Calls `rustls_pemfile::certs` and collects what it yields up to the first error. The result is
/// a function of the bytes.
#[verifier::external_body]
fn parse_certificates(pem: &[u8]) -> (r: Result<Vec<Vec<u8>>, String>)
    ensures
        parsed_certificates(r) == pem_certificates(pem@),
{
    let mut pem = pem;
    let certs: Result<Vec<_>, _> = rustls_pemfile::certs(&mut pem).collect();
    Ok(certs.map_err(|e| e.to_string())?.iter().map(|c| c.to_vec()).collect())
}

/// Calls `rustls_pemfile::private_key`. The result is a function of the bytes.
#[verifier::external_body]
fn parse_private_key(pem: &[u8]) -> (r: Result<Option<PrivateKey>, String>)
    ensures
        parsed_key(r) == pem_private_key(pem@),
{
    let mut pem = pem;
    let key = rustls_pemfile::private_key(&mut pem).map_err(|e| e.to_string())?;
    let of = |form, der: &[u8]| Some(PrivateKey { form, der: der.to_vec() });
    Ok(match &key {
        Some(PrivateKeyDer::Pkcs1(k)) => of(KeyForm::Pkcs1, k.secret_pkcs1_der()),
        Some(PrivateKeyDer::Sec1(k)) => of(KeyForm::Sec1, k.secret_sec1_der()),
        Some(PrivateKeyDer::Pkcs8(k)) => of(KeyForm::Pkcs8, k.secret_pkcs8_der()),
        _ => None,
    })
}

/// The certificates of a file that was parsed, or could not be: one at least.
pub open spec fn certificates_of(
    parsed: Result<Seq<Seq<u8>>, Seq<char>>,
    file: Seq<char>,
) -> Result<Seq<Seq<u8>>, TlsFileErrorV> {
    match parsed {
        Err(words) => Err(
            TlsFileErrorV {
                message: "failed to parse TLS cert file: "@ + file,
                cause: Some(words),
            },
        ),
        Ok(list) => if list.len() == 0 {
            Err(TlsFileErrorV { message: "no certificates found in "@ + file, cause: None })
        } else {
            Ok(list)
        },
    }
}

/// The private key of a file that was parsed, or could not be.
pub open spec fn private_key_of(
    parsed: Result<Option<(KeyForm, Seq<u8>)>, Seq<char>>,
    file: Seq<char>,
) -> Result<(KeyForm, Seq<u8>), TlsFileErrorV> {
    match parsed {
        Err(words) => Err(
            TlsFileErrorV {
                message: "failed to parse TLS key file: "@ + file,
                cause: Some(words),
            },
        ),
        Ok(None) => Err(
            TlsFileErrorV { message: "no private key found in "@ + file, cause: None },
        ),
        Ok(Some(k)) => Ok(k),
    }
}

pub open spec fn certificates_result(r: Result<Vec<Vec<u8>>, TlsFileError>) -> Result<
    Seq<Seq<u8>>,
    TlsFileErrorV,
> {
    match r {
        Ok(c) => Ok(names::byte_views(c@)),
        Err(e) => Err(e@),
    }
}

pub open spec fn key_result(r: Result<PrivateKey, TlsFileError>) -> Result<
    (KeyForm, Seq<u8>),
    TlsFileErrorV,
> {
    match r {
        Ok(k) => Ok((k.form, k.der@)),
        Err(e) => Err(e@),
    }
}

/// The certificates of a file that was parsed, or could not be.
pub fn check_certificates(parsed: Result<Vec<Vec<u8>>, String>, file: &str) -> (r: Result<
    Vec<Vec<u8>>,
    TlsFileError,
>)
    ensures
        certificates_result(r) == certificates_of(parsed_certificates(parsed), file@),
{
    match parsed {
        Err(words) => Err(
            TlsFileError {
                message: text::concat("failed to parse TLS cert file: ", file),
                cause: Some(words),
            },
        ),
        Ok(list) => if list.len() == 0 {
            Err(
                TlsFileError {
                    message: text::concat("no certificates found in ", file),
                    cause: None,
                },
            )
        } else {
            Ok(list)
        },
    }
}

/// The private key of a file that was parsed, or could not be.
pub fn check_private_key(parsed: Result<Option<PrivateKey>, String>, file: &str) -> (r: Result<
    PrivateKey,
    TlsFileError,
>)
    ensures
        key_result(r) == private_key_of(parsed_key(parsed), file@),
{
    match parsed {
        Err(words) => Err(
            TlsFileError {
                message: text::concat("failed to parse TLS key file: ", file),
                cause: Some(words),
            },
        ),
        Ok(None) => Err(
            TlsFileError { message: text::concat("no private key found in ", file), cause: None },
        ),
        Ok(Some(k)) => Ok(k),
    }
}

/// The certificates in the bytes of a file.
pub fn read_certificates(pem: &[u8], file: &str) -> (r: Result<Vec<Vec<u8>>, TlsFileError>)
    ensures
        certificates_result(r) == certificates_of(pem_certificates(pem@), file@),
{
    check_certificates(parse_certificates(pem), file)
}

/// The private key in the bytes of a file.
pub fn read_private_key(pem: &[u8], file: &str) -> (r: Result<PrivateKey, TlsFileError>)
    ensures
        key_result(r) == private_key_of(pem_private_key(pem@), file@),
{
    check_private_key(parse_private_key(pem), file)
}

} // verus!
