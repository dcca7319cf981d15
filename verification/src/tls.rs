//! Certificates and keys: reading them out of PEM files, and the server
//! name a peer's certificate carries.

use vstd::prelude::*;
use crate::sync::network::{ConfigError, NetworkError};
use crate::validated::{ServerName, Validated};

verus! {

/// The DER contents of the certificate sections of the PEM text `pem`, in
/// order; `None` when the text is not well-formed PEM.
pub uninterp spec fn pem_certificates(pem: Seq<u8>) -> Option<Seq<Seq<u8>>>;

/// The DER contents of the RSA private key sections of the PEM text `pem`,
/// in order; `None` when the text is not well-formed PEM.
pub uninterp spec fn pem_rsa_keys(pem: Seq<u8>) -> Option<Seq<Seq<u8>>>;

/// The first common name in the subject of the DER certificate `der`:
/// `None` when `der` is not a certificate, `Some(None)` when its subject has
/// no common name or the first one is not held as a string.
pub uninterp spec fn certificate_common_name(der: Seq<u8>) -> Option<Option<Seq<char>>>;

/// The contents of a sequence of byte vectors.
pub open spec fn byte_views(s: Seq<Vec<u8>>) -> Seq<Seq<u8>> {
    s.map_values(|v: Vec<u8>| v@)
}

/// Calls rustls-pemfile's `certs` on the bytes of `pem`: the result is named
/// [`pem_certificates`]. The text of the error is not stated.
#[verifier::external_body]
fn read_pem_certificates(pem: &[u8]) -> (r: Result<Vec<Vec<u8>>, String>)
    ensures
        match r {
            Ok(v) => pem_certificates(pem@) == Some(byte_views(v@)),
            Err(_) => pem_certificates(pem@) is None,
        },
{
    let mut reader: &[u8] = pem;
    rustls_pemfile::certs(&mut reader).map_err(|e| e.to_string())
}

/// Calls rustls-pemfile's `rsa_private_keys` on the bytes of `pem`: the
/// result is named [`pem_rsa_keys`]. The text of the error is not stated.
#[verifier::external_body]
fn read_pem_rsa_keys(pem: &[u8]) -> (r: Result<Vec<Vec<u8>>, String>)
    ensures
        match r {
            Ok(v) => pem_rsa_keys(pem@) == Some(byte_views(v@)),
            Err(_) => pem_rsa_keys(pem@) is None,
        },
{
    let mut reader: &[u8] = pem;
    rustls_pemfile::rsa_private_keys(&mut reader).map_err(|e| e.to_string())
}

/// Calls x509-parser's `parse_x509_certificate` on `der`, then takes the
/// first common name of the subject as a string: the result is named
/// [`certificate_common_name`]. The text of the error is not stated.
#[verifier::external_body]
fn read_common_name(der: &[u8]) -> (r: Result<Option<String>, String>)
    ensures
        match r {
            Ok(Some(cn)) => certificate_common_name(der@) == Some(Some(cn@)),
            Ok(None) => certificate_common_name(der@) == Some(None::<Seq<char>>),
            Err(_) => certificate_common_name(der@) is None,
        },
{
    match x509_parser::parse_x509_certificate(der) {
        Ok((_, cert)) => Ok(cert.subject().iter_common_name().next().and_then(|cn| cn.as_str().ok()).map(|s| s.to_string())),
        Err(e) => Err(e.to_string()),
    }
}

/// The certificate authority of the network: the last certificate of the PEM
/// text read from the file `path`. Refused with an I/O error when the text
/// is not well-formed PEM, and with a format error when it holds no certificate.
pub fn ca_certificate_from_pem(pem: &[u8], path: &String) -> (r: Result<Vec<u8>, ConfigError>)
    ensures
        match pem_certificates(pem@) {
            None => r matches Err(ConfigError::IoError(_, p)) && p@ == path@,
            Some(certs) => if certs.len() == 0 {
                r matches Err(ConfigError::FormatError(m, p)) && m@ == "No certificate in CA file"@ && p@ == path@
            } else {
                r matches Ok(c) && c@ == certs.last()
            },
        },
{
    match read_pem_certificates(pem) {
        Ok(mut certs) => {
            let ghost all = byte_views(certs@);
            match certs.pop() {
                Some(c) => {
                    proof {
                        assert(all.last() == c@);
                    }
                    Ok(c)
                },
                None => Err(ConfigError::FormatError("No certificate in CA file".to_owned(), path.clone())),
            }
        },
        Err(e) => Err(ConfigError::IoError(e, path.clone())),
    }
}

/// The certificate authority for management clients: the first certificate
/// of the PEM text read from the file `path`. Refused with an I/O error when
/// the text is not well-formed PEM, and with a format error when it holds no
/// certificate.
pub fn client_ca_from_pem(pem: &[u8], path: &String) -> (r: Result<Vec<u8>, ConfigError>)
    ensures
        match pem_certificates(pem@) {
            None => r matches Err(ConfigError::IoError(_, p)) && p@ == path@,
            Some(certs) => if certs.len() == 0 {
                r matches Err(ConfigError::FormatError(_, p)) && p@ == path@
            } else {
                r matches Ok(c) && c@ == certs[0]
            },
        },
{
    match read_pem_certificates(pem) {
        Ok(mut certs) => {
            if certs.len() == 0 {
                Err(ConfigError::FormatError("No certificate in client CA file".to_owned(), path.clone()))
            } else {
                let ghost all = byte_views(certs@);
                let c = certs.remove(0);
                proof {
                    assert(all[0] == c@);
                }
                Ok(c)
            }
        },
        Err(e) => Err(ConfigError::IoError(e, path.clone())),
    }
}

/// This node's certificate chain and private key: every certificate of the
/// PEM text of the certificate file, and the last RSA private key of the PEM
/// text of the key file. Refused with an I/O error, naming the file, when a
/// text is not well-formed PEM, and with a format error when the key file
/// holds no RSA private key.
pub fn cert_chain_and_key_from_pem(cert_pem: &[u8], cert_path: &String, key_pem: &[u8], key_path: &String)
    -> (r: Result<(Vec<Vec<u8>>, Vec<u8>), ConfigError>)
    ensures
        match pem_certificates(cert_pem@) {
            None => r matches Err(ConfigError::IoError(_, p)) && p@ == cert_path@,
            Some(chain) => match pem_rsa_keys(key_pem@) {
                None => r matches Err(ConfigError::IoError(_, p)) && p@ == key_path@,
                Some(keys) => if keys.len() == 0 {
                    r matches Err(ConfigError::FormatError(m, p)) && m@ == "No private key in file"@ && p@ == key_path@
                } else {
                    r matches Ok((c, k)) && byte_views(c@) == chain && k@ == keys.last()
                },
            },
        },
{
    let chain = match read_pem_certificates(cert_pem) {
        Ok(c) => c,
        Err(e) => return Err(ConfigError::IoError(e, cert_path.clone())),
    };
    match read_pem_rsa_keys(key_pem) {
        Ok(mut keys) => {
            let ghost all = byte_views(keys@);
            match keys.pop() {
                Some(k) => {
                    proof {
                        assert(all.last() == k@);
                    }
                    Ok((chain, k))
                },
                None => Err(ConfigError::FormatError("No private key in file".to_owned(), key_path.clone())),
            }
        },
        Err(e) => Err(ConfigError::IoError(e, key_path.clone())),
    }
}

/// The server name a peer's certificate carries in its common name.
/// Refused with an internal error when the bytes are not a certificate,
/// when its subject has no common name, or when that name is not a valid
/// server name.
pub fn peer_name_from_certificate(der: &[u8]) -> (r: Result<ServerName, NetworkError>)
    ensures
        match certificate_common_name(der@) {
            Some(Some(cn)) => if ServerName::valid(cn) {
                r matches Ok(n) && n@ == cn
            } else {
                r matches Err(NetworkError::InternalError(_))
            },
            _ => r matches Err(NetworkError::InternalError(_)),
        },
{
    match read_common_name(der) {
        Ok(Some(cn)) => match ServerName::convert(cn.as_str()) {
            Ok(name) => Ok(name),
            Err(_) => {
                let mut msg = "Invalid server name in certificate: ".to_owned();
                msg.push_str(cn.as_str());
                Err(NetworkError::InternalError(msg))
            },
        },
        Ok(None) => Err(NetworkError::InternalError("Couldn't parse peer CN".to_owned())),
        Err(e) => {
            let mut msg = "Invalid peer certificate? ".to_owned();
            msg.push_str(e.as_str());
            Err(NetworkError::InternalError(msg))
        },
    }
}

} // verus!
