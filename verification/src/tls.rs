//! TLS material: the certificates and the private key that are read from PEM files.

use vstd::prelude::*;

verus! {

/// The certificates that `rustls-pemfile` reads in a PEM file, where it can read all of them.
pub uninterp spec fn pem_certificates(pem: Seq<u8>) -> Option<Seq<Seq<u8>>>;

/// The first item that `rustls-pemfile` finds when it looks for PKCS8 keys in a PEM file: nothing,
/// something that cannot be read, or a key.
pub uninterp spec fn pem_pkcs8_key(pem: Seq<u8>) -> Option<Option<Seq<u8>>>;

/// The first item that `rustls-pemfile` finds when it looks for RSA keys in a PEM file: nothing,
/// something that cannot be read, or a key.
pub uninterp spec fn pem_rsa_key(pem: Seq<u8>) -> Option<Option<Seq<u8>>>;

/// The error of reading.
#[verifier::external_type_specification]
#[verifier::external_body]
pub struct ExIoError(std::io::Error);

/// The bytes of some certificates.
pub open spec fn der_views(certs: Seq<Vec<u8>>) -> Seq<Seq<u8>> {
    certs.map_values(|cert: Vec<u8>| cert@)
}

/// The bytes of a first item, where there is one and it can be read.
pub open spec fn item_view(item: Option<Option<Vec<u8>>>) -> Option<Option<Seq<u8>>> {
    match item {
        Some(Some(key)) => Some(Some(key@)),
        Some(None) => Some(None),
        None => None,
    }
}

/// `rustls_pemfile::certs` on bytes in memory: gives the DER form of the certificates of a PEM
/// file in their order, or an error where some of the file cannot be read.
#[verifier::external_body]
fn read_certs(pem: &[u8]) -> (res: Result<Vec<Vec<u8>>, std::io::Error>)
    ensures
        res is Ok == pem_certificates(pem@) is Some,
        res matches Ok(certs) ==> pem_certificates(pem@) == Some(der_views(certs@)),
{
    let mut reader = pem;
    rustls_pemfile::certs(&mut reader).map(|cert| cert.map(|der| der.as_ref().to_vec())).collect()
}

/// `rustls_pemfile::pkcs8_private_keys` on bytes in memory: gives its first item, a key in DER form
/// or an error, where there is one.
#[verifier::external_body]
fn read_pkcs8_key(pem: &[u8]) -> (item: Option<Result<Vec<u8>, std::io::Error>>)
    ensures
        item matches None ==> pem_pkcs8_key(pem@) == None::<Option<Seq<u8>>>,
        item matches Some(Err(_)) ==> pem_pkcs8_key(pem@) == Some(None::<Seq<u8>>),
        item matches Some(Ok(key)) ==> pem_pkcs8_key(pem@) == Some(Some(key@)),
{
    let mut reader = pem;
    let first = rustls_pemfile::pkcs8_private_keys(&mut reader).next();
    first.map(|key| key.map(|der| der.secret_pkcs8_der().to_vec()))
}

/// `rustls_pemfile::rsa_private_keys` on bytes in memory: gives its first item, a key in DER form
/// or an error, where there is one.
#[verifier::external_body]
fn read_rsa_key(pem: &[u8]) -> (item: Option<Result<Vec<u8>, std::io::Error>>)
    ensures
        item matches None ==> pem_rsa_key(pem@) == None::<Option<Seq<u8>>>,
        item matches Some(Err(_)) ==> pem_rsa_key(pem@) == Some(None::<Seq<u8>>),
        item matches Some(Ok(key)) ==> pem_rsa_key(pem@) == Some(Some(key@)),
{
    let mut reader = pem;
    let first = rustls_pemfile::rsa_private_keys(&mut reader).next();
    first.map(|key| key.map(|der| der.secret_pkcs1_der().to_vec()))
}

/// What is wrong with a certificate file.
#[derive(Debug, Clone, Copy, PartialEq, Eq, Structural)]
pub enum CertError {
    Unreadable,
    NoCertificates,
}

impl CertError {
    /// The error in words.
    pub open spec fn text(self, path: Seq<char>) -> Seq<char> {
        match self {
            CertError::Unreadable => "failed to parse TLS cert "@ + path,
            CertError::NoCertificates => "no certificates found in "@ + path,
        }
    }

    /// Says what is wrong with the file at `path`.
    pub fn message(&self, path: &str) -> (message: String)
        ensures
            message@ == self.text(path@),
    {
        let beginning = match self {
            CertError::Unreadable => "failed to parse TLS cert ",
            CertError::NoCertificates => "no certificates found in ",
        };
        let mut message = beginning.to_owned();
        message.append(path);
        message
    }
}

/// The certificates of a file: all of it can be read, and there is at least one.
pub open spec fn accepted_certs(parsed: Option<Seq<Seq<u8>>>) -> Result<Seq<Seq<u8>>, CertError> {
    match parsed {
        None => Err(CertError::Unreadable),
        Some(certs) => if certs.len() == 0 {
            Err(CertError::NoCertificates)
        } else {
            Ok(certs)
        },
    }
}

/// Takes the certificates of a file, given what could be read of it.
pub fn accept_certs(parsed: Option<Vec<Vec<u8>>>) -> (res: Result<Vec<Vec<u8>>, CertError>)
    ensures
        match parsed {
            None => res == Err::<Vec<Vec<u8>>, CertError>(CertError::Unreadable),
            Some(certs) => if certs@.len() == 0 {
                res == Err::<Vec<Vec<u8>>, CertError>(CertError::NoCertificates)
            } else {
                res == Ok::<Vec<Vec<u8>>, CertError>(certs)
            },
        },
        accepted_certs(
            match parsed {
                Some(certs) => Some(der_views(certs@)),
                None => None,
            },
        ) == (match res {
            Ok(certs) => Ok::<Seq<Seq<u8>>, CertError>(der_views(certs@)),
            Err(e) => Err::<Seq<Seq<u8>>, CertError>(e),
        }),
{
    match parsed {
        None => Err(CertError::Unreadable),
        Some(certs) => if certs.is_empty() {
            Err(CertError::NoCertificates)
        } else {
            Ok(certs)
        },
    }
}

/// Reads the certificates of a PEM file.
pub fn load_certs(pem: &[u8]) -> (res: Result<Vec<Vec<u8>>, CertError>)
    ensures
        match accepted_certs(pem_certificates(pem@)) {
            Ok(certs) => res matches Ok(got) && der_views(got@) == certs,
            Err(e) => res == Err::<Vec<Vec<u8>>, CertError>(e),
        },
{
    match read_certs(pem) {
        Ok(certs) => accept_certs(Some(certs)),
        Err(_) => accept_certs(None),
    }
}

/// A private key in DER form.
#[derive(Clone)]
pub enum PrivateKey {
    Pkcs8(Vec<u8>),
    Rsa(Vec<u8>),
}

/// A private key, in terms of bytes.
pub enum KeyModel {
    Pkcs8(Seq<u8>),
    Rsa(Seq<u8>),
}

impl View for PrivateKey {
    type V = KeyModel;

    open spec fn view(&self) -> KeyModel {
        match self {
            PrivateKey::Pkcs8(der) => KeyModel::Pkcs8(der@),
            PrivateKey::Rsa(der) => KeyModel::Rsa(der@),
        }
    }
}

/// What is wrong with a key file.
#[derive(Debug, Clone, Copy, PartialEq, Eq, Structural)]
pub enum KeyError {
    UnreadablePkcs8,
    UnreadableRsa,
    NoKey,
}

impl KeyError {
    /// The error in words.
    pub open spec fn text(self, path: Seq<char>) -> Seq<char> {
        match self {
            KeyError::UnreadablePkcs8 => "failed to parse PKCS8 key "@ + path,
            KeyError::UnreadableRsa => "failed to parse RSA key "@ + path,
            KeyError::NoKey => "no supported private key found in "@ + path,
        }
    }

    /// Says what is wrong with the file at `path`.
    pub fn message(&self, path: &str) -> (message: String)
        ensures
            message@ == self.text(path@),
    {
        let beginning = match self {
            KeyError::UnreadablePkcs8 => "failed to parse PKCS8 key ",
            KeyError::UnreadableRsa => "failed to parse RSA key ",
            KeyError::NoKey => "no supported private key found in ",
        };
        let mut message = beginning.to_owned();
        message.append(path);
        message
    }
}

/// The key that is used: the first PKCS8 key, and the first RSA key where there is no PKCS8 key.
/// An item that cannot be read is an error, not passed over.
pub open spec fn chosen_key(
    pkcs8: Option<Option<Seq<u8>>>,
    rsa: Option<Option<Seq<u8>>>,
) -> Result<KeyModel, KeyError> {
    match (pkcs8, rsa) {
        (Some(Some(der)), _) => Ok(KeyModel::Pkcs8(der)),
        (Some(None), _) => Err(KeyError::UnreadablePkcs8),
        (None, Some(Some(der))) => Ok(KeyModel::Rsa(der)),
        (None, Some(None)) => Err(KeyError::UnreadableRsa),
        (None, None) => Err(KeyError::NoKey),
    }
}

/// Chooses the key that is used, given the first item of each form.
pub fn choose_private_key(
    pkcs8: Option<Option<Vec<u8>>>,
    rsa: Option<Option<Vec<u8>>>,
) -> (res: Result<PrivateKey, KeyError>)
    ensures
        match chosen_key(item_view(pkcs8), item_view(rsa)) {
            Ok(key) => res matches Ok(got) && got@ == key,
            Err(e) => res == Err::<PrivateKey, KeyError>(e),
        },
{
    match pkcs8 {
        Some(Some(der)) => Ok(PrivateKey::Pkcs8(der)),
        Some(None) => Err(KeyError::UnreadablePkcs8),
        None => match rsa {
            Some(Some(der)) => Ok(PrivateKey::Rsa(der)),
            Some(None) => Err(KeyError::UnreadableRsa),
            None => Err(KeyError::NoKey),
        },
    }
}

/// Reads the private key of a PEM file.
pub fn load_private_key(pem: &[u8]) -> (res: Result<PrivateKey, KeyError>)
    ensures
        match chosen_key(pem_pkcs8_key(pem@), pem_rsa_key(pem@)) {
            Ok(key) => res matches Ok(got) && got@ == key,
            Err(e) => res == Err::<PrivateKey, KeyError>(e),
        },
{
    let pkcs8 = match read_pkcs8_key(pem) {
        Some(Ok(der)) => Some(Some(der)),
        Some(Err(_)) => Some(None),
        None => None,
    };
    let rsa = match read_rsa_key(pem) {
        Some(Ok(der)) => Some(Some(der)),
        Some(Err(_)) => Some(None),
        None => None,
    };
    choose_private_key(pkcs8, rsa)
}

/// Certificates and keys stand for their bytes.
pub proof fn law_material_stands_for_its_bytes(certs: Seq<Vec<u8>>, der: Vec<u8>, k: int)
    ensures
        der_views(certs).len() == certs.len(),
        0 <= k < certs.len() ==> der_views(certs)[k] == certs[k]@,
        item_view(None) == None::<Option<Seq<u8>>>,
        item_view(Some(None)) == Some(None::<Seq<u8>>),
        item_view(Some(Some(der))) == Some(Some(der@)),
        PrivateKey::Pkcs8(der)@ == KeyModel::Pkcs8(der@),
        PrivateKey::Rsa(der)@ == KeyModel::Rsa(der@),
{
}

/// Certificates are taken as they were read, all of them and in their order, exactly if there is
/// at least one; a file that cannot be read is told from one that holds none.
pub proof fn law_certificates_are_taken_as_they_are(certs: Seq<Seq<u8>>)
    ensures
        certs.len() > 0 ==> accepted_certs(Some(certs)) == Ok::<Seq<Seq<u8>>, CertError>(certs),
        certs.len() == 0 ==> accepted_certs(Some(certs)) == Err::<Seq<Seq<u8>>, CertError>(
            CertError::NoCertificates,
        ),
        accepted_certs(None) == Err::<Seq<Seq<u8>>, CertError>(CertError::Unreadable),
{
}

/// Where a file has a PKCS8 item, that alone decides. Where it has none, the RSA item does, and
/// where it has neither there is no key.
pub proof fn law_pkcs8_keys_come_first(
    der: Seq<u8>,
    rsa: Option<Option<Seq<u8>>>,
    other: Option<Option<Seq<u8>>>,
)
    ensures
        chosen_key(Some(Some(der)), rsa) == Ok::<KeyModel, KeyError>(KeyModel::Pkcs8(der)),
        chosen_key(Some(None), rsa) == Err::<KeyModel, KeyError>(KeyError::UnreadablePkcs8),
        chosen_key(None, Some(Some(der))) == Ok::<KeyModel, KeyError>(KeyModel::Rsa(der)),
        chosen_key(None, Some(None)) == Err::<KeyModel, KeyError>(KeyError::UnreadableRsa),
        chosen_key(None, None) == Err::<KeyModel, KeyError>(KeyError::NoKey),
        chosen_key(Some(Some(der)), rsa) == chosen_key(Some(Some(der)), other),
{
}

/// What is wrong with a file is told with its path.
pub proof fn law_errors_name_the_file(path: Seq<char>)
    ensures
        CertError::Unreadable.text(path) == "failed to parse TLS cert "@ + path,
        CertError::NoCertificates.text(path) == "no certificates found in "@ + path,
        KeyError::UnreadablePkcs8.text(path) == "failed to parse PKCS8 key "@ + path,
        KeyError::UnreadableRsa.text(path) == "failed to parse RSA key "@ + path,
        KeyError::NoKey.text(path) == "no supported private key found in "@ + path,
{
}

} // verus!
