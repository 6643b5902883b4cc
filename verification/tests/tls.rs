use smtp2cf::tls::{
    accept_certs, choose_private_key, load_certs, load_private_key, CertError, KeyError, PrivateKey,
};

fn pem(label: &str, base64: &str) -> String {
    format!("-----BEGIN {label}-----\n{base64}\n-----END {label}-----\n")
}

#[test]
fn certificates_are_read_in_their_order() {
    let file = [
        pem("CERTIFICATE", "AQID"),
        pem("PRIVATE KEY", "BwgJ"),
        pem("CERTIFICATE", "BAUG"),
    ]
    .concat();
    let certs = load_certs(file.as_bytes());
    assert_eq!(certs, Ok(vec![vec![1u8, 2, 3], vec![4, 5, 6]]));
}

#[test]
fn a_certificate_file_must_hold_certificates() {
    assert_eq!(load_certs(b""), Err(CertError::NoCertificates));
    assert_eq!(
        load_certs(pem("PRIVATE KEY", "BwgJ").as_bytes()),
        Err(CertError::NoCertificates)
    );
    let broken = [pem("CERTIFICATE", "AQID"), pem("CERTIFICATE", "?")].concat();
    assert_eq!(load_certs(broken.as_bytes()), Err(CertError::Unreadable));
    assert_eq!(
        load_certs(b"-----BEGIN CERTIFICATE-----\nAQID\n"),
        Err(CertError::Unreadable)
    );
    assert_eq!(
        CertError::Unreadable.message("/c.pem"),
        "failed to parse TLS cert /c.pem"
    );
    assert_eq!(
        CertError::NoCertificates.message("/c.pem"),
        "no certificates found in /c.pem"
    );
}

#[test]
fn certificates_are_accepted_as_they_were_read() {
    assert_eq!(accept_certs(None), Err(CertError::Unreadable));
    assert_eq!(accept_certs(Some(vec![])), Err(CertError::NoCertificates));
    assert_eq!(accept_certs(Some(vec![vec![9]])), Ok(vec![vec![9]]));
}

#[test]
fn a_pkcs8_key_is_preferred() {
    let file = [
        pem("RSA PRIVATE KEY", "AQID"),
        pem("PRIVATE KEY", "BwgJ"),
        pem("PRIVATE KEY", "BAUG"),
    ]
    .concat();
    assert!(matches!(
        load_private_key(file.as_bytes()),
        Ok(PrivateKey::Pkcs8(der)) if der == [7, 8, 9]
    ));
    let file = [
        pem("CERTIFICATE", "BwgJ"),
        pem("RSA PRIVATE KEY", "AQID"),
        pem("RSA PRIVATE KEY", "BAUG"),
    ]
    .concat();
    assert!(matches!(
        load_private_key(file.as_bytes()),
        Ok(PrivateKey::Rsa(der)) if der == [1, 2, 3]
    ));
}

#[test]
fn a_key_file_must_hold_a_key() {
    assert!(matches!(load_private_key(b""), Err(KeyError::NoKey)));
    assert!(matches!(
        load_private_key(pem("EC PRIVATE KEY", "AQID").as_bytes()),
        Err(KeyError::NoKey)
    ));
    assert!(matches!(
        load_private_key(pem("PRIVATE KEY", "?").as_bytes()),
        Err(KeyError::UnreadablePkcs8)
    ));
    assert_eq!(
        KeyError::UnreadablePkcs8.message("/k.pem"),
        "failed to parse PKCS8 key /k.pem"
    );
    assert_eq!(
        KeyError::UnreadableRsa.message("/k.pem"),
        "failed to parse RSA key /k.pem"
    );
    assert_eq!(
        KeyError::NoKey.message("/k.pem"),
        "no supported private key found in /k.pem"
    );
}

#[test]
fn keys_are_chosen_by_form() {
    assert!(matches!(
        choose_private_key(Some(Some(vec![1])), Some(Some(vec![2]))),
        Ok(PrivateKey::Pkcs8(der)) if der == [1]
    ));
    assert!(matches!(
        choose_private_key(Some(None), Some(Some(vec![2]))),
        Err(KeyError::UnreadablePkcs8)
    ));
    assert!(matches!(
        choose_private_key(None, Some(Some(vec![2]))),
        Ok(PrivateKey::Rsa(der)) if der == [2]
    ));
    assert!(matches!(
        choose_private_key(None, Some(None)),
        Err(KeyError::UnreadableRsa)
    ));
    assert!(matches!(choose_private_key(None, None), Err(KeyError::NoKey)));
}
