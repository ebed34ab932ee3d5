use boxedcat::cert::{
    certificate_request, certificate_window, dev_certificate_request, generate_certificate, generate_certificate_at,
    generate_dev_certificate, generate_dev_certificate_at, CertError,
};

fn framed(text: &str, tag: &str) -> bool {
    text.starts_with(&format!("-----BEGIN {}-----", tag))
        && (text.ends_with(&format!("-----END {}-----\n", tag)) || text.ends_with(&format!("-----END {}-----\r\n", tag)))
}

#[test]
fn development_certificate_is_made() {
    let pems = match generate_dev_certificate() {
        Ok(p) => p,
        Err(_) => panic!("the development certificate could not be made"),
    };
    assert!(framed(&pems.cert_pem, "CERTIFICATE"));
    assert!(framed(&pems.key_pem, "PRIVATE KEY"));
    assert_eq!(pems.request.names, vec!["localhost", "127.0.0.1", "::1"]);
    assert_eq!(pems.request.common_name, "BoxedCat Dev Server");
    assert_eq!(pems.request.valid_days, 365);
    assert_eq!(pems.not_after - pems.not_before, 365 * 86400);
    // Made now (after 2020-01-01).
    assert!(pems.not_before > 1_577_836_800);
}

#[test]
fn development_request() {
    let r = dev_certificate_request();
    assert_eq!(r.names, vec!["localhost", "127.0.0.1", "::1"]);
    assert_eq!((r.common_name.as_str(), r.valid_days), ("BoxedCat Dev Server", 365));
}

#[test]
fn non_ascii_name_is_refused() {
    let req = certificate_request(vec!["localhost".to_string(), "café.test".to_string()], "x", 30);
    assert!(matches!(generate_certificate(req), Err(CertError::InvalidName)));
}

#[test]
fn certificate_for_project_names() {
    let req = certificate_request(vec!["shop.test".to_string(), "10.0.0.1".to_string()], "Shop", 7);
    let pems = match generate_certificate(req) {
        Ok(p) => p,
        Err(_) => panic!("the certificate could not be made"),
    };
    assert_eq!(pems.request.names, vec!["shop.test", "10.0.0.1"]);
    assert_eq!((pems.request.common_name.as_str(), pems.request.valid_days), ("Shop", 7));
    assert_eq!(pems.not_after - pems.not_before, 7 * 86400);
    assert!(framed(&pems.cert_pem, "CERTIFICATE"));
}

#[test]
fn zero_day_certificate() {
    let req = certificate_request(vec!["a.test".to_string()], "A", 0);
    let pems = match generate_certificate(req) {
        Ok(p) => p,
        Err(_) => panic!("the certificate could not be made"),
    };
    assert_eq!(pems.not_after, pems.not_before);
}

#[test]
fn validity_past_year_9999_is_a_time_error() {
    let req = certificate_request(vec!["a.test".to_string()], "A", 100_000_000_000);
    assert!(matches!(generate_certificate(req), Err(CertError::Time)));
    let req = certificate_request(vec!["a.test".to_string()], "A", 3_000_000);
    assert!(matches!(generate_certificate(req), Err(CertError::Time)));
}

#[test]
fn certificate_windows() {
    assert!(matches!(certificate_window(1_700_000_000, 365), Ok((1_700_000_000, 1_731_536_000))));
    assert!(matches!(certificate_window(0, 0), Ok((0, 0))));
    // First and last seconds a certificate can carry.
    assert!(matches!(certificate_window(-62_167_219_200, 0), Ok(_)));
    assert!(matches!(certificate_window(-62_167_219_201, 0), Err(CertError::Time)));
    assert!(matches!(certificate_window(253_402_300_799, 0), Ok(_)));
    assert!(matches!(certificate_window(253_402_300_799, 1), Err(CertError::Time)));
    assert!(matches!(certificate_window(253_402_300_800, 0), Err(CertError::Time)));
    // After 2038 is fine.
    assert!(matches!(certificate_window(3_000_000_000, 365), Ok(_)));
}

#[test]
fn certificate_at_a_given_instant() {
    let pems = match generate_dev_certificate_at(3_000_000_000) {
        Ok(p) => p,
        Err(_) => panic!("a certificate from 2065 could be made"),
    };
    assert_eq!((pems.not_before, pems.not_after), (3_000_000_000, 3_000_000_000 + 365 * 86400));
    assert!(framed(&pems.cert_pem, "CERTIFICATE"));
    assert!(matches!(generate_dev_certificate_at(253_402_300_000), Err(CertError::Time)));
    assert!(matches!(generate_dev_certificate_at(-70_000_000_000), Err(CertError::Time)));
    let before_1950 = match generate_dev_certificate_at(-1_000_000_000) {
        Ok(p) => p,
        Err(_) => panic!("a certificate from 1938 could be made"),
    };
    assert_eq!(before_1950.not_before, -1_000_000_000);
    let req = certificate_request(vec!["é.test".to_string()], "x", 1);
    assert!(matches!(generate_certificate_at(req, 253_402_300_799), Err(CertError::InvalidName)));
}
