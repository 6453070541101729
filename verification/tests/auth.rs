use spotify_stats::auth::{basic_authorization, basic_authorization_value};

#[test]
fn basic_authorization_encodes_id_colon_secret() {
    // base64("a:b") is "YTpi"
    assert_eq!(basic_authorization("a", "b"), Some("Basic YTpi".to_string()));
}

#[test]
fn basic_authorization_pads_the_encoding() {
    // base64("client:secret") is "Y2xpZW50OnNlY3JldA=="
    assert_eq!(
        basic_authorization("client", "secret"),
        Some("Basic Y2xpZW50OnNlY3JldA==".to_string())
    );
}

#[test]
fn basic_authorization_agrees_with_the_encoder() {
    let expected = format!("Basic {}", base64::encode("id-1:s3cr3t/+"));
    assert_eq!(basic_authorization("id-1", "s3cr3t/+"), Some(expected));
}

#[test]
fn basic_authorization_of_empty_credentials() {
    // base64(":") is "Og=="
    assert_eq!(basic_authorization("", ""), Some("Basic Og==".to_string()));
}

#[test]
fn basic_authorization_value_prefixes_the_scheme() {
    assert_eq!(basic_authorization_value("abc"), "Basic abc");
    assert_eq!(basic_authorization_value(""), "Basic ");
}
