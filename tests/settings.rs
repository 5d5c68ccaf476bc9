use wallet_sync::auth::{AuthMethod, JwtManager};
use wallet_sync::config::{
    anchor_height, parse_network, resolve_birthday, Config, ConfigError, Network,
};

#[test]
fn auth_method_reads_any_case() {
    assert_eq!(AuthMethod::from_str("google"), AuthMethod::Google);
    assert_eq!(AuthMethod::from_str("GOOGLE"), AuthMethod::Google);
    assert_eq!(AuthMethod::from_str("Email"), AuthMethod::Email);
    assert_eq!(AuthMethod::from_str("github"), AuthMethod::Email);
    assert_eq!(AuthMethod::from_lowercase("google"), AuthMethod::Google);
    assert_eq!(AuthMethod::from_lowercase("GOOGLE"), AuthMethod::Email);
    assert_eq!(AuthMethod::Google.as_str(), "google");
    assert_eq!(AuthMethod::Email.as_str(), "email");
}

#[test]
fn jwt_manager_keeps_its_settings() {
    let m = JwtManager::new("s3cret".to_string(), 900, 86_400);
    assert_eq!(m.secret, "s3cret");
    assert_eq!(m.access_token_expiry, 900);
    assert_eq!(m.refresh_token_expiry, 86_400);
}

#[test]
fn birthday_defaults_to_activation() {
    assert_eq!(resolve_birthday(None, Network::Testnet), 280_000);
    assert_eq!(resolve_birthday(None, Network::Mainnet), 419_200);
    assert_eq!(resolve_birthday(Some(2_500_000), Network::Mainnet), 2_500_000);
    assert_eq!(anchor_height(2_500_000), 2_499_999);
    assert_eq!(anchor_height(0), 0);
}

#[test]
fn config_defaults_and_network_names() {
    let c = Config::from_settings(None, None, None).unwrap();
    assert_eq!(c.network, Network::Testnet);
    assert_eq!(c.lightwalletd_url, "testnet.lightwalletd.com:9067");
    assert_eq!(c.database_url, "sqlite:wallet.db");
    let c = Config::from_settings(
        Some("mainnet".to_string()),
        Some("https://na.zec.rocks:443".to_string()),
        Some("postgres://db".to_string()),
    )
    .unwrap();
    assert_eq!(c.network, Network::Mainnet);
    assert_eq!(c.lightwalletd_url, "https://na.zec.rocks:443");
    assert_eq!(c.database_url, "postgres://db");
    assert_eq!(parse_network("test"), Some(Network::Testnet));
    assert_eq!(parse_network("main"), Some(Network::Mainnet));
    assert_eq!(parse_network("Mainnet"), None);
}

#[test]
fn config_refuses_unknown_network() {
    match Config::from_settings(Some("regtest".to_string()), None, None) {
        Err(ConfigError::InvalidNetwork { name }) => assert_eq!(name, "regtest"),
        Ok(_) => panic!("accepted an unknown network"),
    }
}
