use solfort::config::{config_to_json, load_config, Config};
use solfort::errors::WalletError;
use solfort::keys::{generate_keypair, pubkey_is_valid, read_keypair};

#[test]
fn generated_keypair_round_trips() {
    let generated = generate_keypair();
    let reloaded = read_keypair(
        Some(generated.secret_key_file.as_str()),
        generated.public_key_file.as_str(),
    )
    .expect("a generated keypair must reload under its own address");
    assert_eq!(reloaded.address.as_str(), generated.public_key_file.as_str());
    assert_eq!(reloaded.secret.as_str(), generated.secret_key_file.as_str());
    assert_eq!(
        generated.message.as_str(),
        "Keypair generated and saved in the 'solfort' directory."
    );
}

#[test]
fn generated_address_is_a_valid_pubkey() {
    let generated = generate_keypair();
    assert!(pubkey_is_valid(generated.public_key_file.as_str()));
}

#[test]
fn mismatched_address_is_a_key_mismatch() {
    let ours = generate_keypair();
    let theirs = generate_keypair();
    let r = read_keypair(
        Some(ours.secret_key_file.as_str()),
        theirs.public_key_file.as_str(),
    );
    assert!(matches!(r, Err(WalletError::KeyMismatch)));
}

#[test]
fn undecodable_secret_is_a_key_mismatch() {
    let ours = generate_keypair();
    let r = read_keypair(Some("not-base58-secret-!!"), ours.public_key_file.as_str());
    assert!(matches!(r, Err(WalletError::KeyMismatch)));
}

#[test]
fn missing_secret_file_is_key_not_found() {
    let ours = generate_keypair();
    let r = read_keypair(None, ours.public_key_file.as_str());
    assert!(matches!(r, Err(WalletError::KeyNotFound)));
}

#[test]
fn first_run_self_initializes_and_reloads_identically() {
    let first = load_config(None).expect("the first run must succeed");
    assert_eq!(first.config.cluster.as_str(), "https://api.devnet.solana.com");
    assert_eq!(first.config.pubkey.as_str(), "");
    let document = first.created_file.expect("the first run must persist a document");
    let second = load_config(Some(document.as_str())).expect("the stored document must parse");
    assert!(second.created_file.is_none());
    assert_eq!(second.config.cluster.as_str(), first.config.cluster.as_str());
    assert_eq!(second.config.pubkey.as_str(), first.config.pubkey.as_str());
}

#[test]
fn rendered_document_is_pretty_printed() {
    let config = Config {
        cluster: String::from("https://api.devnet.solana.com"),
        pubkey: String::from("abc"),
    };
    assert_eq!(
        config_to_json(&config).as_str(),
        "{\n  \"cluster\": \"https://api.devnet.solana.com\",\n  \"pubkey\": \"abc\"\n}"
    );
}

#[test]
fn rendered_document_matches_the_reference_json_shape() {
    let config = Config {
        cluster: String::from("https://api.devnet.solana.com"),
        pubkey: String::from("somekey"),
    };
    let document = config_to_json(&config);
    let parsed: serde_json::Value =
        serde_json::from_str(document.as_str()).expect("the document must be valid JSON");
    assert_eq!(
        parsed.get("cluster").and_then(|v| v.as_str()),
        Some("https://api.devnet.solana.com")
    );
    assert_eq!(parsed.get("pubkey").and_then(|v| v.as_str()), Some("somekey"));
}

#[test]
fn members_parse_in_either_order() {
    let swapped = "{ \"pubkey\": \"k\", \"cluster\": \"c\" }";
    let loaded = load_config(Some(swapped)).expect("swapped member order must parse");
    assert_eq!(loaded.config.cluster.as_str(), "c");
    assert_eq!(loaded.config.pubkey.as_str(), "k");
}

#[test]
fn malformed_documents_are_config_errors() {
    for bad in [
        "",
        "garbage",
        "{}",
        "{ \"cluster\": \"c\" }",
        "{ \"cluster\": \"c\", \"pubkey\": \"k\", \"extra\": \"x\" }",
        "{ \"cluster\": \"c\", \"other\": \"k\" }",
        "{ \"cluster\": \"c\", \"pubkey\": \"k\" } trailing",
    ] {
        let r = load_config(Some(bad));
        assert!(matches!(r, Err(WalletError::ConfigError)), "accepted: {bad}");
    }
}
