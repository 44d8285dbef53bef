use solfort::errors::WalletError;
use solfort::keys::generate_keypair;
use solfort::ops::{
    airdrop_confirm_outcome, airdrop_request_outcome, balance_outcome, get_balance,
    request_airdrop, send_sol, transfer_blockhash_outcome, transfer_submit_outcome,
};

// the system program address: base58 text of thirty-two zero bytes
const RECIPIENT: &str = "11111111111111111111111111111111";

#[test]
fn airdrop_plan_carries_the_converted_amount() {
    let plan = request_airdrop("1.5", RECIPIENT).expect("a valid request must pass");
    assert_eq!(plan.lamports, 1_500_000_000);
    assert_eq!(plan.recipient.as_str(), RECIPIENT);
    assert_eq!(plan.amount_text.as_str(), "1.5");
}

#[test]
fn airdrop_rejects_malformed_recipient_before_any_network_call() {
    let r = request_airdrop("1.5", "not-a-key");
    match r {
        Err(WalletError::InvalidAddress(a)) => assert_eq!(a.as_str(), "not-a-key"),
        other => panic!("expected an invalid address, got {:?}", other.is_ok()),
    }
}

#[test]
fn airdrop_rejects_malformed_amount() {
    let r = request_airdrop("one", RECIPIENT);
    match r {
        Err(WalletError::CliUsageError(a)) => assert_eq!(a.as_str(), "one"),
        other => panic!("expected a usage error, got {:?}", other.is_ok()),
    }
}

#[test]
fn airdrop_outcomes_fold_into_reports() {
    let sig = airdrop_request_outcome(Ok(String::from("SIG"))).expect("success passes through");
    assert_eq!(sig.as_str(), "SIG");
    let r = airdrop_request_outcome(Err(String::from("boom")));
    match r {
        Err(WalletError::RequestFailed(m)) => {
            assert_eq!(m.as_str(), "Airdrop request failed: boom")
        },
        _ => panic!("expected a request failure"),
    }
    let plan = request_airdrop("1.5", RECIPIENT).unwrap();
    let msg = airdrop_confirm_outcome(&plan, Ok(true)).expect("confirmation passes");
    assert_eq!(
        msg.as_str(),
        "Airdrop of 1.5 SOL to 11111111111111111111111111111111 successful"
    );
    let r = airdrop_confirm_outcome(&plan, Err(String::from("timeout")));
    match r {
        Err(WalletError::ConfirmationFailed(m)) => {
            assert_eq!(m.as_str(), "Failed to confirm transaction: timeout")
        },
        _ => panic!("expected a confirmation failure"),
    }
}

#[test]
fn transfer_with_a_mocked_network_returns_the_mock_signature() {
    let sender = generate_keypair();
    let plan = send_sol(
        "1.5",
        sender.public_key_file.as_str(),
        RECIPIENT,
        Some(sender.secret_key_file.as_str()),
    )
    .expect("a valid transfer must pass validation");
    assert_eq!(plan.lamports, 1_500_000_000);
    // the mocked network hands back a fixed freshness token
    let submit = transfer_blockhash_outcome(plan, Ok(String::from("FIXEDBLOCKHASH")))
        .expect("a fetched token moves the transfer on");
    assert_eq!(submit.blockhash.as_str(), "FIXEDBLOCKHASH");
    assert_eq!(submit.recipient.as_str(), RECIPIENT);
    assert_eq!(submit.sender_address.as_str(), sender.public_key_file.as_str());
    assert_eq!(submit.lamports, 1_500_000_000);
    // ... and accepts the submission under a fixed signature
    let report = transfer_submit_outcome(Ok(String::from("MOCKSIGNATURE")))
        .expect("an accepted submission succeeds");
    assert_eq!(
        report.as_str(),
        "Transaction successful. Signature: MOCKSIGNATURE"
    );
}

#[test]
fn transfer_failures_name_their_stage() {
    let sender = generate_keypair();
    let plan = send_sol(
        "1.5",
        sender.public_key_file.as_str(),
        RECIPIENT,
        Some(sender.secret_key_file.as_str()),
    )
    .unwrap();
    let r = transfer_blockhash_outcome(plan, Err(String::from("down")));
    match r {
        Err(WalletError::RequestFailed(m)) => {
            assert_eq!(m.as_str(), "Failed to fetch the latest blockhash: down")
        },
        _ => panic!("expected a request failure"),
    }
    let r = transfer_submit_outcome(Err(String::from("rejected")));
    match r {
        Err(WalletError::SubmissionFailed(m)) => {
            assert_eq!(m.as_str(), "Failed to submit the transaction: rejected")
        },
        _ => panic!("expected a submission failure"),
    }
}

#[test]
fn transfer_validation_failures_come_before_any_network_step() {
    let sender = generate_keypair();
    let other = generate_keypair();
    let addr = sender.public_key_file.as_str();
    let secret = sender.secret_key_file.as_str();
    assert!(matches!(
        send_sol("x", addr, RECIPIENT, Some(secret)),
        Err(WalletError::CliUsageError(_))
    ));
    assert!(matches!(
        send_sol("1.5", addr, RECIPIENT, None),
        Err(WalletError::KeyNotFound)
    ));
    assert!(matches!(
        send_sol("1.5", other.public_key_file.as_str(), RECIPIENT, Some(secret)),
        Err(WalletError::KeyMismatch)
    ));
    assert!(matches!(
        send_sol("1.5", addr, "not-a-key", Some(secret)),
        Err(WalletError::InvalidAddress(_))
    ));
}

#[test]
fn balance_uses_the_argument_or_the_configured_default() {
    let chosen = get_balance(Some(RECIPIENT), "").expect("an explicit address wins");
    assert_eq!(chosen.as_str(), RECIPIENT);
    let chosen = get_balance(None, RECIPIENT).expect("the default serves when none is given");
    assert_eq!(chosen.as_str(), RECIPIENT);
}

#[test]
fn empty_or_malformed_default_is_an_invalid_address() {
    let r = get_balance(None, "");
    match r {
        Err(WalletError::InvalidAddress(a)) => assert_eq!(a.as_str(), ""),
        _ => panic!("expected an invalid address"),
    }
    let r = get_balance(None, "not-a-key");
    assert!(matches!(r, Err(WalletError::InvalidAddress(_))));
    let r = get_balance(Some("also-bad"), RECIPIENT);
    match r {
        Err(WalletError::InvalidAddress(a)) => assert_eq!(a.as_str(), "also-bad"),
        _ => panic!("expected an invalid address"),
    }
}

#[test]
fn balance_outcome_shows_whole_sol() {
    let msg = balance_outcome(RECIPIENT, Ok(1_500_000_000)).expect("a balance reports");
    assert_eq!(
        msg.as_str(),
        "Balance of 11111111111111111111111111111111: 1.5 SOL"
    );
    let r = balance_outcome(RECIPIENT, Err(String::from("down")));
    match r {
        Err(WalletError::RequestFailed(m)) => {
            assert_eq!(m.as_str(), "Failed to get balance: down")
        },
        _ => panic!("expected a request failure"),
    }
}

#[test]
fn error_messages_follow_their_kind() {
    assert_eq!(
        WalletError::KeyNotFound.message().as_str(),
        "Secret key file not found. Generate a keypair first."
    );
    assert_eq!(
        WalletError::KeyMismatch.message().as_str(),
        "Provided public key does not match the stored keypair."
    );
    assert_eq!(
        WalletError::InvalidAddress(String::from("zzz")).message().as_str(),
        "Invalid public key: zzz"
    );
    assert_eq!(
        WalletError::CliUsageError(String::from("one")).message().as_str(),
        "Invalid amount: one"
    );
    assert_eq!(
        WalletError::RequestFailed(String::from("full text")).message().as_str(),
        "full text"
    );
}
