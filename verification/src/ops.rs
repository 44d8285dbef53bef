use vstd::prelude::*;

use crate::amount::{format_lamports_as_sol, parse_sol_amount, spec_parse_amount, spec_sol_display};
use crate::errors::WalletError;
use crate::keys::{derived_pubkey, pubkey_is_valid, pubkey_valid, read_keypair, KeyMaterial};

verus! {

/// A validated funding request, ready for the remote call: the checked
/// recipient, the amount in lamports, and the amount text for the
/// report.
pub struct AirdropPlan {
    pub recipient: String,
    pub lamports: u64,
    pub amount_text: String,
}

/// Validates a funding request.  Succeeds exactly when the amount text
/// parses and the recipient is a well-formed address; nothing is sent
/// anywhere before both checks pass.
pub fn request_airdrop(amount: &str, recipient: &str) -> (r: Result<AirdropPlan, WalletError>)
    ensures
        match r {
            Ok(p) => {
                &&& spec_parse_amount(amount@) == Some(p.lamports)
                &&& pubkey_valid(recipient@)
                &&& p.recipient@ == recipient@
                &&& p.amount_text@ == amount@
            },
            Err(e) => match e {
                WalletError::CliUsageError(a) => a@ == amount@ && spec_parse_amount(amount@)
                    is None,
                WalletError::InvalidAddress(ad) => ad@ == recipient@ && spec_parse_amount(amount@)
                    is Some && !pubkey_valid(recipient@),
                _ => false,
            },
        },
        r is Ok <==> (spec_parse_amount(amount@) is Some && pubkey_valid(recipient@)),
{
    let lamports = match parse_sol_amount(amount) {
        Some(l) => l,
        None => {
            return Err(WalletError::CliUsageError(amount.to_owned()));
        },
    };
    if !pubkey_is_valid(recipient) {
        return Err(WalletError::InvalidAddress(recipient.to_owned()));
    }
    Ok(AirdropPlan { recipient: recipient.to_owned(), lamports, amount_text: amount.to_owned() })
}

/// Folds the outcome of the funding request call into the operation:
/// the signature on success, a request failure carrying the remote
/// message otherwise.
pub fn airdrop_request_outcome(outcome: Result<String, String>) -> (r: Result<
    String,
    WalletError,
>)
    ensures
        match r {
            Ok(sig) => outcome matches Ok(s) && sig@ == s@,
            Err(e) => outcome matches Err(m) && e matches WalletError::RequestFailed(t) && t@
                == "Airdrop request failed: "@ + m@,
        },
        r is Ok <==> outcome is Ok,
{
    match outcome {
        Ok(sig) => Ok(sig),
        Err(m) => {
            let mut t = String::from_str("Airdrop request failed: ");
            t.append(m.as_str());
            Err(WalletError::RequestFailed(t))
        },
    }
}

/// Folds the outcome of the confirmation poll into the operation: the
/// success report on success, a confirmation failure otherwise.
pub fn airdrop_confirm_outcome(plan: &AirdropPlan, outcome: Result<bool, String>) -> (r: Result<
    String,
    WalletError,
>)
    ensures
        match r {
            Ok(msg) => outcome is Ok && msg@ == "Airdrop of "@ + plan.amount_text@ + " SOL to "@
                + plan.recipient@ + " successful"@,
            Err(e) => outcome matches Err(m) && e matches WalletError::ConfirmationFailed(t) && t@
                == "Failed to confirm transaction: "@ + m@,
        },
        r is Ok <==> outcome is Ok,
{
    match outcome {
        Ok(_) => {
            let mut msg = String::from_str("Airdrop of ");
            msg.append(plan.amount_text.as_str());
            msg.append(" SOL to ");
            msg.append(plan.recipient.as_str());
            msg.append(" successful");
            Ok(msg)
        },
        Err(m) => {
            let mut t = String::from_str("Failed to confirm transaction: ");
            t.append(m.as_str());
            Err(WalletError::ConfirmationFailed(t))
        },
    }
}

/// A validated transfer, ready for the freshness-token fetch: the
/// verified sender key, the checked recipient and the amount in
/// lamports.
pub struct TransferPlan {
    pub sender: KeyMaterial,
    pub recipient: String,
    pub lamports: u64,
}

/// Validates a transfer.  The amount must parse, the sender's stored
/// secret must reload under the sender address, and the recipient must
/// be a well-formed address, checked in that order; nothing is sent
/// anywhere before all three pass.  `secret_file` carries the contents
/// of the secret key file, or nothing when the file does not exist.
pub fn send_sol(
    amount: &str,
    sender: &str,
    recipient: &str,
    secret_file: Option<&str>,
) -> (r: Result<TransferPlan, WalletError>)
    ensures
        match r {
            Ok(p) => {
                &&& spec_parse_amount(amount@) == Some(p.lamports)
                &&& derived_pubkey(p.sender.secret@) == Some(sender@)
                &&& p.sender.address@ == sender@
                &&& secret_file matches Some(sf) && p.sender.secret@ == sf@
                &&& pubkey_valid(recipient@)
                &&& p.recipient@ == recipient@
            },
            Err(e) => match e {
                WalletError::CliUsageError(a) => a@ == amount@ && spec_parse_amount(amount@)
                    is None,
                WalletError::KeyNotFound => spec_parse_amount(amount@) is Some && secret_file
                    is None,
                WalletError::KeyMismatch => spec_parse_amount(amount@) is Some && (secret_file
                    matches Some(sf) && derived_pubkey(sf@) != Some(sender@)),
                WalletError::InvalidAddress(ad) => ad@ == recipient@ && spec_parse_amount(amount@)
                    is Some && (secret_file matches Some(sf) && derived_pubkey(sf@) == Some(
                    sender@,
                )) && !pubkey_valid(recipient@),
                _ => false,
            },
        },
        r is Ok <==> (spec_parse_amount(amount@) is Some && (secret_file matches Some(sf)
            && derived_pubkey(sf@) == Some(sender@)) && pubkey_valid(recipient@)),
{
    let lamports = match parse_sol_amount(amount) {
        Some(l) => l,
        None => {
            return Err(WalletError::CliUsageError(amount.to_owned()));
        },
    };
    let sender_key = match read_keypair(secret_file, sender) {
        Ok(km) => km,
        Err(e) => {
            return Err(e);
        },
    };
    if !pubkey_is_valid(recipient) {
        return Err(WalletError::InvalidAddress(recipient.to_owned()));
    }
    Ok(TransferPlan { sender: sender_key, recipient: recipient.to_owned(), lamports })
}

/// A transfer ready to sign and submit, carrying the freshness token
/// the network returned.
pub struct TransferSubmit {
    pub sender_secret: String,
    pub sender_address: String,
    pub recipient: String,
    pub lamports: u64,
    pub blockhash: String,
}

/// Folds the outcome of the freshness-token fetch into the transfer:
/// on success the submission order carries the token and the plan
/// unchanged, otherwise the fetch failure is reported.
pub fn transfer_blockhash_outcome(plan: TransferPlan, outcome: Result<String, String>) -> (r:
    Result<TransferSubmit, WalletError>)
    ensures
        match r {
            Ok(t) => {
                &&& outcome matches Ok(h) && t.blockhash@ == h@
                &&& t.sender_secret@ == plan.sender.secret@
                &&& t.sender_address@ == plan.sender.address@
                &&& t.recipient@ == plan.recipient@
                &&& t.lamports == plan.lamports
            },
            Err(e) => outcome matches Err(m) && e matches WalletError::RequestFailed(t) && t@
                == "Failed to fetch the latest blockhash: "@ + m@,
        },
        r is Ok <==> outcome is Ok,
{
    match outcome {
        Ok(h) => Ok(
            TransferSubmit {
                sender_secret: plan.sender.secret,
                sender_address: plan.sender.address,
                recipient: plan.recipient,
                lamports: plan.lamports,
                blockhash: h,
            },
        ),
        Err(m) => {
            let mut t = String::from_str("Failed to fetch the latest blockhash: ");
            t.append(m.as_str());
            Err(WalletError::RequestFailed(t))
        },
    }
}

/// Folds the outcome of the signed submission into the transfer: the
/// success report carrying the transaction signature, or the
/// submission failure.
pub fn transfer_submit_outcome(outcome: Result<String, String>) -> (r: Result<
    String,
    WalletError,
>)
    ensures
        match r {
            Ok(msg) => outcome matches Ok(sig) && msg@ == "Transaction successful. Signature: "@
                + sig@,
            Err(e) => outcome matches Err(m) && e matches WalletError::SubmissionFailed(t) && t@
                == "Failed to submit the transaction: "@ + m@,
        },
        r is Ok <==> outcome is Ok,
{
    match outcome {
        Ok(sig) => {
            let mut msg = String::from_str("Transaction successful. Signature: ");
            msg.append(sig.as_str());
            Ok(msg)
        },
        Err(m) => {
            let mut t = String::from_str("Failed to submit the transaction: ");
            t.append(m.as_str());
            Err(WalletError::SubmissionFailed(t))
        },
    }
}

/// Picks and validates the address whose balance is asked for: the
/// explicit argument when given, the configured default otherwise.
/// Fails on a malformed (in particular an empty) address before
/// anything is asked of the network.
pub fn get_balance(pubkey: Option<&str>, config_pubkey: &str) -> (r: Result<String, WalletError>)
    ensures
        match r {
            Ok(a) => match pubkey {
                Some(p) => pubkey_valid(p@) && a@ == p@,
                None => pubkey_valid(config_pubkey@) && a@ == config_pubkey@,
            },
            Err(e) => e matches WalletError::InvalidAddress(ad) && match pubkey {
                Some(p) => !pubkey_valid(p@) && ad@ == p@,
                None => !pubkey_valid(config_pubkey@) && ad@ == config_pubkey@,
            },
        },
        r is Ok <==> pubkey_valid(
            match pubkey {
                Some(p) => p@,
                None => config_pubkey@,
            },
        ),
{
    let chosen = match pubkey {
        Some(p) => p,
        None => config_pubkey,
    };
    if pubkey_is_valid(chosen) {
        Ok(chosen.to_owned())
    } else {
        Err(WalletError::InvalidAddress(chosen.to_owned()))
    }
}

/// Folds the outcome of the balance query into the operation: the
/// report showing the balance in whole SOL, or the query failure.
pub fn balance_outcome(address: &str, outcome: Result<u64, String>) -> (r: Result<
    String,
    WalletError,
>)
    ensures
        match r {
            Ok(msg) => outcome matches Ok(l) && msg@ == "Balance of "@ + address@ + ": "@
                + spec_sol_display(l) + " SOL"@,
            Err(e) => outcome matches Err(m) && e matches WalletError::RequestFailed(t) && t@
                == "Failed to get balance: "@ + m@,
        },
        r is Ok <==> outcome is Ok,
{
    match outcome {
        Ok(l) => {
            let mut msg = String::from_str("Balance of ");
            msg.append(address);
            msg.append(": ");
            let shown = format_lamports_as_sol(l);
            msg.append(shown.as_str());
            msg.append(" SOL");
            Ok(msg)
        },
        Err(m) => {
            let mut t = String::from_str("Failed to get balance: ");
            t.append(m.as_str());
            Err(WalletError::RequestFailed(t))
        },
    }
}

} // verus!
