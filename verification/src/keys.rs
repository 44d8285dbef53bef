use vstd::prelude::*;

use crate::errors::WalletError;
use crate::text::str_eq;

verus! {

/// The address derived from a base58-encoded secret key string: the
/// base58 text of the public half of the keypair the string decodes to,
/// or nothing when the string does not decode to a keypair.  A function
/// of the string alone.
pub uninterp spec fn derived_pubkey(secret: Seq<char>) -> Option<Seq<char>>;

/// Whether address text is a well-formed public key.  A function of the
/// string alone.
pub uninterp spec fn pubkey_valid(s: Seq<char>) -> bool;

/// Relies on `Keypair::new`, `Signer::pubkey` and
/// `Keypair::to_base58_string` of solana_sdk: a fresh random keypair,
/// returned as its address text and its reversible base58 secret
/// encoding.  The encoding holds the full keypair bytes, secret half
/// then public half, so the address derived from it is the returned
/// address, and the address is base58 text of thirty-two bytes.
#[verifier::external_body]
fn generate_key_strings() -> (r: (String, String))
    ensures
        derived_pubkey(r.1@) == Some(r.0@),
        pubkey_valid(r.0@),
{
    let kp = solana_sdk::signer::keypair::Keypair::new();
    let address = solana_sdk::signer::Signer::pubkey(&kp).to_string();
    let secret = kp.to_base58_string();
    (address, secret)
}

/// Relies on `Keypair::try_from` of solana_sdk, applied to the base58
/// decoding of the text (`bs58::decode`), and `Signer::pubkey`: the
/// address of the keypair the text decodes to, or nothing when the text
/// is not base58 or not a keypair.
#[verifier::external_body]
fn address_of_secret(s: &str) -> (r: Option<String>)
    ensures
        r is Some <==> derived_pubkey(s@) is Some,
        r matches Some(a) ==> derived_pubkey(s@) == Some(a@),
{
    let bytes = match bs58::decode(s).into_vec() {
        Ok(b) => b,
        Err(_) => return None,
    };
    let kp = match solana_sdk::signer::keypair::Keypair::try_from(bytes.as_slice()) {
        Ok(k) => k,
        Err(_) => return None,
    };
    Some(solana_sdk::signer::Signer::pubkey(&kp).to_string())
}

/// Relies on `Pubkey::from_str` of solana_sdk: whether address text
/// parses as a public key (base58 text of exactly thirty-two bytes).
#[verifier::external_body]
pub fn pubkey_is_valid(s: &str) -> (r: bool)
    ensures
        r == pubkey_valid(s@),
{
    <solana_sdk::pubkey::Pubkey as std::str::FromStr>::from_str(s).is_ok()
}

/// A usable signing key: an address and the base58 secret encoding that
/// was verified to derive it.
pub struct KeyMaterial {
    pub address: String,
    pub secret: String,
}

impl KeyMaterial {
    /// The secret really is the key for the address.
    pub open spec fn wf(&self) -> bool {
        derived_pubkey(self.secret@) == Some(self.address@)
    }
}

/// Everything the generate command produces: the two file bodies to
/// persist, address and secret, and the confirmation line to print.
pub struct GeneratedKeypair {
    pub public_key_file: String,
    pub secret_key_file: String,
    pub message: String,
}

/// Creates a fresh random keypair.  The caller persists the two file
/// bodies; the stored secret always reloads to the stored address.
pub fn generate_keypair() -> (r: GeneratedKeypair)
    ensures
        derived_pubkey(r.secret_key_file@) == Some(r.public_key_file@),
        pubkey_valid(r.public_key_file@),
        r.message@ == "Keypair generated and saved in the 'solfort' directory."@,
{
    let (address, secret) = generate_key_strings();
    GeneratedKeypair {
        public_key_file: address,
        secret_key_file: secret,
        message: String::from_str("Keypair generated and saved in the 'solfort' directory."),
    }
}

/// The three ways reloading a key can go for given file contents and a
/// claimed address.
pub enum KeyLoad {
    /// No secret file exists.
    Missing,
    /// The secret does not decode, or decodes to some other address.
    Mismatch,
    /// The secret decodes to exactly the claimed address.
    Loaded,
}

/// The decision `read_keypair` makes.
pub open spec fn spec_key_load(secret_file: Option<Seq<char>>, expected: Seq<char>) -> KeyLoad {
    match secret_file {
        Option::None => KeyLoad::Missing,
        Option::Some(sf) => if derived_pubkey(sf) == Some(expected) {
            KeyLoad::Loaded
        } else {
            KeyLoad::Mismatch
        },
    }
}

/// Reloads a stored secret key and verifies it against the claimed
/// address.  `secret_file` carries the contents of the secret key file,
/// or nothing when the file does not exist.  Succeeds exactly when the
/// file exists and its secret derives the claimed address; a missing
/// file and a wrong key are told apart.
pub fn read_keypair(secret_file: Option<&str>, expected_pubkey: &str) -> (r: Result<
    KeyMaterial,
    WalletError,
>)
    ensures
        match r {
            Ok(km) => {
                &&& secret_file matches Some(sf) && km.secret@ == sf@
                &&& derived_pubkey(km.secret@) == Some(expected_pubkey@)
                &&& km.address@ == expected_pubkey@
                &&& km.wf()
            },
            Err(e) => match e {
                WalletError::KeyNotFound => secret_file is None,
                WalletError::KeyMismatch => secret_file matches Some(sf) && derived_pubkey(sf@)
                    != Some(expected_pubkey@),
                _ => false,
            },
        },
        r is Ok <==> (secret_file matches Some(sf) && spec_key_load(Some(sf@), expected_pubkey@)
            is Loaded),
{
    match secret_file {
        None => Err(WalletError::KeyNotFound),
        Some(sf) => match address_of_secret(sf) {
            None => Err(WalletError::KeyMismatch),
            Some(addr) => {
                if str_eq(addr.as_str(), expected_pubkey) {
                    Ok(KeyMaterial { address: addr, secret: sf.to_owned() })
                } else {
                    Err(WalletError::KeyMismatch)
                }
            },
        },
    }
}

/// A generated keypair reloads under its own address: verifying the
/// stored secret against the stored public key succeeds.
pub proof fn lemma_generated_key_round_trip(secret: Seq<char>, address: Seq<char>)
    requires
        derived_pubkey(secret) == Some(address),
    ensures
        spec_key_load(Some(secret), address) is Loaded,
{
}

/// A valid secret never reloads under someone else's address: against
/// any address other than its own, the load reports a mismatch, never a
/// silently substituted key.
pub proof fn lemma_wrong_address_is_mismatch(secret: Seq<char>, other: Seq<char>)
    requires
        derived_pubkey(secret) matches Some(a) && a != other,
    ensures
        spec_key_load(Some(secret), other) is Mismatch,
{
}

/// A missing secret file is reported as exactly that, never as a
/// mismatch or a generic failure.
pub proof fn lemma_missing_file_is_missing(expected: Seq<char>)
    ensures
        spec_key_load(None, expected) is Missing,
{
}

} // verus!
