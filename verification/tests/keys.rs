use myth_loader::hexadecimal::HexError;
use myth_loader::keys::{
    decode_secret_key, keypairs_from_seeds, suggest_keys, KeyError, Keypair,
};
use myth_loader::substrate::AccountId20;

const ALITH: &str = "5fb92d6e98884f76de468fa3f6278f8807c48bebc13595d45af5bdc4da702133";
const BALTATHAR: &str = "8075991ce870b93a8870eca0c0f91913d12f47948ca0fd25b49c6fa7cdbeee8b";
const ORDER: &str = "fffffffffffffffffffffffffffffffebaaedce6af48a03bbfd25e8cd0364141";
const BELOW_ORDER: &str = "fffffffffffffffffffffffffffffffebaaedce6af48a03bbfd25e8cd0364140";

fn bytes(text: &str) -> Vec<u8> {
    hex::decode(text).unwrap()
}

fn account(text: &str) -> AccountId20 {
    AccountId20(bytes(text).try_into().unwrap())
}

fn keypair(text: &str) -> Keypair {
    match decode_secret_key(text) {
        Ok(keypair) => keypair,
        Err(_) => panic!("no key pair"),
    }
}

fn error(text: &str) -> KeyError {
    match decode_secret_key(text) {
        Ok(_) => panic!("a key pair"),
        Err(error) => error,
    }
}

#[test]
fn accounts_of_known_keys() {
    assert_eq!(
        keypair(ALITH).account_id(),
        account("f24ff3a9cf04c71dbc94d0b566f7a27b94566cac")
    );
    assert_eq!(
        keypair(BALTATHAR).account_id(),
        account("3cd0a705a2dc65e5b1e1205896baa2be8a07c6e0")
    );
}

#[test]
fn secret_is_kept() {
    assert_eq!(keypair(ALITH).secret_key().to_vec(), bytes(ALITH));
    assert_eq!(keypair(&ALITH.to_uppercase()).secret_key().to_vec(), bytes(ALITH));
}

#[test]
fn empty_key_is_answered_with_suggestions() {
    match error("") {
        KeyError::Empty { suggestions } => {
            assert_eq!(suggestions.len(), 3);
            for suggestion in &suggestions {
                assert_eq!(suggestion.secret_hex.len(), 64);
                assert_eq!(suggestion.account.len(), 42);
                let suggested = keypair(&suggestion.secret_hex);
                assert_eq!(
                    suggestion.account.to_lowercase(),
                    format!("0x{}", hex::encode(suggested.account_id().0))
                );
            }
            assert_ne!(suggestions[0].secret_hex, suggestions[1].secret_hex);
        }
        _ => panic!("another error"),
    }
}

#[test]
fn odd_number_of_digits() {
    assert!(matches!(error("abc"), KeyError::Hex(HexError::OddLength)));
    assert!(matches!(error("xyz"), KeyError::Hex(HexError::OddLength)));
}

#[test]
fn first_bad_digit_is_reported() {
    match error("00ag0x") {
        KeyError::Hex(HexError::InvalidHexCharacter { c, index }) => {
            assert_eq!(c, 'g');
            assert_eq!(index, 3);
        }
        _ => panic!("another error"),
    }
    match error("0x5fb9") {
        KeyError::Hex(HexError::InvalidHexCharacter { c, index }) => {
            assert_eq!(c, 'x');
            assert_eq!(index, 1);
        }
        _ => panic!("another error"),
    }
}

#[test]
fn bad_digit_beyond_ascii() {
    match error("\u{e9}") {
        KeyError::Hex(HexError::InvalidHexCharacter { c, index }) => {
            assert_eq!(c, '\u{c3}');
            assert_eq!(index, 0);
        }
        _ => panic!("another error"),
    }
}

#[test]
fn wrong_number_of_bytes() {
    for text in ["00".to_string(), ALITH[..62].to_string(), format!("{ALITH}00")] {
        match error(&text) {
            KeyError::Length { key } => assert_eq!(key, text),
            _ => panic!("another error"),
        }
    }
}

#[test]
fn secrets_lie_between_zero_and_the_order() {
    assert!(matches!(error(&"00".repeat(32)), KeyError::InvalidSecret));
    assert!(matches!(error(ORDER), KeyError::InvalidSecret));
    assert!(matches!(error(&"ff".repeat(32)), KeyError::InvalidSecret));
    assert_eq!(keypair(BELOW_ORDER).secret_key().to_vec(), bytes(BELOW_ORDER));
    let one = format!("{}01", "00".repeat(31));
    assert_eq!(
        keypair(&one).account_id(),
        account("7e5f4552091a69125d5dfcb7b8c2659029395bdf")
    );
}

#[test]
fn master_key_of_short_seed() {
    let seed = bytes("000102030405060708090a0b0c0d0e0f");
    assert_eq!(
        Keypair::from_seed(&seed).unwrap().secret_key().to_vec(),
        bytes("e8f32e723decf4051aefac8e2c93c9c5b214313817cdb01a1494b917c8436b35")
    );
}

#[test]
fn seeds_of_other_lengths_give_nothing() {
    assert!(Keypair::from_seed(&[]).is_none());
    assert!(Keypair::from_seed(&[1; 15]).is_none());
    assert!(Keypair::from_seed(&[1; 65]).is_none());
    assert!(Keypair::from_seed(&[1; 32]).is_some());
}

fn known_seed() -> [u8; 64] {
    bytes(concat_seed().as_str()).try_into().unwrap()
}

fn concat_seed() -> String {
    format!(
        "{}{}",
        "fffcf9f6f3f0edeae7e4e1dedbd8d5d2cfccc9c6c3c0bdbab7b4b1aeaba8a5a2",
        "9f9c999693908d8a8784817e7b7875726f6c696663605d5a5754514e4b484542"
    )
}

#[test]
fn key_pairs_follow_their_seeds() {
    let seeds = vec![[3; 64], known_seed()];
    let keypairs = match keypairs_from_seeds(&seeds) {
        Ok(keypairs) => keypairs,
        Err(_) => panic!("no key pairs"),
    };
    assert_eq!(keypairs.len(), 2);
    assert_eq!(
        keypairs[0].secret_key(),
        Keypair::from_seed(&seeds[0]).unwrap().secret_key()
    );
    assert_eq!(
        keypairs[1].secret_key().to_vec(),
        bytes("4b03d6fc340455b363f51020ad3ecca4f0850280cf436c70c727923f6db46c3e")
    );
}

#[test]
fn suggestions_follow_their_seeds() {
    let suggestions = match suggest_keys(&vec![known_seed()]) {
        Ok(suggestions) => suggestions,
        Err(_) => panic!("no suggestions"),
    };
    assert_eq!(suggestions.len(), 1);
    assert_eq!(
        suggestions[0].secret_hex,
        "4b03d6fc340455b363f51020ad3ecca4f0850280cf436c70c727923f6db46c3e"
    );
    let secret: [u8; 32] = bytes(&suggestions[0].secret_hex).try_into().unwrap();
    let outside = subxt_signer::eth::Keypair::from_secret_key(secret).unwrap();
    assert_eq!(suggestions[0].account, outside.public_key().to_account_id().to_string());
}

#[test]
fn suggested_key_decodes() {
    let suggestions = match suggest_keys(&vec![[5; 64]]) {
        Ok(suggestions) => suggestions,
        Err(_) => panic!("no suggestions"),
    };
    assert_eq!(
        keypair(&suggestions[0].secret_hex).secret_key(),
        Keypair::from_seed(&[5; 64]).unwrap().secret_key()
    );
}

#[test]
fn account_texts_are_checksummed() {
    let suggestions = match suggest_keys(&vec![[9; 64]]) {
        Ok(suggestions) => suggestions,
        Err(_) => panic!("no suggestions"),
    };
    let parsed: subxt::ext::subxt_core::utils::AccountId20 = suggestions[0].account.parse().unwrap();
    let suggested = Keypair::from_seed(&[9; 64]).unwrap();
    assert_eq!(parsed.0, suggested.account_id().0);
}

#[test]
fn signatures_verify() {
    let signer = keypair(ALITH);
    let signature = signer.sign(b"message");
    let outside = subxt_signer::eth::Keypair::from_secret_key(signer.secret_key()).unwrap();
    assert_eq!(signature, outside.sign(b"message").0);
    assert!(subxt_signer::eth::verify(
        &subxt_signer::eth::Signature(signature),
        b"message",
        &outside.public_key(),
    ));
    assert_ne!(signer.sign(b"massage"), signature);
    assert_ne!(keypair(BALTATHAR).sign(b"message"), signature);
}
