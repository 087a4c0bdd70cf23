//! Secret keys of the accounts.
use vstd::prelude::*;

use crate::hexadecimal::HexError;
use crate::hexadecimal::hex_decode;
use crate::hexadecimal::hex_encode;
use crate::substrate::AccountId20;

verus! {

/// Number of keys that are suggested in place of a missing one.
pub const SUGGESTED_KEYS: usize = 3;

/// The number that `bytes` stand for, the most significant byte first.
pub open spec fn big_endian(bytes: Seq<u8>) -> int
    decreases bytes.len(),
{
    if bytes.len() == 0 {
        0
    } else {
        256 * big_endian(bytes.drop_last()) + bytes.last()
    }
}

/// Order of the curve secp256k1.
pub open spec fn curve_order() -> int {
    0xFFFFFFFFFFFFFFFFFFFFFFFFFFFFFFFEBAAEDCE6AF48A03BBFD25E8CD0364141int
}

/// `secret` is a secret key of the curve: 32 bytes that stand for a number above
/// zero and below the order.
pub open spec fn valid_secret(secret: Seq<u8>) -> bool {
    secret.len() == 32 && 0 < big_endian(secret) < curve_order()
}

/// Secret key of the extended master key that BIP-32 derives from a seed, as
/// `subxt_signer::eth::Keypair::from_seed` computes it; none where that fails.
pub uninterp spec fn master_secret(seed: Seq<u8>) -> Option<Seq<u8>>;

/// Bytes of the account that belongs to a secret key, as
/// `subxt_signer::eth::PublicKey::to_account_id` computes them.
pub uninterp spec fn account_bytes(secret: Seq<u8>) -> Seq<u8>;

/// Checksummed text form of an account, as `subxt_core::utils::AccountId20` is
/// displayed.
pub uninterp spec fn account_text(account: Seq<u8>) -> Seq<char>;

/// Recoverable signature of a message, as `subxt_signer::eth::Keypair::sign`
/// computes it.
pub uninterp spec fn signature_bytes(secret: Seq<u8>, message: Seq<u8>) -> Seq<u8>;

/// Calls `subxt_signer::eth::Keypair::from_secret_key`. Trusted: it accepts
/// exactly the valid secret keys of the curve.
#[verifier::external_body]
fn accepts_secret(secret: &[u8; 32]) -> (accepted: bool)
    ensures
        accepted == valid_secret(secret@),
{
    subxt_signer::eth::Keypair::from_secret_key(*secret).is_ok()
}

/// Calls `subxt_signer::eth::Keypair::from_seed` and reads the secret key of the
/// result. Trusted: the result depends on the seed alone, it is a valid secret
/// key, and there is none for a seed that is not 16, 32 or 64 bytes long.
#[verifier::external_body]
fn secret_from_seed(seed: &[u8]) -> (result: Option<[u8; 32]>)
    ensures
        result is Some == master_secret(seed@) is Some,
        result matches Some(secret) ==> master_secret(seed@) == Some(secret@) && valid_secret(
            secret@,
        ),
        seed@.len() != 16 && seed@.len() != 32 && seed@.len() != 64 ==> result is None,
{
    subxt_signer::eth::Keypair::from_seed(seed).ok().map(|keypair| keypair.secret_key())
}

/// Calls `subxt_signer::eth::PublicKey::to_account_id` on the public key of a
/// secret key. Trusted: the account depends on the secret key alone.
#[verifier::external_body]
fn account_from_secret(secret: &[u8; 32]) -> (account: [u8; 20])
    requires
        valid_secret(secret@),
    ensures
        account@ == account_bytes(secret@),
{
    let keypair = subxt_signer::eth::Keypair::from_secret_key(*secret).expect("valid secret key");
    keypair.public_key().to_account_id().0
}

/// Calls `to_string` on a `subxt_core::utils::AccountId20`. Trusted: the text
/// depends on the account alone.
#[verifier::external_body]
fn text_of_account(account: &[u8; 20]) -> (text: String)
    ensures
        text@ == account_text(account@),
{
    subxt::ext::subxt_core::utils::AccountId20(*account).to_string()
}

/// Calls `subxt_signer::eth::Keypair::sign`. Trusted: the signature depends on
/// the secret key and the message alone.
#[verifier::external_body]
fn sign_with_secret(secret: &[u8; 32], message: &[u8]) -> (signature: [u8; 65])
    requires
        valid_secret(secret@),
    ensures
        signature@ == signature_bytes(secret@, message@),
{
    let keypair = subxt_signer::eth::Keypair::from_secret_key(*secret).expect("valid secret key");
    keypair.sign(message).0
}

/// Calls `rand::Rng::random` on the generator of the thread. Nothing is claimed
/// of the bytes.
#[verifier::external_body]
fn random_seed() -> (seed: [u8; 64]) {
    rand::Rng::random::<[u8; 64]>(&mut rand::rng())
}

/// Key pair of an account, held as its secret key.
#[derive(Clone, Copy)]
pub struct Keypair {
    secret: [u8; 32],
}

impl Keypair {
    #[verifier::type_invariant]
    spec fn well_formed(self) -> bool {
        valid_secret(self.secret@)
    }

    /// Bytes of the secret key.
    pub closed spec fn secret(self) -> Seq<u8> {
        self.secret@
    }

    /// Account that belongs to the key pair.
    pub open spec fn account(self) -> AccountId20 {
        AccountId20::of(account_bytes(self.secret()))
    }

    /// Key pair with the given secret key, where that is valid.
    pub fn from_secret_key(secret: [u8; 32]) -> (result: Option<Keypair>)
        ensures
            result is Some == valid_secret(secret@),
            result matches Some(keypair) ==> keypair.secret() == secret@,
    {
        if accepts_secret(&secret) {
            Some(Keypair { secret })
        } else {
            None
        }
    }

    /// Key pair that is derived from a seed.
    pub fn from_seed(seed: &[u8]) -> (result: Option<Keypair>)
        ensures
            result is Some == master_secret(seed@) is Some,
            result matches Some(keypair) ==> Some(keypair.secret()) == master_secret(seed@),
    {
        match secret_from_seed(seed) {
            Some(secret) => Some(Keypair { secret }),
            None => None,
        }
    }

    /// Bytes of the secret key.
    pub fn secret_key(&self) -> (secret: [u8; 32])
        ensures
            secret@ == self.secret(),
            valid_secret(secret@),
    {
        proof {
            use_type_invariant(self);
        }
        self.secret
    }

    /// Account that belongs to the key pair.
    pub fn account_id(&self) -> (account: AccountId20)
        ensures
            account == self.account(),
            account.0@ == account_bytes(self.secret()),
    {
        proof {
            use_type_invariant(self);
        }
        let account = AccountId20(account_from_secret(&self.secret));
        proof {
            crate::substrate::lemma_account_of_bytes(account);
        }
        account
    }

    /// Signature of a message.
    pub fn sign(&self, message: &[u8]) -> (signature: [u8; 65])
        ensures
            signature@ == signature_bytes(self.secret(), message@),
    {
        proof {
            use_type_invariant(self);
        }
        sign_with_secret(&self.secret, message)
    }
}

/// A key that could be used where the configuration has none.
pub struct SuggestedKey {
    /// Text form of the account.
    pub account: String,
    /// Secret key in hexadecimal.
    pub secret_hex: String,
}

impl SuggestedKey {
    /// The suggestion shows this secret key, a valid one, and its account.
    pub open spec fn shows(self, secret: Seq<u8>) -> bool {
        &&& valid_secret(secret)
        &&& self.account@ == account_text(account_bytes(secret))
        &&& self.secret_hex@ == crate::hexadecimal::hex_text(secret)
    }
}

/// Why there is no key pair.
pub enum KeyError {
    /// The key is missing from the configuration.
    Empty { suggestions: Vec<SuggestedKey> },
    /// The key is no hexadecimal text.
    Hex(HexError),
    /// The key is not 32 bytes long.
    Length { key: String },
    /// The key is no secret key of the curve.
    InvalidSecret,
    /// No key can be derived from a seed.
    Seed,
}

/// `suggestion` shows a key that is derived from some 64-byte seed.
pub open spec fn shows_some_seed(suggestion: SuggestedKey) -> bool {
    exists|seed: Seq<u8>|
        seed.len() == 64 && (#[trigger] master_secret(seed) matches Some(secret)
            && suggestion.shows(secret))
}

/// Every seed gives a key.
pub open spec fn all_derivable(seeds: Seq<[u8; 64]>) -> bool {
    forall|i: int| 0 <= i < seeds.len() ==> master_secret((#[trigger] seeds[i])@) is Some
}

/// The key pairs are those that the seeds give, one for each and in their order.
pub open spec fn are_of(keypairs: Seq<Keypair>, seeds: Seq<[u8; 64]>) -> bool {
    &&& keypairs.len() == seeds.len()
    &&& forall|i: int|
        0 <= i < seeds.len() ==> Some((#[trigger] keypairs[i]).secret()) == master_secret(
            seeds[i]@,
        )
}

/// A key pair is known by its secret key.
pub proof fn lemma_known_by_secret(a: Keypair, b: Keypair)
    requires
        a.secret() == b.secret(),
    ensures
        a == b,
{
    assert(a.secret =~= b.secret);
}

/// A number of random seeds.
pub(crate) fn random_seeds(count: usize) -> (seeds: Vec<[u8; 64]>)
    ensures
        seeds@.len() == count,
{
    let mut seeds: Vec<[u8; 64]> = Vec::new();
    while seeds.len() < count
        invariant
            seeds@.len() <= count,
        decreases count - seeds@.len(),
    {
        seeds.push(random_seed());
    }
    seeds
}

/// Key pairs that are derived from seeds, in their order.
pub fn keypairs_from_seeds(seeds: &Vec<[u8; 64]>) -> (result: Result<Vec<Keypair>, KeyError>)
    ensures
        result is Ok == all_derivable(seeds@),
        result matches Ok(keypairs) ==> are_of(keypairs@, seeds@),
        result matches Err(error) ==> error is Seed,
{
    let mut keypairs: Vec<Keypair> = Vec::new();
    while keypairs.len() < seeds.len()
        invariant
            keypairs@.len() <= seeds@.len(),
            forall|i: int|
                0 <= i < keypairs@.len() ==> Some((#[trigger] keypairs@[i]).secret())
                    == master_secret(seeds@[i]@),
        decreases seeds@.len() - keypairs@.len(),
    {
        let ghost done = keypairs@;
        match Keypair::from_seed(seeds[keypairs.len()].as_slice()) {
            Some(keypair) => {
                keypairs.push(keypair);
                assert(keypairs@.drop_last() == done);
            },
            None => {
                assert(master_secret(seeds@[keypairs@.len() as int]@) is None);
                return Err(KeyError::Seed);
            },
        }
    }
    assert forall|i: int| 0 <= i < seeds@.len() implies master_secret(
        (#[trigger] seeds@[i])@,
    ) is Some by {
        assert(Some(keypairs@[i].secret()) == master_secret(seeds@[i]@));
    }
    Ok(keypairs)
}

/// What is suggested for seeds, in their order.
pub fn suggest_keys(seeds: &Vec<[u8; 64]>) -> (result: Result<Vec<SuggestedKey>, KeyError>)
    ensures
        result is Ok == all_derivable(seeds@),
        result matches Ok(suggestions) ==> {
            &&& suggestions@.len() == seeds@.len()
            &&& forall|i: int|
                0 <= i < seeds@.len() ==> (#[trigger] suggestions@[i]).shows(
                    master_secret(seeds@[i]@)->0,
                )
        },
        result matches Err(error) ==> error is Seed,
{
    let keypairs = keypairs_from_seeds(seeds)?;
    let mut suggestions: Vec<SuggestedKey> = Vec::new();
    while suggestions.len() < keypairs.len()
        invariant
            suggestions@.len() <= keypairs@.len(),
            forall|i: int|
                0 <= i < suggestions@.len() ==> (#[trigger] suggestions@[i]).shows(
                    keypairs@[i].secret(),
                ),
        decreases keypairs@.len() - suggestions@.len(),
    {
        let keypair = keypairs[suggestions.len()];
        let secret = keypair.secret_key();
        let account = account_from_secret(&secret);
        suggestions.push(
            SuggestedKey {
                account: text_of_account(&account),
                secret_hex: hex_encode(secret.as_slice()),
            },
        );
    }
    Ok(suggestions)
}

/// `key` is the hexadecimal text of a valid secret key.
pub open spec fn is_key(key: Seq<char>) -> bool {
    let text = vstd::utf8::encode_utf8(key);
    &&& key.len() > 0
    &&& crate::hexadecimal::is_hex(text)
    &&& valid_secret(crate::hexadecimal::hex_bytes(text))
}

/// The secret key of which `key` is the hexadecimal text.
pub open spec fn secret_of_key(key: Seq<char>) -> Seq<u8> {
    crate::hexadecimal::hex_bytes(vstd::utf8::encode_utf8(key))
}

/// Decoding `key` fails with `error`.
pub open spec fn key_error(key: Seq<char>, error: KeyError) -> bool {
    let text = vstd::utf8::encode_utf8(key);
    match error {
        KeyError::Empty { suggestions } => {
            &&& key.len() == 0
            &&& suggestions@.len() == SUGGESTED_KEYS
            &&& forall|i: int|
                0 <= i < SUGGESTED_KEYS ==> shows_some_seed(#[trigger] suggestions@[i])
        },
        KeyError::Seed => {
            &&& key.len() == 0
            &&& exists|seeds: Seq<[u8; 64]>|
                seeds.len() == SUGGESTED_KEYS && !(#[trigger] all_derivable(seeds))
        },
        KeyError::Hex(error) => key.len() > 0 && crate::hexadecimal::hex_error(text, error),
        KeyError::Length { key: given } => {
            &&& given@ == key
            &&& key.len() > 0
            &&& crate::hexadecimal::is_hex(text)
            &&& crate::hexadecimal::hex_bytes(text).len() != 32
        },
        KeyError::InvalidSecret => {
            &&& key.len() > 0
            &&& crate::hexadecimal::is_hex(text)
            &&& crate::hexadecimal::hex_bytes(text).len() == 32
            &&& !valid_secret(crate::hexadecimal::hex_bytes(text))
        },
    }
}

/// Key pair of which `key_str` is the secret key in hexadecimal. Where the key is
/// missing, some fresh ones are suggested in its place, unless they cannot be
/// derived.
pub fn decode_secret_key(key_str: &str) -> (result: Result<Keypair, KeyError>)
    ensures
        result is Ok == is_key(key_str@),
        result matches Ok(keypair) ==> keypair.secret() == secret_of_key(key_str@),
        result matches Err(error) ==> key_error(key_str@, error),
{
    if key_str.is_empty() {
        let seeds = random_seeds(SUGGESTED_KEYS);
        return match suggest_keys(&seeds) {
            Ok(suggestions) => {
                proof {
                    assert forall|i: int| 0 <= i < SUGGESTED_KEYS implies shows_some_seed(
                        #[trigger] suggestions@[i],
                    ) by {
                        assert(master_secret(seeds@[i]@) is Some);
                    }
                }
                Err(KeyError::Empty { suggestions })
            },
            Err(error) => {
                assert(!all_derivable(seeds@));
                Err(error)
            },
        };
    }
    match hex_decode(key_str) {
        Err(error) => Err(KeyError::Hex(error)),
        Ok(decoded) => {
            if decoded.len() != 32 {
                return Err(KeyError::Length { key: key_str.to_owned() });
            }
            let secret = array_of(&decoded);
            match Keypair::from_secret_key(secret) {
                Some(keypair) => Ok(keypair),
                None => Err(KeyError::InvalidSecret),
            }
        },
    }
}

/// Thirty-two bytes as an array.
fn array_of(bytes: &Vec<u8>) -> (array: [u8; 32])
    requires
        bytes@.len() == 32,
    ensures
        array@ == bytes@,
{
    let mut array: [u8; 32] = [0;32];
    let mut i: usize = 0;
    while i < 32
        invariant
            bytes@.len() == 32,
            i <= 32,
            forall|j: int| 0 <= j < i ==> array@[j] == bytes@[j],
        decreases 32 - i,
    {
        array[i] = bytes[i];
        i = i + 1;
    }
    assert(array@ =~= bytes@);
    array
}

/// A suggested key can be used: decoding its hexadecimal text gives the key that
/// it shows.
pub proof fn lemma_suggested_key_decodes(suggestion: SuggestedKey, secret: Seq<u8>)
    requires
        suggestion.shows(secret),
    ensures
        is_key(suggestion.secret_hex@),
        secret_of_key(suggestion.secret_hex@) == secret,
{
    crate::hexadecimal::lemma_hex_round_trip(secret);
}

/// A key pair gives back the secret key that it was made from, and has the account
/// and makes the signatures that belong to it.
pub proof fn lemma_keypair_of_secret(
    secret: [u8; 32],
    keypair: Keypair,
    shown: [u8; 32],
    account: AccountId20,
    message: Seq<u8>,
    bytes: &[u8],
    signature: [u8; 65],
)
    requires
        call_ensures(Keypair::from_secret_key, (secret,), Some(keypair)),
        call_ensures(Keypair::secret_key, (&keypair,), shown),
        call_ensures(Keypair::account_id, (&keypair,), account),
        call_ensures(Keypair::sign, (&keypair, bytes), signature),
        bytes@ == message,
    ensures
        shown@ == secret@,
        account.0@ == account_bytes(secret@),
        account == keypair.account(),
        signature@ == signature_bytes(secret@, message),
{
}

/// A key pair from a seed has the secret key that belongs to the seed.
pub proof fn lemma_keypair_of_seed(seed: &[u8], keypair: Keypair, shown: [u8; 32])
    requires
        call_ensures(Keypair::from_seed, (seed,), Some(keypair)),
        call_ensures(Keypair::secret_key, (&keypair,), shown),
    ensures
        master_secret(seed@) == Some(shown@),
{
}

/// Each seed gives the key pair at its own place, and only where every seed gives a
/// key are there key pairs at all.
pub proof fn lemma_keypairs_of_seeds(
    seeds: Vec<[u8; 64]>,
    result: Result<Vec<Keypair>, KeyError>,
    i: int,
)
    requires
        call_ensures(keypairs_from_seeds, (&seeds,), result),
        0 <= i < seeds@.len(),
    ensures
        result matches Ok(keypairs) ==> keypairs@.len() == seeds@.len() && master_secret(
            seeds@[i]@,
        ) == Some(keypairs@[i].secret()),
        result is Err ==> exists|k: int|
            0 <= k < seeds@.len() && (#[trigger] master_secret(seeds@[k]@)) is None,
        master_secret(seeds@[i]@) is None ==> result is Err,
{
    if result is Err {
        let k = choose|k: int|
            0 <= k < seeds@.len() && master_secret((#[trigger] seeds@[k])@) is None;
        assert(master_secret(seeds@[k]@) is None);
    }
}

/// A suggestion shows the account and the hexadecimal secret key of the seed at its
/// place.
pub proof fn lemma_suggestions_of_seeds(
    seeds: Vec<[u8; 64]>,
    suggestions: Vec<SuggestedKey>,
    i: int,
    j: int,
)
    requires
        call_ensures(suggest_keys, (&seeds,), Ok(suggestions)),
        0 <= i < seeds@.len(),
        0 <= j < 32,
    ensures
        suggestions@.len() == seeds@.len(),
        master_secret(seeds@[i]@) matches Some(secret) && {
            &&& suggestions@[i].account@ == account_text(account_bytes(secret))
            &&& suggestions@[i].secret_hex@.len() == 64
            &&& digit_of(suggestions@[i].secret_hex@[2 * j]) == Some(secret[j] as int / 16)
            &&& digit_of(suggestions@[i].secret_hex@[2 * j + 1]) == Some(secret[j] as int % 16)
        },
{
    assert(suggestions@[i].shows(master_secret(seeds@[i]@)->0));
    assert(master_secret(seeds@[i]@) is Some);
}

/// The number that a hexadecimal digit of either case stands for.
pub open spec fn digit_of(c: char) -> Option<int> {
    if '0' <= c && c <= '9' {
        Some(c as int - '0' as int)
    } else if 'a' <= c && c <= 'f' {
        Some(10 + c as int - 'a' as int)
    } else if 'A' <= c && c <= 'F' {
        Some(10 + c as int - 'A' as int)
    } else {
        None
    }
}

/// A text of hexadecimal digits is hexadecimal text, and each pair of digits stands
/// for one byte.
proof fn lemma_digits(key: Seq<char>)
    requires
        forall|i: int| 0 <= i < key.len() ==> digit_of(#[trigger] key[i]) is Some,
    ensures
        crate::hexadecimal::is_hex(vstd::utf8::encode_utf8(key)) == (key.len() % 2 == 0),
        vstd::utf8::encode_utf8(key).len() == key.len(),
        crate::hexadecimal::hex_bytes(vstd::utf8::encode_utf8(key)).len() == key.len() / 2,
        forall|i: int|
            0 <= i < key.len() / 2 ==> #[trigger] crate::hexadecimal::hex_bytes(
                vstd::utf8::encode_utf8(key),
            )[i] == 16 * digit_of(key[2 * i])->0 + digit_of(key[2 * i + 1])->0,
{
    let text = vstd::utf8::encode_utf8(key);
    assert(vstd::utf8::is_ascii_chars(key));
    vstd::utf8::is_ascii_chars_encode_utf8(key);
    assert forall|i: int| 0 <= i < key.len() implies (#[trigger] crate::hexadecimal::digit_value(
        text[i],
    )) == Some(digit_of(key[i])->0 as u8) by {
        assert(digit_of(key[i]) is Some);
        assert(text[i] == key[i] as u8);
    }
    assert forall|i: int| 0 <= i < key.len() / 2 implies #[trigger] crate::hexadecimal::hex_bytes(
        text,
    )[i] == 16 * digit_of(key[2 * i])->0 + digit_of(key[2 * i + 1])->0 by {
        assert(digit_of(key[2 * i]) is Some);
        assert(digit_of(key[2 * i + 1]) is Some);
        assert(crate::hexadecimal::digit_value(text[2 * i]) is Some);
        assert(crate::hexadecimal::digit_value(text[2 * i + 1]) is Some);
    }
}

/// A key of 64 hexadecimal digits is decoded to the 32 bytes that its pairs of digits
/// stand for, where those are a secret key of the curve, and else refused as such.
pub proof fn lemma_key_is_read_digit_by_digit(
    key: &str,
    secret: Seq<u8>,
    result: Result<Keypair, KeyError>,
)
    requires
        call_ensures(decode_secret_key, (key,), result),
        key@.len() == 64,
        forall|i: int| 0 <= i < 64 ==> digit_of(#[trigger] key@[i]) is Some,
        secret.len() == 32,
        forall|i: int|
            0 <= i < 32 ==> #[trigger] secret[i] == 16 * digit_of(key@[2 * i])->0 + digit_of(
                key@[2 * i + 1],
            )->0,
    ensures
        match result {
            Ok(keypair) => valid_secret(secret) && keypair.secret() == secret,
            Err(error) => !valid_secret(secret) && error is InvalidSecret,
        },
{
    lemma_digits(key@);
    assert(crate::hexadecimal::hex_bytes(vstd::utf8::encode_utf8(key@)) =~= secret);
}

/// Hexadecimal text of another length is refused for its length, and the error shows
/// the text.
pub proof fn lemma_key_of_other_length(key: &str, result: Result<Keypair, KeyError>)
    requires
        call_ensures(decode_secret_key, (key,), result),
        0 < key@.len(),
        key@.len() != 64,
        forall|i: int| 0 <= i < key@.len() ==> digit_of(#[trigger] key@[i]) is Some,
    ensures
        key@.len() % 2 == 0 ==> (result matches Err(KeyError::Length { key: shown }) && shown@
            == key@),
        key@.len() % 2 == 1 ==> result matches Err(KeyError::Hex(HexError::OddLength)),
{
    lemma_digits(key@);
}

/// A key of even length with something else in it than digits is refused for the
/// first such character.
pub proof fn lemma_key_with_bad_digit(key: &str, result: Result<Keypair, KeyError>, i: int)
    requires
        call_ensures(decode_secret_key, (key,), result),
        vstd::utf8::is_ascii_chars(key@),
        key@.len() % 2 == 0,
        0 <= i < key@.len(),
        digit_of(key@[i]) is None,
        forall|j: int| 0 <= j < i ==> digit_of(#[trigger] key@[j]) is Some,
    ensures
        result matches Err(KeyError::Hex(HexError::InvalidHexCharacter { c, index })) && c
            == key@[i] && index == i,
{
    let text = vstd::utf8::encode_utf8(key@);
    vstd::utf8::is_ascii_chars_encode_utf8(key@);
    assert forall|j: int| 0 <= j < key@.len() implies (#[trigger] crate::hexadecimal::digit_value(
        text[j],
    )) is Some == digit_of(key@[j]) is Some by {
        assert(text[j] == key@[j] as u8);
    }
    assert(crate::hexadecimal::digit_value(text[i]) is None);
    if let Err(KeyError::Hex(HexError::InvalidHexCharacter { c, index })) = result {
        if index > i {
            assert(crate::hexadecimal::digit_value(text[i]) is Some);
        }
        if index < i {
            assert(digit_of(key@[index as int]) is Some);
        }
    }
}

/// Where a key is missing, nothing but three suggestions is given, each of which can
/// be used, unless some seeds give no keys.
pub proof fn lemma_missing_key(key: &str, result: Result<Keypair, KeyError>)
    requires
        call_ensures(decode_secret_key, (key,), result),
        key@.len() == 0,
    ensures
        match result {
            Err(KeyError::Empty { suggestions }) => suggestions@.len() == 3 && forall|i: int|
                0 <= i < 3 ==> is_key((#[trigger] suggestions@[i]).secret_hex@),
            Err(KeyError::Seed) => exists|seed: Seq<u8>|
                seed.len() == 64 && (#[trigger] master_secret(seed)) is None,
            _ => false,
        },
{
    match result {
        Err(KeyError::Empty { suggestions }) => {
            assert forall|i: int| 0 <= i < 3 implies is_key(
                (#[trigger] suggestions@[i]).secret_hex@,
            ) by {
                assert(shows_some_seed(suggestions@[i]));
                let seed = choose|seed: Seq<u8>|
                    seed.len() == 64 && (#[trigger] master_secret(seed) matches Some(secret)
                        && suggestions@[i].shows(secret));
                lemma_suggested_key_decodes(suggestions@[i], master_secret(seed)->0);
            }
        },
        Err(KeyError::Seed) => {
            let seeds = choose|seeds: Seq<[u8; 64]>|
                seeds.len() == SUGGESTED_KEYS && !(#[trigger] all_derivable(seeds));
            let k = choose|k: int|
                0 <= k < seeds.len() && master_secret((#[trigger] seeds[k])@) is None;
            assert(master_secret(seeds[k]@) is None);
        },
        _ => {},
    }
}

/// There is a key pair exactly for the secret keys of the curve, and exactly for the
/// seeds that give a key; suggestions fail only for seeds that give none.
pub proof fn lemma_when_there_is_a_keypair(
    secret: [u8; 32],
    from_secret: Option<Keypair>,
    seed: &[u8],
    from_seed: Option<Keypair>,
    seeds: Vec<[u8; 64]>,
    suggestions: Result<Vec<SuggestedKey>, KeyError>,
)
    requires
        call_ensures(Keypair::from_secret_key, (secret,), from_secret),
        call_ensures(Keypair::from_seed, (seed,), from_seed),
        call_ensures(suggest_keys, (&seeds,), suggestions),
    ensures
        from_secret is Some <==> 0 < big_endian(secret@) < curve_order(),
        from_seed is Some <==> master_secret(seed@) is Some,
        suggestions is Ok <==> forall|i: int|
            0 <= i < seeds@.len() ==> (#[trigger] master_secret(seeds@[i]@)) is Some,
{
    if suggestions is Ok {
        assert forall|i: int| 0 <= i < seeds@.len() implies (#[trigger] master_secret(
            seeds@[i]@,
        )) is Some by {
            assert(master_secret((seeds@[i])@) is Some);
        }
    } else {
        let k = choose|k: int|
            0 <= k < seeds@.len() && master_secret((#[trigger] seeds@[k])@) is None;
        assert(master_secret(seeds@[k]@) is None);
    }
}

} // verus!
