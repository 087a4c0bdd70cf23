//! The message that a marketplace order signs, in the SCALE encoding.
use vstd::prelude::*;

use crate::substrate::AccountId20;
use crate::substrate::U256;

verus! {

/// The `width` bytes of `value`, the least significant first.
pub open spec fn little_endian(value: int, width: nat) -> Seq<u8>
    decreases width,
{
    if width == 0 {
        Seq::empty()
    } else {
        seq![(value % 256) as u8] + little_endian(value / 256, (width - 1) as nat)
    }
}

/// Compact form of a length: the two lowest bits tell how many bytes follow.
pub open spec fn compact(length: int) -> Seq<u8> {
    if length < 0x40 {
        little_endian(4 * length, 1)
    } else if length < 0x4000 {
        little_endian(4 * length + 1, 2)
    } else if length < 0x4000_0000 {
        little_endian(4 * length + 2, 4)
    } else {
        seq![3u8] + little_endian(length, 4)
    }
}

/// Encoding of a 256-bit number.
pub open spec fn encoded_words(value: U256) -> Seq<u8> {
    little_endian(value.0@[0] as int, 8) + little_endian(value.0@[1] as int, 8) + little_endian(
        value.0@[2] as int,
        8,
    ) + little_endian(value.0@[3] as int, 8)
}

/// Encoding of an account that may be missing.
pub open spec fn encoded_account(account: Option<AccountId20>) -> Seq<u8> {
    match account {
        None => seq![0u8],
        Some(account) => seq![1u8] + account.0@,
    }
}

/// Encoding of a text: the number of its bytes, then the bytes.
pub open spec fn encoded_text(text: Seq<char>) -> Seq<u8> {
    let bytes = vstd::utf8::encode_utf8(text);
    compact(bytes.len() as int) + bytes
}

/// Calls `parity_scale_codec::Encode::encode` on a `u64`. Trusted: it writes the
/// eight bytes of the number, the least significant first.
#[verifier::external_body]
fn encode_u64(value: u64) -> (bytes: Vec<u8>)
    ensures
        bytes@ == little_endian(value as int, 8),
{
    parity_scale_codec::Encode::encode(&value)
}

/// Calls `parity_scale_codec::Encode::encode` on a `u128`. Trusted: it writes the
/// sixteen bytes of the number, the least significant first.
#[verifier::external_body]
fn encode_u128(value: u128) -> (bytes: Vec<u8>)
    ensures
        bytes@ == little_endian(value as int, 16),
{
    parity_scale_codec::Encode::encode(&value)
}

/// Calls `parity_scale_codec::Encode::encode` on four `u64` words. Trusted: an
/// array is written as its elements, one after the other.
#[verifier::external_body]
fn encode_words(value: &U256) -> (bytes: Vec<u8>)
    ensures
        bytes@ == encoded_words(*value),
{
    parity_scale_codec::Encode::encode(&value.0)
}

/// Calls `parity_scale_codec::Encode::encode` on an optional array of twenty
/// bytes. Trusted: nothing is written as a zero, something as a one and the bytes.
#[verifier::external_body]
fn encode_account(account: &Option<AccountId20>) -> (bytes: Vec<u8>)
    ensures
        bytes@ == encoded_account(*account),
{
    parity_scale_codec::Encode::encode(&account.map(|account| account.0))
}

/// Calls `parity_scale_codec::Encode::encode` on a text. Trusted: it writes the
/// number of bytes in compact form, then the bytes. It panics on a text of more
/// bytes than a `u32` counts.
#[verifier::external_body]
fn encode_text(text: &str) -> (bytes: Vec<u8>)
    requires
        vstd::utf8::encode_utf8(text@).len() <= u32::MAX,
    ensures
        bytes@ == encoded_text(text@),
{
    parity_scale_codec::Encode::encode(text)
}

/// What the fee signer of the marketplace signs of an order.
pub struct OrderMessage {
    pub collection: U256,
    pub item: u128,
    pub price: u128,
    pub expires_at: u64,
    pub fee: u128,
    pub escrow_agent: Option<AccountId20>,
    pub nonce: String,
}

/// What an [`OrderMessage`] says.
pub struct OrderTerms {
    pub collection: U256,
    pub item: u128,
    pub price: u128,
    pub expires_at: u64,
    pub fee: u128,
    pub escrow_agent: Option<AccountId20>,
    pub nonce: Seq<char>,
}

impl View for OrderMessage {
    type V = OrderTerms;

    open spec fn view(&self) -> OrderTerms {
        OrderTerms {
            collection: self.collection,
            item: self.item,
            price: self.price,
            expires_at: self.expires_at,
            fee: self.fee,
            escrow_agent: self.escrow_agent,
            nonce: self.nonce@,
        }
    }
}

impl OrderTerms {
    /// The encoding: the fields, one after the other.
    pub open spec fn encoded(self) -> Seq<u8> {
        encoded_words(self.collection) + little_endian(self.item as int, 16) + little_endian(
            self.price as int,
            16,
        ) + little_endian(self.expires_at as int, 8) + little_endian(self.fee as int, 16)
            + encoded_account(self.escrow_agent) + encoded_text(self.nonce)
    }
}

impl OrderMessage {
    /// SCALE encoding of the message.
    pub fn encode(&self) -> (bytes: Vec<u8>)
        requires
            vstd::utf8::encode_utf8(self.nonce@).len() <= u32::MAX,
        ensures
            bytes@ == self@.encoded(),
    {
        let mut bytes: Vec<u8> = encode_words(&self.collection);
        bytes.append(&mut encode_u128(self.item));
        bytes.append(&mut encode_u128(self.price));
        bytes.append(&mut encode_u64(self.expires_at));
        bytes.append(&mut encode_u128(self.fee));
        bytes.append(&mut encode_account(&self.escrow_agent));
        bytes.append(&mut encode_text(self.nonce.as_str()));
        bytes
    }
}

/// The encoding of a number has the width asked for.
pub proof fn lemma_little_endian_len(value: int, width: nat)
    ensures
        little_endian(value, width).len() == width,
    decreases width,
{
    if width > 0 {
        lemma_little_endian_len(value / 256, (width - 1) as nat);
    }
}

/// How many numbers `width` bytes can tell apart.
pub open spec fn byte_range(width: nat) -> int
    decreases width,
{
    if width == 0 {
        1
    } else {
        256 * byte_range((width - 1) as nat)
    }
}

/// Numbers that fit into `width` bytes are told apart by their encodings.
pub proof fn lemma_little_endian_injective(a: int, b: int, width: nat)
    requires
        0 <= a < byte_range(width),
        0 <= b < byte_range(width),
        little_endian(a, width) == little_endian(b, width),
    ensures
        a == b,
    decreases width,
{
    if width > 0 {
        let rest = (width - 1) as nat;
        let x = little_endian(a, width);
        let y = little_endian(b, width);
        assert(x[0] == (a % 256) as u8 && y[0] == (b % 256) as u8);
        assert(x.drop_first() =~= little_endian(a / 256, rest));
        assert(y.drop_first() =~= little_endian(b / 256, rest));
        lemma_little_endian_injective(a / 256, b / 256, rest);
    }
}

/// Equal concatenations whose first parts are equally long have equal parts.
proof fn lemma_split_equal(a: Seq<u8>, x: Seq<u8>, b: Seq<u8>, y: Seq<u8>)
    requires
        a + x == b + y,
        a.len() == b.len(),
    ensures
        a == b,
        x == y,
{
    assert(a =~= (a + x).take(a.len() as int));
    assert(b =~= (b + y).take(b.len() as int));
    assert(x =~= (a + x).skip(a.len() as int));
    assert(y =~= (b + y).skip(b.len() as int));
}

/// Numbers of 64 and of 128 bits are told apart by their encodings, and the
/// encodings have fixed lengths.
proof fn lemma_integers()
    ensures
        forall|a: u64| #[trigger] little_endian(a as int, 8).len() == 8,
        forall|a: u128| #[trigger] little_endian(a as int, 16).len() == 16,
        forall|a: u64, b: u64|
            #[trigger] little_endian(a as int, 8) == #[trigger] little_endian(b as int, 8) ==> a
                == b,
        forall|a: u128, b: u128|
            #[trigger] little_endian(a as int, 16) == #[trigger] little_endian(b as int, 16) ==> a
                == b,
{
    reveal_with_fuel(byte_range, 17);
    assert forall|a: u64| #[trigger] little_endian(a as int, 8).len() == 8 by {
        lemma_little_endian_len(a as int, 8);
    }
    assert forall|a: u128| #[trigger] little_endian(a as int, 16).len() == 16 by {
        lemma_little_endian_len(a as int, 16);
    }
    assert forall|a: u64, b: u64|
        #[trigger] little_endian(a as int, 8) == #[trigger] little_endian(b as int, 8) implies a
        == b by {
        lemma_little_endian_injective(a as int, b as int, 8);
    }
    assert forall|a: u128, b: u128|
        #[trigger] little_endian(a as int, 16) == #[trigger] little_endian(b as int, 16) implies a
        == b by {
        lemma_little_endian_injective(a as int, b as int, 16);
    }
}

/// 256-bit numbers are told apart by their encodings.
proof fn lemma_words_injective(a: U256, b: U256)
    ensures
        encoded_words(a).len() == 32,
        encoded_words(a) == encoded_words(b) ==> a == b,
{
    lemma_integers();
    if encoded_words(a) == encoded_words(b) {
        let (a0, a1, a2, a3) = (
            little_endian(a.0@[0] as int, 8),
            little_endian(a.0@[1] as int, 8),
            little_endian(a.0@[2] as int, 8),
            little_endian(a.0@[3] as int, 8),
        );
        let (b0, b1, b2, b3) = (
            little_endian(b.0@[0] as int, 8),
            little_endian(b.0@[1] as int, 8),
            little_endian(b.0@[2] as int, 8),
            little_endian(b.0@[3] as int, 8),
        );
        lemma_split_equal(a0 + a1 + a2, a3, b0 + b1 + b2, b3);
        lemma_split_equal(a0 + a1, a2, b0 + b1, b2);
        lemma_split_equal(a0, a1, b0, b1);
        assert(a.0 =~= b.0);
    }
}

/// Texts are told apart by their encodings.
proof fn lemma_text_injective(a: Seq<char>, b: Seq<char>)
    requires
        encoded_text(a) == encoded_text(b),
    ensures
        a == b,
{
    let x = vstd::utf8::encode_utf8(a);
    let y = vstd::utf8::encode_utf8(b);
    lemma_compact_len(x.len() as int);
    lemma_compact_len(y.len() as int);
    assert(encoded_text(a).len() == compact(x.len() as int).len() + x.len());
    assert(encoded_text(b).len() == compact(y.len() as int).len() + y.len());
    assert(x.len() == y.len());
    lemma_split_equal(compact(x.len() as int), x, compact(y.len() as int), y);
    vstd::utf8::encode_utf8_decode_utf8(a);
    vstd::utf8::encode_utf8_decode_utf8(b);
}

/// Length of the compact form.
proof fn lemma_compact_len(length: int)
    ensures
        compact(length).len() == (if length < 0x40 {
            1int
        } else if length < 0x4000 {
            2
        } else if length < 0x4000_0000 {
            4
        } else {
            5
        }),
{
    lemma_little_endian_len(4 * length, 1);
    lemma_little_endian_len(4 * length + 1, 2);
    lemma_little_endian_len(4 * length + 2, 4);
    lemma_little_endian_len(length, 4);
}

/// A signature stands for one order: messages with the same encoding say the same.
pub proof fn lemma_encoding_injective(a: OrderTerms, b: OrderTerms)
    requires
        a.encoded() == b.encoded(),
    ensures
        a == b,
{
    lemma_integers();
    lemma_words_injective(a.collection, b.collection);
    lemma_words_injective(b.collection, a.collection);
    let (aw, ai, ap, ae, af) = (
        encoded_words(a.collection),
        little_endian(a.item as int, 16),
        little_endian(a.price as int, 16),
        little_endian(a.expires_at as int, 8),
        little_endian(a.fee as int, 16),
    );
    let (bw, bi, bp, be, bf) = (
        encoded_words(b.collection),
        little_endian(b.item as int, 16),
        little_endian(b.price as int, 16),
        little_endian(b.expires_at as int, 8),
        little_endian(b.fee as int, 16),
    );
    let (ag, at) = (encoded_account(a.escrow_agent), encoded_text(a.nonce));
    let (bg, bt) = (encoded_account(b.escrow_agent), encoded_text(b.nonce));
    assert(a.encoded() =~= (aw + ai + ap + ae + af) + (ag + at));
    assert(b.encoded() =~= (bw + bi + bp + be + bf) + (bg + bt));
    lemma_split_equal(aw + ai + ap + ae + af, ag + at, bw + bi + bp + be + bf, bg + bt);
    lemma_split_equal(aw + ai + ap + ae, af, bw + bi + bp + be, bf);
    lemma_split_equal(aw + ai + ap, ae, bw + bi + bp, be);
    lemma_split_equal(aw + ai, ap, bw + bi, bp);
    lemma_split_equal(aw, ai, bw, bi);
    assert((ag + at)[0] == ag[0] && (bg + bt)[0] == bg[0]);
    assert(ag.len() == bg.len());
    lemma_split_equal(ag, at, bg, bt);
    match (a.escrow_agent, b.escrow_agent) {
        (Some(x), Some(y)) => {
            assert(ag.drop_first() =~= x.0@);
            assert(bg.drop_first() =~= y.0@);
            assert(x.0 =~= y.0);
        },
        _ => {},
    }
    lemma_text_injective(a.nonce, b.nonce);
}

/// Byte `k` of a number is its digit to the base 256.
pub proof fn lemma_little_endian_digits(value: int, width: nat, k: int)
    requires
        0 <= value,
        0 <= k < width,
    ensures
        little_endian(value, width).len() == width,
        little_endian(value, width)[k] == (value / byte_range(k as nat)) % 256,
    decreases width,
{
    lemma_little_endian_len(value, width);
    let rest = little_endian(value / 256, (width - 1) as nat);
    if k > 0 {
        lemma_little_endian_digits(value / 256, (width - 1) as nat, k - 1);
        assert(little_endian(value, width)[k] == rest[k - 1]);
        let range = byte_range((k - 1) as nat);
        lemma_byte_range_positive((k - 1) as nat);
        vstd::arithmetic::div_mod::lemma_div_denominator(value, 256, range);
    }
}

/// There is at least one number of any width.
proof fn lemma_byte_range_positive(width: nat)
    ensures
        byte_range(width) > 0,
    decreases width,
{
    if width > 0 {
        lemma_byte_range_positive((width - 1) as nat);
    }
}

/// The message is laid out in fixed places: 32 bytes of the collection, 16 of the
/// item, 16 of the price, 8 of the expiry and 16 of the fee; the agent and the nonce
/// come after them.
pub proof fn lemma_message_layout(message: OrderMessage, bytes: Vec<u8>)
    requires
        call_ensures(OrderMessage::encode, (&message,), bytes),
        vstd::utf8::encode_utf8(message.nonce@).len() <= u32::MAX,
    ensures
        bytes@.len() >= 88,
        forall|w: int|
            0 <= w < 4 ==> #[trigger] bytes@.subrange(8 * w, 8 * w + 8) == little_endian(
                message.collection.0@[w] as int,
                8,
            ),
        bytes@.subrange(32, 48) == little_endian(message.item as int, 16),
        bytes@.subrange(48, 64) == little_endian(message.price as int, 16),
        bytes@.subrange(64, 72) == little_endian(message.expires_at as int, 8),
        bytes@.subrange(72, 88) == little_endian(message.fee as int, 16),
        bytes@.skip(88) == encoded_account(message.escrow_agent) + encoded_text(message.nonce@),
        bytes@ == message@.encoded(),
{
    lemma_integers();
    let (w0, w1, w2, w3) = (
        little_endian(message.collection.0@[0] as int, 8),
        little_endian(message.collection.0@[1] as int, 8),
        little_endian(message.collection.0@[2] as int, 8),
        little_endian(message.collection.0@[3] as int, 8),
    );
    assert(bytes@.subrange(0, 8) =~= w0);
    assert(bytes@.subrange(8, 16) =~= w1);
    assert(bytes@.subrange(16, 24) =~= w2);
    assert(bytes@.subrange(24, 32) =~= w3);
    assert forall|w: int| 0 <= w < 4 implies #[trigger] bytes@.subrange(8 * w, 8 * w + 8)
        == little_endian(message.collection.0@[w] as int, 8) by {
        assert(w == 0 || w == 1 || w == 2 || w == 3);
    }
    assert(bytes@.subrange(32, 48) =~= little_endian(message.item as int, 16));
    assert(bytes@.subrange(48, 64) =~= little_endian(message.price as int, 16));
    assert(bytes@.subrange(64, 72) =~= little_endian(message.expires_at as int, 8));
    assert(bytes@.subrange(72, 88) =~= little_endian(message.fee as int, 16));
    assert(bytes@.skip(88) =~= encoded_account(message.escrow_agent) + encoded_text(
        message.nonce@,
    ));
}

/// The terms are laid out as the message that says them.
pub proof fn lemma_terms_layout(terms: OrderTerms)
    ensures
        terms.encoded().len() >= 88,
        terms.encoded().take(32) == little_endian(terms.collection.0@[0] as int, 8)
            + little_endian(terms.collection.0@[1] as int, 8) + little_endian(
            terms.collection.0@[2] as int,
            8,
        ) + little_endian(terms.collection.0@[3] as int, 8),
        terms.encoded().subrange(32, 48) == little_endian(terms.item as int, 16),
        terms.encoded().subrange(48, 64) == little_endian(terms.price as int, 16),
        terms.encoded().subrange(64, 72) == little_endian(terms.expires_at as int, 8),
        terms.encoded().subrange(72, 88) == little_endian(terms.fee as int, 16),
        terms.encoded().skip(88) == encoded_account(terms.escrow_agent) + encoded_text(
            terms.nonce,
        ),
{
    lemma_integers();
    lemma_words_injective(terms.collection, terms.collection);
    assert(terms.encoded().take(32) =~= encoded_words(terms.collection));
    assert(terms.encoded().subrange(32, 48) =~= little_endian(terms.item as int, 16));
    assert(terms.encoded().subrange(48, 64) =~= little_endian(terms.price as int, 16));
    assert(terms.encoded().subrange(64, 72) =~= little_endian(terms.expires_at as int, 8));
    assert(terms.encoded().subrange(72, 88) =~= little_endian(terms.fee as int, 16));
    assert(terms.encoded().skip(88) =~= encoded_account(terms.escrow_agent) + encoded_text(
        terms.nonce,
    ));
}

/// A missing agent is one zero byte; a short text is its length times four, and then
/// its bytes.
pub proof fn lemma_agent_and_text(account: AccountId20, text: Seq<char>)
    ensures
        encoded_account(None) == seq![0u8],
        encoded_account(Some(account)).len() == 21,
        encoded_account(Some(account))[0] == 1,
        encoded_account(Some(account)).drop_first() == account.0@,
        ({
            let bytes = vstd::utf8::encode_utf8(text);
            bytes.len() < 64 ==> encoded_text(text).len() == bytes.len() + 1
                && encoded_text(text)[0] == 4 * bytes.len() && encoded_text(text).drop_first()
                == bytes
        }),
{
    assert(encoded_account(Some(account)).drop_first() =~= account.0@);
    let bytes = vstd::utf8::encode_utf8(text);
    if bytes.len() < 64 {
        reveal_with_fuel(little_endian, 2);
        lemma_compact_len(bytes.len() as int);
        assert(encoded_text(text).drop_first() =~= bytes);
    }
}

} // verus!
