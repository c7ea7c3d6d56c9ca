//! Signed transfers between addresses, their signing message, their
//! verification, and the text that `Debug` writes for them.

use vstd::prelude::*;
use crate::base58::bs58_decoding;
use crate::crypto::{bs58_decode, ed25519_accepts, ed25519_verify};
use crate::text::{
    debug_text, decimal, le_bytes, lemma_le_round_trip, lemma_le_u64_injective, pow256,
    push_bytes, push_debug_text, push_decimal, push_le_bytes,
};
use vstd::utf8::encode_utf8;
use crate::wallet::Wallet;

verus! {

/// A transfer of `amount` from `from` to `to`, paying `fee`, signed by the
/// holder of `from`.
#[derive(Debug, Clone)]
pub struct Transaction {
    pub from: String,
    pub to: String,
    pub amount: u64,
    pub fee: u64,
    pub signature: Option<Vec<u8>>,
}

/// The bytes a transfer's signature covers, each field in a form that
/// cannot run into the next: the length of the sender's UTF-8 bytes (8
/// bytes, little-endian) and those bytes, the same for the recipient, then
/// the amount and the fee (8 bytes each, little-endian).
pub open spec fn signing_message(from: Seq<char>, to: Seq<char>, amount: u64, fee: u64) -> Seq<u8> {
    let f = encode_utf8(from);
    let t = encode_utf8(to);
    le_bytes(f.len(), 8) + f + le_bytes(t.len(), 8) + t + le_bytes(amount as nat, 8) + le_bytes(
        fee as nat,
        8,
    )
}

/// The bytes a transaction's signature covers.
pub open spec fn signing_bytes(tx: Transaction) -> Seq<u8> {
    signing_message(tx.from@, tx.to@, tx.amount, tx.fee)
}

/// Two transfers with the same signing message have the same sender,
/// recipient, amount and fee: a signature binds all four.
pub proof fn lemma_signing_message_injective(
    from1: Seq<char>,
    to1: Seq<char>,
    amount1: u64,
    fee1: u64,
    from2: Seq<char>,
    to2: Seq<char>,
    amount2: u64,
    fee2: u64,
)
    requires
        signing_message(from1, to1, amount1, fee1) == signing_message(from2, to2, amount2, fee2),
        encode_utf8(from1).len() <= u64::MAX,
        encode_utf8(to1).len() <= u64::MAX,
        encode_utf8(from2).len() <= u64::MAX,
        encode_utf8(to2).len() <= u64::MAX,
    ensures
        from1 == from2,
        to1 == to2,
        amount1 == amount2,
        fee1 == fee2,
{
    let m = signing_message(from1, to1, amount1, fee1);
    let f1 = encode_utf8(from1);
    let f2 = encode_utf8(from2);
    let t1 = encode_utf8(to1);
    let t2 = encode_utf8(to2);
    reveal_with_fuel(pow256, 9);
    assert(pow256(8) == 0x1_0000_0000_0000_0000);
    lemma_le_round_trip(f1.len(), 8);
    lemma_le_round_trip(f2.len(), 8);
    lemma_le_round_trip(t1.len(), 8);
    lemma_le_round_trip(t2.len(), 8);
    lemma_le_round_trip(amount1 as nat, 8);
    lemma_le_round_trip(amount2 as nat, 8);
    lemma_le_round_trip(fee1 as nat, 8);
    lemma_le_round_trip(fee2 as nat, 8);
    let m2 = signing_message(from2, to2, amount2, fee2);
    assert(m.subrange(0, 8) =~= le_bytes(f1.len(), 8));
    assert(m2.subrange(0, 8) =~= le_bytes(f2.len(), 8));
    assert(f1.len() == f2.len());
    let a: int = 8 + f1.len() as int;
    assert(m.subrange(8, a) =~= f1);
    assert(m2.subrange(8, a) =~= f2);
    assert(m.subrange(a, a + 8) =~= le_bytes(t1.len(), 8));
    assert(m2.subrange(a, a + 8) =~= le_bytes(t2.len(), 8));
    assert(t1.len() == t2.len());
    let b: int = a + 8 + t1.len() as int;
    assert(m.subrange(a + 8, b) =~= t1);
    assert(m2.subrange(a + 8, b) =~= t2);
    assert(m.subrange(b, b + 8) =~= le_bytes(amount1 as nat, 8));
    assert(m2.subrange(b, b + 8) =~= le_bytes(amount2 as nat, 8));
    assert(m.subrange(b + 8, b + 16) =~= le_bytes(fee1 as nat, 8));
    assert(m2.subrange(b + 8, b + 16) =~= le_bytes(fee2 as nat, 8));
    lemma_le_u64_injective(amount1, amount2);
    lemma_le_u64_injective(fee1, fee2);
    vstd::utf8::encode_utf8_decode_utf8(from1);
    vstd::utf8::encode_utf8_decode_utf8(from2);
    vstd::utf8::encode_utf8_decode_utf8(to1);
    vstd::utf8::encode_utf8_decode_utf8(to2);
    assert(vstd::utf8::decode_utf8(f1) == from1);
    assert(vstd::utf8::decode_utf8(f2) == from2);
    assert(vstd::utf8::decode_utf8(t1) == to1);
    assert(vstd::utf8::decode_utf8(t2) == to2);
}

/// Whether a transaction carries a valid signature: it has a 64-byte
/// signature, its sender decodes from Base58 to a 32-byte Ed25519 public key,
/// and that key accepts the signature over the signing bytes.
pub open spec fn is_authorized(tx: Transaction) -> bool {
    match tx.signature {
        None => false,
        Some(sig) => match bs58_decoding(tx.from@) {
            None => false,
            Some(pk) => pk.len() == 32 && sig@.len() == 64 && ed25519_accepts(
                pk,
                signing_bytes(tx),
                sig@,
            ),
        },
    }
}

/// The items of a byte list as `Debug` writes them, separated by `", "`.
pub open spec fn byte_items(b: Seq<u8>) -> Seq<char>
    decreases b.len(),
{
    if b.len() == 0 {
        Seq::empty()
    } else if b.len() == 1 {
        decimal(b[0] as nat)
    } else {
        byte_items(b.drop_last()) + ", "@ + decimal(b.last() as nat)
    }
}

/// What `Debug` writes for an optional byte list.
pub open spec fn signature_debug(sig: Option<Vec<u8>>) -> Seq<char> {
    match sig {
        None => "None"@,
        Some(v) => "Some("@ + "["@ + byte_items(v@) + "]"@ + ")"@,
    }
}

/// What `Debug` writes for a transaction.
pub open spec fn transaction_debug(tx: Transaction) -> Seq<char> {
    "Transaction { from: "@ + debug_text(tx.from@) + ", to: "@ + debug_text(tx.to@)
        + ", amount: "@ + decimal(tx.amount as nat) + ", fee: "@ + decimal(tx.fee as nat)
        + ", signature: "@ + signature_debug(tx.signature) + " }"@
}

/// The transactions' `Debug` renderings separated by `", "`.
pub open spec fn transaction_items(txs: Seq<Transaction>) -> Seq<char>
    decreases txs.len(),
{
    if txs.len() == 0 {
        Seq::empty()
    } else if txs.len() == 1 {
        transaction_debug(txs[0])
    } else {
        transaction_items(txs.drop_last()) + ", "@ + transaction_debug(txs.last())
    }
}

/// What `Debug` writes for a list of transactions.
pub open spec fn transaction_list_debug(txs: Seq<Transaction>) -> Seq<char> {
    "["@ + transaction_items(txs) + "]"@
}

/// The bytes a transfer's signature covers (see `signing_message`).
pub fn signing_message_bytes(from: &str, to: &str, amount: u64, fee: u64) -> (res: Vec<u8>)
    ensures
        res@ == signing_message(from@, to@, amount, fee),
{
    let f = from.as_bytes();
    let t = to.as_bytes();
    let mut out: Vec<u8> = Vec::new();
    push_le_bytes(&mut out, f.len() as u64);
    push_bytes(&mut out, f);
    push_le_bytes(&mut out, t.len() as u64);
    push_bytes(&mut out, t);
    push_le_bytes(&mut out, amount);
    push_le_bytes(&mut out, fee);
    assert(out@ =~= signing_message(from@, to@, amount, fee));
    out
}

fn push_byte_list(s: &mut String, b: &[u8])
    ensures
        final(s)@ == old(s)@ + "["@ + byte_items(b@) + "]"@,
{
    s.append("[");
    let ghost start = s@;
    let n = b.len();
    let mut i: usize = 0;
    while i < n
        invariant
            n == b@.len(),
            0 <= i <= n,
            s@ == start + byte_items(b@.take(i as int)),
        decreases n - i,
    {
        if i > 0 {
            s.append(", ");
        }
        push_decimal(s, b[i] as u64);
        proof {
            let t = b@.take(i + 1);
            assert(t.drop_last() =~= b@.take(i as int));
            assert(t.last() == b@[i as int]);
            if i == 0 {
                assert(byte_items(b@.take(0)) =~= Seq::<char>::empty());
            }
            assert(s@ =~= start + byte_items(t));
        }
        i = i + 1;
    }
    assert(b@.take(n as int) =~= b@);
    s.append("]");
    assert(s@ =~= old(s)@ + "["@ + byte_items(b@) + "]"@);
}

/// Appends the `Debug` rendering of a transaction to `s`.
pub fn push_transaction_debug(s: &mut String, tx: &Transaction)
    ensures
        final(s)@ == old(s)@ + transaction_debug(*tx),
{
    s.append("Transaction { from: ");
    push_debug_text(s, tx.from.as_str());
    s.append(", to: ");
    push_debug_text(s, tx.to.as_str());
    s.append(", amount: ");
    push_decimal(s, tx.amount);
    s.append(", fee: ");
    push_decimal(s, tx.fee);
    s.append(", signature: ");
    let ghost mid = s@;
    match &tx.signature {
        None => {
            s.append("None");
        },
        Some(v) => {
            s.append("Some(");
            push_byte_list(s, v.as_slice());
            s.append(")");
            assert(s@ =~= mid + signature_debug(tx.signature));
        },
    }
    s.append(" }");
    assert(s@ =~= old(s)@ + transaction_debug(*tx));
}

/// Appends the `Debug` rendering of a list of transactions to `s`.
pub fn push_transaction_list_debug(s: &mut String, txs: &[Transaction])
    ensures
        final(s)@ == old(s)@ + transaction_list_debug(txs@),
{
    s.append("[");
    let ghost start = s@;
    let n = txs.len();
    let mut i: usize = 0;
    while i < n
        invariant
            n == txs@.len(),
            0 <= i <= n,
            s@ == start + transaction_items(txs@.take(i as int)),
        decreases n - i,
    {
        if i > 0 {
            s.append(", ");
        }
        push_transaction_debug(s, &txs[i]);
        proof {
            let t = txs@.take(i + 1);
            assert(t.drop_last() =~= txs@.take(i as int));
            assert(t.last() == txs@[i as int]);
            if i == 0 {
                assert(transaction_items(txs@.take(0)) =~= Seq::<char>::empty());
            }
            assert(s@ =~= start + transaction_items(t));
        }
        i = i + 1;
    }
    assert(txs@.take(n as int) =~= txs@);
    s.append("]");
    assert(s@ =~= old(s)@ + transaction_list_debug(txs@));
}

impl Transaction {
    /// A transfer from `wallet`'s address to `to`, signed by `wallet`. It
    /// always passes `verify`.
    pub fn new_signed(wallet: &Wallet, to: String, amount: u64, fee: u64) -> (res: Transaction)
        ensures
            res.from@ == crate::wallet::address_of(wallet.signing_key@),
            res.to == to,
            res.amount == amount,
            res.fee == fee,
            res.signature matches Some(sig) && sig@ == crate::crypto::ed25519_signature(
                wallet.signing_key@,
                signing_bytes(res),
            ),
            is_authorized(res),
    {
        let from = wallet.public_key_hex();
        let message = signing_message_bytes(from.as_str(), to.as_str(), amount, fee);
        let signature = wallet.sign(message.as_slice());
        Transaction { from, to, amount, fee, signature: Some(signature) }
    }

    /// Whether the transaction carries a valid signature by its sender (see
    /// `is_authorized`).
    pub fn verify(&self) -> (res: bool)
        ensures
            res == is_authorized(*self),
    {
        let sig = match &self.signature {
            Some(s) => s,
            None => return false,
        };
        let public_key = match bs58_decode(self.from.as_str()) {
            Some(pk) => pk,
            None => return false,
        };
        if public_key.len() != 32 {
            return false;
        }
        if sig.len() != 64 {
            return false;
        }
        let message = signing_message_bytes(self.from.as_str(), self.to.as_str(), self.amount, self.fee);
        ed25519_verify(public_key.as_slice(), message.as_slice(), sig.as_slice())
    }
}

} // verus!
