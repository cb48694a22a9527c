//! Derivation of the ledger subaccounts the canisters receive funds on.

use vstd::prelude::*;
use sha2::Digest;
use vstd::string::StringSliceAdditionalSpecFns;

verus! {

/// The SHA-256 digest of a byte string.
pub uninterp spec fn sha256_of(data: Seq<u8>) -> Seq<u8>;

/// Unsigned LEB128 of `v`: seven bits per byte, least significant group
/// first, the high bit set on every byte but the last.
pub open spec fn uleb128(v: nat) -> Seq<u8>
    decreases v,
{
    if v < 128 {
        seq![v as u8]
    } else {
        seq![(v % 128 + 128) as u8] + uleb128(v / 128)
    }
}

/// The Candid message holding one natural number: the magic `DIDL`, an
/// empty type table, one argument of type `nat` (opcode -3, as signed
/// LEB128 `0x7d`), then the value in unsigned LEB128.
pub open spec fn candid_nat_encoding(value: u128) -> Seq<u8> {
    seq![0x44u8, 0x49u8, 0x44u8, 0x4cu8, 0x00u8, 0x01u8, 0x7du8] + uleb128(value as nat)
}

/// Calls `sha2::Sha256::digest` on `data`. Claimed: the 32-byte result is
/// `sha256_of(data@)`, i.e. it depends on the bytes of `data` alone.
#[verifier::external_body]
fn sha256(data: &[u8]) -> (digest: [u8; 32])
    ensures
        digest@ == sha256_of(data@),
{
    sha2::Sha256::digest(data).into()
}

/// Calls `candid::encode_one` on the `candid::Nat` holding `value`.
/// Claimed: the bytes are `candid_nat_encoding(value)`, the Candid message
/// with one `nat` argument as `IDLBuilder` writes it. Encoding a natural
/// number into a vector cannot fail, so the `Result` is unwrapped.
#[verifier::external_body]
fn encode_nat(value: u128) -> (bytes: Vec<u8>)
    ensures
        bytes@ == candid_nat_encoding(value),
{
    candid::encode_one(candid::Nat::from(value)).unwrap()
}

/// Appends `src` to `dst`.
pub fn append_bytes(dst: &mut Vec<u8>, src: &[u8])
    ensures
        final(dst)@ == old(dst)@ + src@,
{
    let n = src.len();
    let mut i: usize = 0;
    while i < n
        invariant
            n == src@.len(),
            i <= n,
            dst@ == old(dst)@ + src@.subrange(0, i as int),
        decreases n - i,
    {
        dst.push(src[i]);
        i = i + 1;
        assert(dst@ =~= old(dst)@ + src@.subrange(0, i as int));
    }
    assert(src@.subrange(0, n as int) =~= src@);
}

/// Big-endian encoding of a `u64`.
pub open spec fn be_bytes(x: u64) -> Seq<u8> {
    seq![
        (x >> 56u64) as u8,
        (x >> 48u64) as u8,
        (x >> 40u64) as u8,
        (x >> 32u64) as u8,
        (x >> 24u64) as u8,
        (x >> 16u64) as u8,
        (x >> 8u64) as u8,
        x as u8,
    ]
}

/// Returns the big-endian encoding of a `u64`.
pub fn to_be_bytes(x: u64) -> (bytes: Vec<u8>)
    ensures
        bytes@ == be_bytes(x),
{
    let mut v: Vec<u8> = Vec::new();
    v.push((x >> 56u64) as u8);
    v.push((x >> 48u64) as u8);
    v.push((x >> 40u64) as u8);
    v.push((x >> 32u64) as u8);
    v.push((x >> 24u64) as u8);
    v.push((x >> 16u64) as u8);
    v.push((x >> 8u64) as u8);
    v.push(x as u8);
    assert(v@ =~= be_bytes(x));
    v
}

/// The subaccount a user funds before staking into `episode`:
/// SHA-256 of the user's principal bytes followed by the episode index
/// in big-endian order.
pub open spec fn deposit_subaccount(user: Seq<u8>, episode: u64) -> Seq<u8> {
    sha256_of(user + be_bytes(episode))
}

/// Subaccount on which `user` funds a stake into `episode`.
pub fn get_deposit_subaccount(user: &[u8], episode: u64) -> (subaccount: [u8; 32])
    ensures
        subaccount@ == deposit_subaccount(user@, episode),
{
    let mut data: Vec<u8> = Vec::new();
    append_bytes(&mut data, user);
    let e = to_be_bytes(episode);
    append_bytes(&mut data, e.as_slice());
    assert(data@ =~= user@ + be_bytes(episode));
    sha256(data.as_slice())
}

/// ASCII bytes of the tag `REWARD_SUBACCOUNT`.
pub open spec fn reward_tag() -> Seq<u8> {
    seq![82u8, 69, 87, 65, 82, 68, 95, 83, 85, 66, 65, 67, 67, 79, 85, 78, 84]
}

/// The subaccount that collects rewards before they are streamed to stakers.
pub open spec fn reward_subaccount() -> Seq<u8> {
    sha256_of(reward_tag())
}

/// Subaccount on which rewards for the pool are paid in.
pub fn get_reward_subaccount() -> (subaccount: [u8; 32])
    ensures
        subaccount@ == reward_subaccount(),
{
    let tag: Vec<u8> = vec![82u8, 69, 87, 65, 82, 68, 95, 83, 85, 66, 65, 67, 67, 79, 85, 78, 84];
    assert(tag@ =~= reward_tag());
    sha256(tag.as_slice())
}

/// ASCII bytes of the tag `PURCHASE_SUBACCOUNT`.
pub open spec fn purchase_tag() -> Seq<u8> {
    seq![80u8, 85, 82, 67, 72, 65, 83, 69, 95, 83, 85, 66, 65, 67, 67, 79, 85, 78, 84]
}

/// The subaccount a buyer funds with the premium of cover from
/// `product_id`: SHA-256 of the purchase tag, the buyer's principal bytes
/// and the product identifier in big-endian order.
pub open spec fn purchase_subaccount(user: Seq<u8>, product_id: u64) -> Seq<u8> {
    sha256_of(purchase_tag() + user + be_bytes(product_id))
}

/// Subaccount on which `user` pays the premium for cover from `product_id`.
pub fn get_purchase_subaccount(user: &[u8], product_id: u64) -> (subaccount: [u8; 32])
    ensures
        subaccount@ == purchase_subaccount(user@, product_id),
{
    let mut data: Vec<u8> = vec![80u8, 85, 82, 67, 72, 65, 83, 69, 95, 83, 85, 66, 65, 67, 67, 79, 85, 78, 84];
    assert(data@ =~= purchase_tag());
    append_bytes(&mut data, user);
    let p = to_be_bytes(product_id);
    append_bytes(&mut data, p.as_slice());
    assert(data@ =~= purchase_tag() + user@ + be_bytes(product_id));
    sha256(data.as_slice())
}

/// The subaccount a claim proposer funds as deposit: SHA-256 over the
/// proposer, the receiver, the Candid-encoded amount, the pool canister and
/// the UTF-8 description, in that order.
pub open spec fn claim_deposit_subaccount(
    user: Seq<u8>,
    receiver: Seq<u8>,
    amount: u128,
    pool_canister_id: Seq<u8>,
    description: Seq<u8>,
) -> Seq<u8> {
    sha256_of(user + receiver + candid_nat_encoding(amount) + pool_canister_id + description)
}

/// Subaccount on which a claim's deposit is paid.
pub fn get_claim_deposit_subaccount(
    user: &[u8],
    receiver: &[u8],
    amount: u128,
    pool_canister_id: &[u8],
    description: &str,
) -> (subaccount: [u8; 32])
    ensures
        subaccount@ == claim_deposit_subaccount(
            user@,
            receiver@,
            amount,
            pool_canister_id@,
            description.spec_bytes(),
        ),
{
    let mut data: Vec<u8> = Vec::new();
    append_bytes(&mut data, user);
    append_bytes(&mut data, receiver);
    let encoded = encode_nat(amount);
    append_bytes(&mut data, encoded.as_slice());
    append_bytes(&mut data, pool_canister_id);
    append_bytes(&mut data, description.as_bytes());
    sha256(data.as_slice())
}

} // verus!
