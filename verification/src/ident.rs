//! The identifier generator: a transaction identifier is the Blake2s-256
//! digest of buyer, seller, amount and a host-supplied nonce (block height
//! and timestamp), rendered as 64 hexadecimal characters.  Given its
//! inputs, the identifier is deterministic; the nonce must come from the
//! host environment, never from the caller.

use vstd::prelude::*;
use blake2::Digest;

verus! {

/// What Blake2s-256 returns for a given input.  The digest is a function
/// of the input bytes alone; its definition is not restated here.
pub uninterp spec fn blake2s_of(input: Seq<u8>) -> Seq<u8>;

/// Relies on `blake2::Blake2s256` (the `Digest` impl): the digest depends
/// on the input bytes alone, and Blake2s-256 output is 32 bytes.
#[verifier::external_body]
fn blake2s_digest(input: &[u8]) -> (r: Vec<u8>)
    ensures
        r@ == blake2s_of(input@),
        r@.len() == 32,
{
    blake2::Blake2s256::digest(input).to_vec()
}

/// Relies on `chrono::Utc::now` for the host clock.  Nothing is assumed
/// of the value returned.
#[verifier::external_body]
fn now_timestamp() -> i64 {
    chrono::Utc::now().timestamp()
}

/// The character for one hexadecimal digit.
pub open spec fn hex_char(n: int) -> char {
    if n == 0 { '0' } else if n == 1 { '1' } else if n == 2 { '2' }
    else if n == 3 { '3' } else if n == 4 { '4' } else if n == 5 { '5' }
    else if n == 6 { '6' } else if n == 7 { '7' } else if n == 8 { '8' }
    else if n == 9 { '9' } else if n == 10 { 'a' } else if n == 11 { 'b' }
    else if n == 12 { 'c' } else if n == 13 { 'd' } else if n == 14 { 'e' }
    else { 'f' }
}

/// Lower-case hexadecimal rendering of a byte sequence, two characters
/// per byte, high nibble first.
pub open spec fn hex_of(bytes: Seq<u8>) -> Seq<char>
    decreases bytes.len(),
{
    if bytes.len() == 0 {
        Seq::empty()
    } else {
        hex_of(bytes.drop_last())
            .push(hex_char(bytes.last() as int / 16))
            .push(hex_char(bytes.last() as int % 16))
    }
}

pub proof fn lemma_hex_of_len(bytes: Seq<u8>)
    ensures
        hex_of(bytes).len() == 2 * bytes.len(),
    decreases bytes.len(),
{
    if bytes.len() > 0 {
        lemma_hex_of_len(bytes.drop_last());
    }
}

/// The `k` least significant bytes of `n`, least significant first.
pub open spec fn le_bytes(n: int, k: nat) -> Seq<u8>
    decreases k,
{
    if k == 0 {
        Seq::empty()
    } else {
        seq![(n % 256) as u8] + le_bytes(n / 256, (k - 1) as nat)
    }
}

/// The byte string that is digested for a transaction identifier: each
/// party's UTF-8 bytes prefixed by their length, then amount, block
/// height and timestamp in fixed-width little-endian form.
pub open spec fn id_input(
    buyer: Seq<char>,
    seller: Seq<char>,
    amount: u128,
    block_height: u64,
    timestamp: u64,
) -> Seq<u8> {
    le_bytes(vstd::utf8::encode_utf8(buyer).len() as int, 8)
        + vstd::utf8::encode_utf8(buyer)
        + le_bytes(vstd::utf8::encode_utf8(seller).len() as int, 8)
        + vstd::utf8::encode_utf8(seller)
        + le_bytes(amount as int, 16)
        + le_bytes(block_height as int, 8)
        + le_bytes(timestamp as int, 8)
}

/// The transaction identifier for the given parties, amount and nonce.
pub open spec fn spec_tx_id(
    buyer: Seq<char>,
    seller: Seq<char>,
    amount: u128,
    block_height: u64,
    timestamp: u64,
) -> Seq<char> {
    hex_of(blake2s_of(id_input(buyer, seller, amount, block_height, timestamp)))
}

/// Appends the character for one hexadecimal digit to `s`.
fn push_hex_digit(s: &mut String, n: u8)
    requires
        n < 16,
    ensures
        final(s)@ == old(s)@.push(hex_char(n as int)),
{
    if n == 0 { proof { reveal_strlit("0"); } s.append("0"); }
    else if n == 1 { proof { reveal_strlit("1"); } s.append("1"); }
    else if n == 2 { proof { reveal_strlit("2"); } s.append("2"); }
    else if n == 3 { proof { reveal_strlit("3"); } s.append("3"); }
    else if n == 4 { proof { reveal_strlit("4"); } s.append("4"); }
    else if n == 5 { proof { reveal_strlit("5"); } s.append("5"); }
    else if n == 6 { proof { reveal_strlit("6"); } s.append("6"); }
    else if n == 7 { proof { reveal_strlit("7"); } s.append("7"); }
    else if n == 8 { proof { reveal_strlit("8"); } s.append("8"); }
    else if n == 9 { proof { reveal_strlit("9"); } s.append("9"); }
    else if n == 10 { proof { reveal_strlit("a"); } s.append("a"); }
    else if n == 11 { proof { reveal_strlit("b"); } s.append("b"); }
    else if n == 12 { proof { reveal_strlit("c"); } s.append("c"); }
    else if n == 13 { proof { reveal_strlit("d"); } s.append("d"); }
    else if n == 14 { proof { reveal_strlit("e"); } s.append("e"); }
    else { proof { reveal_strlit("f"); } s.append("f"); }
    proof {
        assert(s@ =~= old(s)@.push(hex_char(n as int)));
    }
}

/// Renders a byte sequence in lower-case hexadecimal.
fn to_hex(bytes: &Vec<u8>) -> (r: String)
    ensures
        r@ == hex_of(bytes@),
{
    let mut r = String::new();
    let mut i: usize = 0;
    while i < bytes.len()
        invariant
            i <= bytes@.len(),
            r@ == hex_of(bytes@.take(i as int)),
        decreases bytes@.len() - i,
    {
        let b = bytes[i];
        push_hex_digit(&mut r, b / 16);
        push_hex_digit(&mut r, b % 16);
        i = i + 1;
        proof {
            assert(bytes@.take(i as int).drop_last() =~= bytes@.take(i - 1));
            assert(bytes@.take(i as int).last() == bytes@[i - 1]);
        }
    }
    proof {
        assert(bytes@.take(bytes@.len() as int) =~= bytes@);
    }
    r
}

/// Appends a whole byte slice.
fn push_bytes(out: &mut Vec<u8>, other: &[u8])
    ensures
        final(out)@ == old(out)@ + other@,
{
    let mut i: usize = 0;
    while i < other.len()
        invariant
            i <= other@.len(),
            out@ == old(out)@ + other@.take(i as int),
        decreases other@.len() - i,
    {
        out.push(other[i]);
        i = i + 1;
        proof {
            assert(old(out)@ + other@.take(i as int)
                =~= (old(out)@ + other@.take(i - 1)).push(other@[i - 1]));
        }
    }
    proof {
        assert(old(out)@ + other@.take(other@.len() as int) =~= old(out)@ + other@);
    }
}

/// Appends the `k` least significant bytes of `n`, least significant
/// first.
fn push_le_bytes(out: &mut Vec<u8>, n: u128, k: usize)
    ensures
        final(out)@ == old(out)@ + le_bytes(n as int, k as nat),
{
    let mut rest = n;
    let mut i: usize = 0;
    while i < k
        invariant
            i <= k,
            out@ + le_bytes(rest as int, (k - i) as nat)
                == old(out)@ + le_bytes(n as int, k as nat),
        decreases k - i,
    {
        let ghost pre = out@;
        let ghost pre_rest = rest;
        out.push((rest % 256) as u8);
        rest = rest / 256;
        i = i + 1;
        proof {
            assert(le_bytes(pre_rest as int, (k - i + 1) as nat)
                =~= seq![(pre_rest as int % 256) as u8]
                    + le_bytes(pre_rest as int / 256, (k - i) as nat));
            assert(pre + le_bytes(pre_rest as int, (k - i + 1) as nat)
                =~= out@ + le_bytes(rest as int, (k - i) as nat));
        }
    }
    proof {
        assert(out@ + le_bytes(rest as int, 0) =~= out@);
    }
}

/// Derives the transaction identifier for the given parties, amount and
/// host-supplied nonce.  The result is deterministic in its arguments
/// and 64 characters wide.
pub fn generate_id(
    buyer: &str,
    seller: &str,
    amount: u128,
    block_height: u64,
    timestamp: u64,
) -> (r: String)
    ensures
        r@ == spec_tx_id(buyer@, seller@, amount, block_height, timestamp),
        r@.len() == 64,
{
    let mut input: Vec<u8> = Vec::new();
    let buyer_bytes = buyer.as_bytes();
    push_le_bytes(&mut input, buyer_bytes.len() as u128, 8);
    push_bytes(&mut input, buyer_bytes);
    let seller_bytes = seller.as_bytes();
    push_le_bytes(&mut input, seller_bytes.len() as u128, 8);
    push_bytes(&mut input, seller_bytes);
    push_le_bytes(&mut input, amount, 16);
    push_le_bytes(&mut input, block_height as u128, 8);
    push_le_bytes(&mut input, timestamp as u128, 8);
    proof {
        assert(input@ =~= id_input(buyer@, seller@, amount, block_height, timestamp));
    }
    let digest = blake2s_digest(input.as_slice());
    let r = to_hex(&digest);
    proof {
        lemma_hex_of_len(digest@);
    }
    r
}

/// Derives an identifier from the parties and amount with the current
/// wall-clock second as the timestamp component of the nonce and a zero
/// block height; the host clock, not the caller, supplies the time.
pub(crate) fn wall_clock_tx_id(buyer: &String, seller: &String, amount: &u128) -> (r: String)
    ensures
        exists|t: u64| r@ == spec_tx_id(buyer@, seller@, *amount, 0, t),
        r@.len() == 64,
{
    let raw = now_timestamp();
    let t: u64 = if raw < 0 { 0 } else { raw as u64 };
    let r = generate_id(buyer.as_str(), seller.as_str(), *amount, 0, t);
    proof {
        assert(r@ == spec_tx_id(buyer@, seller@, *amount, 0, t));
    }
    r
}

} // verus!
