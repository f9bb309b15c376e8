use vstd::prelude::*;

verus! {

/// The SHA-256 digest of a byte string.
pub uninterp spec fn sha256_of(data: Seq<u8>) -> Seq<u8>;

/// Longest input hashed in one call. The host meters hashing (a default host allows
/// 100M CPU instructions, about 55 per byte hashed), so this keeps a call well inside it.
pub const MAX_HASH_INPUT: usize = 100_000;

/// Longest player name accepted.
pub const MAX_PLAYER_LEN: usize = 65_536;

/// Relies on soroban_sdk's `Crypto::sha256`, on a default host: the SHA-256 digest of the
/// given bytes.
#[verifier::external_body]
fn sha256(data: &[u8]) -> (r: [u8; 32])
    requires
        data@.len() <= MAX_HASH_INPUT,
    ensures
        r@ == sha256_of(data@),
{
    let env = soroban_sdk::Env::default();
    env.crypto().sha256(&soroban_sdk::Bytes::from_slice(&env, data)).to_array()
}

/// The number that a byte string spells in big-endian order.
pub open spec fn be_value(s: Seq<u8>) -> nat
    decreases s.len(),
{
    if s.len() == 0 {
        0
    } else {
        be_value(s.drop_last()) * 256 + s.last() as nat
    }
}

/// The low `n` bytes of `x`, most significant first.
pub open spec fn be_bytes(x: nat, n: nat) -> Seq<u8>
    decreases n,
{
    if n == 0 {
        Seq::empty()
    } else {
        be_bytes(x / 256, (n - 1) as nat).push((x % 256) as u8)
    }
}

pub open spec fn pow256(n: nat) -> nat
    decreases n,
{
    if n == 0 {
        1
    } else {
        256 * pow256((n - 1) as nat)
    }
}

/// The bytes hashed to name a bet: the round id in eight big-endian bytes, then the player.
pub open spec fn bet_key(round_id: u64, player: Seq<u8>) -> Seq<u8> {
    be_bytes(round_id as nat, 8) + player
}

/// A bet's id: the first eight bytes of the digest of its key, read big-endian.
pub open spec fn bet_id_of(round_id: u64, player: Seq<u8>) -> u64 {
    be_value(sha256_of(bet_key(round_id, player)).take(8)) as u64
}

/// Whether two byte strings are equal.
pub fn bytes_equal(a: &[u8], b: &[u8]) -> (r: bool)
    ensures
        r == (a@ == b@),
{
    if a.len() != b.len() {
        return false;
    }
    let mut i: usize = 0;
    while i < a.len()
        invariant
            a@.len() == b@.len(),
            i <= a@.len(),
            forall|j: int| 0 <= j < i ==> a@[j] == b@[j],
        decreases a@.len() - i,
    {
        if a[i] != b[i] {
            return false;
        }
        i = i + 1;
    }
    assert(a@ =~= b@);
    true
}

/// Appends the low `n` bytes of `x` to `out`, most significant first.
fn push_be_bytes(x: u64, n: usize, out: &mut Vec<u8>)
    requires
        n <= 8,
    ensures
        final(out)@ == old(out)@ + be_bytes(x as nat, n as nat),
    decreases n,
{
    if n > 0 {
        push_be_bytes(x / 256, n - 1, out);
        out.push((x % 256) as u8);
        assert(final(out)@ =~= old(out)@ + be_bytes(x as nat, n as nat));
    } else {
        assert(final(out)@ =~= old(out)@ + be_bytes(x as nat, n as nat));
    }
}

/// Reads the first eight bytes of a digest as a big-endian number.
pub fn bet_id_from_digest(digest: &[u8; 32]) -> (r: u64)
    ensures
        r as nat == be_value(digest@.take(8)),
{
    let mut id: u64 = 0;
    let mut i: usize = 0;
    assert(digest@.take(0) =~= Seq::<u8>::empty());
    while i < 8
        invariant
            i <= 8,
            digest@.len() == 32,
            id as nat == be_value(digest@.take(i as int)),
            id < pow256(i as nat),
        decreases 8 - i,
    {
        let b: u8 = digest[i];
        assert(digest@.take(i + 1).drop_last() =~= digest@.take(i as int));
        assert(pow256(i as nat + 1) == 256 * pow256(i as nat));
        assert(pow256(8) == 18_446_744_073_709_551_616nat) by {
            reveal_with_fuel(pow256, 9);
        }
        assert(pow256(i as nat + 1) <= pow256(8)) by {
            lemma_pow256_monotone(i as nat + 1, 8);
        }
        assert(id * 256 + b < pow256(i as nat + 1)) by (nonlinear_arith)
            requires
                id < pow256(i as nat),
                b < 256,
                pow256(i as nat + 1) == 256 * pow256(i as nat),
        ;
        id = id * 256 + b as u64;
        i = i + 1;
    }
    id
}

proof fn lemma_pow256_monotone(a: nat, b: nat)
    requires
        a <= b,
    ensures
        pow256(a) <= pow256(b),
    decreases b,
{
    if a < b {
        lemma_pow256_monotone(a, (b - 1) as nat);
    }
}

proof fn lemma_be_bytes_len(x: nat, n: nat)
    ensures
        be_bytes(x, n).len() == n,
    decreases n,
{
    if n > 0 {
        lemma_be_bytes_len(x / 256, (n - 1) as nat);
    }
}

/// Derives the id of the bet that `player` places in round `round_id`.
pub fn generate_bet_id(round_id: u64, player: &[u8]) -> (r: u64)
    requires
        player@.len() <= MAX_PLAYER_LEN,
    ensures
        r == bet_id_of(round_id, player@),
{
    let mut key: Vec<u8> = Vec::new();
    push_be_bytes(round_id, 8, &mut key);
    let mut i: usize = 0;
    while i < player.len()
        invariant
            i <= player@.len(),
            key@ == be_bytes(round_id as nat, 8) + player@.take(i as int),
            player@.len() <= MAX_PLAYER_LEN,
        decreases player@.len() - i,
    {
        key.push(player[i]);
        assert(player@.take(i + 1) =~= player@.take(i as int).push(player@[i as int]));
        i = i + 1;
    }
    assert(player@.take(player@.len() as int) =~= player@);
    assert(be_bytes(round_id as nat, 8).len() == 8) by {
        lemma_be_bytes_len(round_id as nat, 8);
    }
    let digest = sha256(key.as_slice());
    let id = bet_id_from_digest(&digest);
    id
}

/// Whether `preimage` hashes to `commitment`.
pub fn verify_commitment(commitment: &[u8; 32], preimage: &[u8; 32]) -> (r: bool)
    ensures
        r == (sha256_of(preimage@) == commitment@),
{
    let digest = sha256(preimage.as_slice());
    bytes_equal(digest.as_slice(), commitment.as_slice())
}

} // verus!
