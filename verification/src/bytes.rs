//! Byte-level helpers: the host's SHA-256, little-endian encoding of
//! amounts, concatenation and comparison of byte strings.
use vstd::prelude::*;

verus! {

/// The contract environment of the Soroban host; only carried through to
/// the host's hash function.
#[verifier::external_type_specification]
#[verifier::external_body]
pub struct ExEnv(soroban_sdk::Env);

/// The SHA-256 digest of a byte string.
pub uninterp spec fn sha256_of(data: Seq<u8>) -> Seq<u8>;

/// Calls `soroban_sdk::crypto::Crypto::sha256` through the given environment.
/// Trusted: the host returns the SHA-256 digest of `data`, a value that depends
/// on `data` alone. The host meters the call against the environment's budget
/// and aborts when the budget is spent; that condition rests on the
/// environment's state and is not stated here.
#[verifier::external_body]
pub(crate) fn sha256(env: &soroban_sdk::Env, data: &[u8]) -> (digest: [u8; 32])
    ensures
        digest@ == sha256_of(data@),
{
    env.crypto().sha256(&soroban_sdk::Bytes::from_slice(env, data)).to_array()
}

/// The `n` low base-256 digits of `v`, least significant first.
pub open spec fn le_digits(v: nat, n: nat) -> Seq<u8>
    decreases n,
{
    if n == 0 {
        Seq::empty()
    } else {
        seq![(v % 256) as u8] + le_digits(v / 256, (n - 1) as nat)
    }
}

/// The two's-complement value of a 128-bit signed integer.
pub open spec fn twos_complement(x: i128) -> nat {
    if x >= 0 {
        x as nat
    } else {
        (x + 0x1_0000_0000_0000_0000_0000_0000_0000_0000int) as nat
    }
}

/// The 16 little-endian bytes of an `i128`, as `i128::to_le_bytes` gives them.
pub open spec fn i128_le_bytes(x: i128) -> Seq<u8> {
    le_digits(twos_complement(x), 16)
}

/// The little-endian byte encoding of `x`.
pub fn i128_to_le_bytes(x: i128) -> (out: Vec<u8>)
    ensures
        out@ == i128_le_bytes(x),
{
    let mut v: u128 = if x >= 0 {
        x as u128
    } else {
        ((x - i128::MIN) as u128) + 0x8000_0000_0000_0000_0000_0000_0000_0000u128
    };
    assert(v as nat == twos_complement(x));
    let mut out: Vec<u8> = Vec::new();
    let mut i: usize = 0;
    while i < 16
        invariant
            i <= 16,
            out@ + le_digits(v as nat, (16 - i) as nat) == i128_le_bytes(x),
        decreases 16 - i,
    {
        let ghost before = out@;
        let ghost rest = le_digits(v as nat, (16 - i) as nat);
        let byte: u8 = (v % 256) as u8;
        out.push(byte);
        v = v / 256;
        i = i + 1;
        assert(rest == seq![byte] + le_digits(v as nat, (16 - i) as nat));
        assert(out@ + le_digits(v as nat, (16 - i) as nat) =~= before + rest);
    }
    assert(out@ =~= out@ + le_digits(v as nat, 0));
    out
}

/// The concatenation `a ++ b`.
pub fn concat_bytes(a: &[u8], b: &[u8]) -> (out: Vec<u8>)
    ensures
        out@ == a@ + b@,
{
    let mut out: Vec<u8> = Vec::new();
    let mut i: usize = 0;
    while i < a.len()
        invariant
            i <= a@.len(),
            out@ == a@.subrange(0, i as int),
        decreases a@.len() - i,
    {
        out.push(a[i]);
        i = i + 1;
        assert(out@ =~= a@.subrange(0, i as int));
    }
    let mut j: usize = 0;
    while j < b.len()
        invariant
            j <= b@.len(),
            i == a@.len(),
            out@ == a@ + b@.subrange(0, j as int),
        decreases b@.len() - j,
    {
        out.push(b[j]);
        j = j + 1;
        assert(out@ =~= a@ + b@.subrange(0, j as int));
    }
    assert(a@.subrange(0, a@.len() as int) =~= a@);
    assert(b@.subrange(0, b@.len() as int) =~= b@);
    out
}

/// Whether two byte strings are equal.
pub fn bytes_eq(a: &[u8], b: &[u8]) -> (same: bool)
    ensures
        same == (a@ == b@),
{
    if a.len() != b.len() {
        return false;
    }
    let mut i: usize = 0;
    while i < a.len()
        invariant
            i <= a@.len(),
            a@.len() == b@.len(),
            forall|k: int| 0 <= k < i ==> a@[k] == b@[k],
        decreases a@.len() - i,
    {
        if a[i] != b[i] {
            assert(a@[i as int] != b@[i as int]);
            return false;
        }
        i = i + 1;
    }
    assert(a@ =~= b@);
    true
}

} // verus!
