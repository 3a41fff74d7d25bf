//! What each entry point does, stated directly over the fields of the
//! streams and commitments it reads and writes, and proved of the model.
use vstd::prelude::*;
use crate::bytes::{i128_le_bytes, le_digits, sha256_of};
use crate::model::{amount_commitment, parts_valid};
use vstd::arithmetic::power::{pow, lemma_pow_positive};
use vstd::arithmetic::div_mod::lemma_div_denominator;
use crate::model::{fold_path, latest_with_hash, CommitmentView, MicroPayError, MicroPayView, StreamView};

verus! {

/// Opening a stream refuses a non-positive rate, then a non-positive
/// deposit; with both positive it succeeds with the next id, appends an
/// unresolved stream with nothing claimed that starts at the current ledger,
/// and keeps everything else.
pub proof fn law_open_stream_result(
    v: MicroPayView,
    payer: Seq<u8>,
    recipient: Seq<u8>,
    rate: int,
    deposit: int,
    now: u32,
)
    requires
        v.valid(),
        v.streams.len() < u32::MAX,
        rate <= i128::MAX,
        deposit <= i128::MAX,
    ensures
        rate <= 0 ==> v.open_outcome(payer, recipient, rate, deposit, now) == Err::<
            (MicroPayView, int),
            MicroPayError,
        >(MicroPayError::RateNotPositive),
        rate > 0 && deposit <= 0 ==> v.open_outcome(payer, recipient, rate, deposit, now) == Err::<
            (MicroPayView, int),
            MicroPayError,
        >(MicroPayError::DepositNotPositive),
        rate > 0 && deposit > 0 ==> (v.open_outcome(payer, recipient, rate, deposit, now) matches Ok(
            (after, id),
        ) && {
            &&& id == v.streams.len() + 1
            &&& after.streams.len() == v.streams.len() + 1
            &&& forall|j: int| 0 <= j < v.streams.len() ==> after.streams[j] == v.streams[j]
            &&& after.streams[id - 1].payer == payer
            &&& after.streams[id - 1].recipient == recipient
            &&& after.streams[id - 1].rate_per_ledger == rate
            &&& after.streams[id - 1].deposited == deposit
            &&& after.streams[id - 1].claimed == 0
            &&& after.streams[id - 1].start_ledger == now
            &&& after.streams[id - 1].resolved_at == None::<u64>
            &&& after.commitments == v.commitments
            &&& after.merkle_root == v.merkle_root
            &&& after.valid()
        }),
{
    if rate > 0 && deposit > 0 {
        let (after, id) = v.open_outcome(payer, recipient, rate, deposit, now).unwrap();
        assert(after.committed_hashes() =~= v.committed_hashes());
        assert forall|i: int| 0 <= i < after.streams.len() implies #[trigger] after.streams[i].valid() by {
            if i < v.streams.len() {
                assert(after.streams[i] == v.streams[i]);
            }
        }
    }
}

/// What a claim pays at ledger `now`: nothing before the stream starts;
/// afterwards the smaller of everything released (rate times the ledgers
/// elapsed) and the deposit, less what was already claimed, and never less
/// than nothing.
pub open spec fn released_unclaimed(s: StreamView, now: u32) -> int {
    if now > s.start_ledger {
        let released = s.rate_per_ledger * (now - s.start_ledger);
        let cap = if released < s.deposited {
            released
        } else {
            s.deposited
        };
        if cap - s.claimed > 0 {
            cap - s.claimed
        } else {
            0
        }
    } else {
        0
    }
}

/// Claiming refuses an unknown stream, then a resolved one, then anyone but
/// the recipient. Otherwise it pays the released, unclaimed amount capped by
/// the deposit, adds it to the claimed amount, resolves the stream at the
/// claim's time exactly when the deposit is then fully claimed, and changes
/// nothing else.
pub proof fn law_claim_stream_result(
    v: MicroPayView,
    id: u32,
    recipient: Seq<u8>,
    now: u32,
    timestamp: u64,
)
    requires
        v.valid(),
    ensures
        !(1 <= id <= v.streams.len()) ==> v.claim_outcome(id, recipient, now, timestamp) == Err::<
            (MicroPayView, int),
            MicroPayError,
        >(MicroPayError::StreamNotFound),
        1 <= id <= v.streams.len() && v.streams[id - 1].resolved_at is Some ==> v.claim_outcome(
            id,
            recipient,
            now,
            timestamp,
        ) == Err::<(MicroPayView, int), MicroPayError>(MicroPayError::ClaimFromResolved),
        1 <= id <= v.streams.len() && v.streams[id - 1].resolved_at is None && v.streams[id
            - 1].recipient != recipient ==> v.claim_outcome(id, recipient, now, timestamp) == Err::<
            (MicroPayView, int),
            MicroPayError,
        >(MicroPayError::NotRecipient),
        1 <= id <= v.streams.len() && v.streams[id - 1].resolved_at is None && v.streams[id
            - 1].recipient == recipient ==> (v.claim_outcome(id, recipient, now, timestamp) matches Ok(
            (after, amount),
        ) && {
            let s = v.streams[id - 1];
            let t = after.streams[id - 1];
            &&& amount == released_unclaimed(s, now)
            &&& 0 <= amount <= s.deposited - s.claimed
            &&& after.streams.len() == v.streams.len()
            &&& forall|j: int|
                0 <= j < v.streams.len() && j != id - 1 ==> after.streams[j] == v.streams[j]
            &&& t.claimed == s.claimed + amount
            &&& t.deposited == s.deposited
            &&& t.rate_per_ledger == s.rate_per_ledger
            &&& t.start_ledger == s.start_ledger
            &&& t.payer == s.payer
            &&& t.recipient == s.recipient
            &&& t.resolved_at == (if s.claimed + amount == s.deposited {
                Some(timestamp)
            } else {
                None::<u64>
            })
            &&& after.commitments == v.commitments
            &&& after.merkle_root == v.merkle_root
            &&& after.valid()
        }),
{
    if 1 <= id <= v.streams.len() && v.streams[id - 1].resolved_at is None && v.streams[id
        - 1].recipient == recipient {
        let s = v.streams[id - 1];
        assert(s.valid());
        crate::model::lemma_streamed_nonnegative(s, now);
        if now > s.start_ledger {
            assert(s.streamed(now) == s.rate_per_ledger * (now - s.start_ledger));
        } else {
            assert(s.streamed(now) == s.rate_per_ledger * 0);
            assert(s.rate_per_ledger * 0 == 0) by (nonlinear_arith);
        }
        let (after, amount) = v.claim_outcome(id, recipient, now, timestamp).unwrap();
        assert(amount == released_unclaimed(s, now));
        crate::model::lemma_with_stream_valid(v, id, s.after_claim(amount, timestamp));
    }
}

/// Asking what is claimable refuses an unknown stream; a resolved stream has
/// nothing claimable; otherwise it is what a claim at the same ledger would
/// pay.
pub proof fn law_get_claimable_result(v: MicroPayView, id: u32, now: u32)
    requires
        v.valid(),
    ensures
        !(1 <= id <= v.streams.len()) ==> v.claimable_outcome(id, now) == Err::<
            int,
            MicroPayError,
        >(MicroPayError::StreamNotFound),
        1 <= id <= v.streams.len() && v.streams[id - 1].resolved_at is Some ==> v.claimable_outcome(
            id,
            now,
        ) == Ok::<int, MicroPayError>(0),
        1 <= id <= v.streams.len() && v.streams[id - 1].resolved_at is None ==> v.claimable_outcome(
            id,
            now,
        ) == Ok::<int, MicroPayError>(released_unclaimed(v.streams[id - 1], now)),
{
    if 1 <= id <= v.streams.len() && v.streams[id - 1].resolved_at is None {
        let s = v.streams[id - 1];
        assert(s.valid());
        if now > s.start_ledger {
            assert(s.streamed(now) == s.rate_per_ledger * (now - s.start_ledger));
        } else {
            assert(s.streamed(now) == s.rate_per_ledger * 0);
            assert(s.rate_per_ledger * 0 == 0) by (nonlinear_arith);
        }
    }
}

/// Topping up refuses a non-positive amount, then an unknown stream, then a
/// closed stream (resolved with part of its deposit unclaimed), then anyone
/// but the payer. Otherwise it adds the amount to the deposit, leaves the
/// claimed amount and every other field as they were, makes the stream
/// unresolved, and changes nothing else.
pub proof fn law_top_up_stream_result(v: MicroPayView, id: u32, payer: Seq<u8>, amount: int)
    requires
        v.valid(),
    ensures
        amount <= 0 ==> v.top_up_outcome(id, payer, amount) == Err::<MicroPayView, MicroPayError>(
            MicroPayError::TopUpNotPositive,
        ),
        amount > 0 && !(1 <= id <= v.streams.len()) ==> v.top_up_outcome(id, payer, amount)
            == Err::<MicroPayView, MicroPayError>(MicroPayError::StreamNotFound),
        amount > 0 && 1 <= id <= v.streams.len() && v.streams[id - 1].resolved_at is Some
            && v.streams[id - 1].claimed < v.streams[id - 1].deposited ==> v.top_up_outcome(
            id,
            payer,
            amount,
        ) == Err::<MicroPayView, MicroPayError>(MicroPayError::TopUpResolved),
        amount > 0 && 1 <= id <= v.streams.len() && !(v.streams[id - 1].resolved_at is Some
            && v.streams[id - 1].claimed < v.streams[id - 1].deposited) && v.streams[id - 1].payer
            != payer ==> v.top_up_outcome(id, payer, amount) == Err::<MicroPayView, MicroPayError>(
            MicroPayError::NotPayerTopUp,
        ),
        amount > 0 && 1 <= id <= v.streams.len() && !(v.streams[id - 1].resolved_at is Some
            && v.streams[id - 1].claimed < v.streams[id - 1].deposited) && v.streams[id - 1].payer
            == payer ==> (v.top_up_outcome(id, payer, amount) matches Ok(after) && {
            let s = v.streams[id - 1];
            let t = after.streams[id - 1];
            &&& after.streams.len() == v.streams.len()
            &&& forall|j: int|
                0 <= j < v.streams.len() && j != id - 1 ==> after.streams[j] == v.streams[j]
            &&& t.deposited == s.deposited + amount
            &&& t.claimed == s.claimed
            &&& t.rate_per_ledger == s.rate_per_ledger
            &&& t.start_ledger == s.start_ledger
            &&& t.payer == s.payer
            &&& t.recipient == s.recipient
            &&& t.resolved_at == None::<u64>
            &&& after.commitments == v.commitments
            &&& after.merkle_root == v.merkle_root
            &&& (s.deposited + amount <= i128::MAX ==> after.valid())
        }),
{
    if amount > 0 && 1 <= id <= v.streams.len() && !(v.streams[id - 1].resolved_at is Some
        && v.streams[id - 1].claimed < v.streams[id - 1].deposited) && v.streams[id - 1].payer
        == payer {
        let s = v.streams[id - 1];
        assert(s.valid());
        if s.deposited + amount <= i128::MAX {
            crate::model::lemma_with_stream_valid(
                v,
                id,
                StreamView { deposited: s.deposited + amount, resolved_at: None, ..s },
            );
        }
    }
}

/// What closing refunds at ledger `now`: the deposit less the larger of what
/// has been released (rate times the ledgers elapsed, nothing before the
/// start) and what has been claimed, and never less than nothing.
pub open spec fn unreleased_unclaimed(s: StreamView, now: u32) -> int {
    let released = if now > s.start_ledger {
        s.rate_per_ledger * (now - s.start_ledger)
    } else {
        0
    };
    let spent = if released > s.claimed {
        released
    } else {
        s.claimed
    };
    if s.deposited - spent > 0 {
        s.deposited - spent
    } else {
        0
    }
}

/// Closing refuses an unknown stream, then anyone but the payer, then a
/// resolved stream. Otherwise it refunds the deposit that is neither
/// released nor claimed, resolves the stream at the closing time, and
/// changes nothing else.
pub proof fn law_close_stream_result(v: MicroPayView, id: u32, payer: Seq<u8>, now: u32, timestamp: u64)
    requires
        v.valid(),
    ensures
        !(1 <= id <= v.streams.len()) ==> v.close_outcome(id, payer, now, timestamp) == Err::<
            (MicroPayView, int),
            MicroPayError,
        >(MicroPayError::StreamNotFound),
        1 <= id <= v.streams.len() && v.streams[id - 1].payer != payer ==> v.close_outcome(
            id,
            payer,
            now,
            timestamp,
        ) == Err::<(MicroPayView, int), MicroPayError>(MicroPayError::NotPayerClose),
        1 <= id <= v.streams.len() && v.streams[id - 1].payer == payer && v.streams[id
            - 1].resolved_at is Some ==> v.close_outcome(id, payer, now, timestamp) == Err::<
            (MicroPayView, int),
            MicroPayError,
        >(MicroPayError::AlreadyResolved),
        1 <= id <= v.streams.len() && v.streams[id - 1].payer == payer && v.streams[id
            - 1].resolved_at is None ==> (v.close_outcome(id, payer, now, timestamp) matches Ok(
            (after, refund),
        ) && {
            let s = v.streams[id - 1];
            let t = after.streams[id - 1];
            &&& refund == unreleased_unclaimed(s, now)
            &&& 0 <= refund <= s.deposited - s.claimed
            &&& after.streams.len() == v.streams.len()
            &&& forall|j: int|
                0 <= j < v.streams.len() && j != id - 1 ==> after.streams[j] == v.streams[j]
            &&& t.deposited == s.deposited
            &&& t.claimed == s.claimed
            &&& t.rate_per_ledger == s.rate_per_ledger
            &&& t.start_ledger == s.start_ledger
            &&& t.payer == s.payer
            &&& t.recipient == s.recipient
            &&& t.resolved_at == Some(timestamp)
            &&& after.commitments == v.commitments
            &&& after.merkle_root == v.merkle_root
            &&& after.valid()
        }),
{
    if 1 <= id <= v.streams.len() && v.streams[id - 1].payer == payer && v.streams[id
        - 1].resolved_at is None {
        let s = v.streams[id - 1];
        assert(s.valid());
        crate::model::lemma_streamed_nonnegative(s, now);
        if now > s.start_ledger {
            assert(s.streamed(now) == s.rate_per_ledger * (now - s.start_ledger));
        } else {
            assert(s.streamed(now) == s.rate_per_ledger * 0);
            assert(s.rate_per_ledger * 0 == 0) by (nonlinear_arith);
        }
        crate::model::lemma_with_stream_valid(v, id, StreamView { resolved_at: Some(timestamp), ..s });
    }
}

/// `hashes` starts at `start` and takes one step per element of `path`:
/// each hash is SHA-256 of the one before followed by that element.
pub open spec fn hash_chain(start: Seq<u8>, path: Seq<Seq<u8>>, hashes: Seq<Seq<u8>>) -> bool {
    &&& hashes.len() == path.len() + 1
    &&& hashes[0] == start
    &&& forall|k: int|
        #![trigger path[k]]
        0 <= k < path.len() ==> hashes[k + 1] == sha256_of(hashes[k] + path[k])
}

proof fn lemma_fold_step(leaf: Seq<u8>, path: Seq<Seq<u8>>, i: int)
    requires
        0 <= i < path.len(),
    ensures
        fold_path(leaf, path.take(i + 1)) == sha256_of(fold_path(leaf, path.take(i)) + path[i]),
{
    assert(path.take(i + 1).drop_last() =~= path.take(i));
    assert(path.take(i + 1).last() == path[i]);
}

proof fn lemma_chain_follows_fold(leaf: Seq<u8>, path: Seq<Seq<u8>>, hashes: Seq<Seq<u8>>, k: int)
    requires
        hash_chain(leaf, path, hashes),
        0 <= k <= path.len(),
    ensures
        hashes[k] == fold_path(leaf, path.take(k)),
    decreases k,
{
    if k == 0 {
        assert(path.take(0) =~= Seq::<Seq<u8>>::empty());
    } else {
        lemma_chain_follows_fold(leaf, path, hashes, k - 1);
        lemma_fold_step(leaf, path, k - 1);
        assert(path[k - 1] == path[k - 1]);
    }
}

/// The hash chain from `leaf` along `path` exists and ends at the folded hash.
proof fn lemma_fold_is_chain(leaf: Seq<u8>, path: Seq<Seq<u8>>)
    ensures
        ({
            let hashes = Seq::new(path.len() + 1, |i: int| fold_path(leaf, path.take(i)));
            hash_chain(leaf, path, hashes) && hashes.last() == fold_path(leaf, path)
        }),
{
    let hashes = Seq::new(path.len() + 1, |i: int| fold_path(leaf, path.take(i)));
    assert(path.take(0) =~= Seq::<Seq<u8>>::empty());
    assert forall|k: int| #![trigger path[k]] 0 <= k < path.len() implies hashes[k + 1] == sha256_of(
        hashes[k] + path[k],
    ) by {
        lemma_fold_step(leaf, path, k);
    }
    assert(path.take(path.len() as int) =~= path);
}

/// A Merkle path from `leaf` reaches the root exactly when hashing `leaf`
/// along the path, element by element, gives the current root.
pub proof fn law_merkle_path_result(v: MicroPayView, leaf: Seq<u8>, path: Seq<Seq<u8>>)
    ensures
        v.path_reaches_root(leaf, path) <==> exists|hashes: Seq<Seq<u8>>|
            hash_chain(leaf, path, hashes) && v.merkle_root == Some(hashes.last()),
{
    lemma_fold_is_chain(leaf, path);
    let witness = Seq::new(path.len() + 1, |i: int| fold_path(leaf, path.take(i)));
    if v.path_reaches_root(leaf, path) {
        assert(hash_chain(leaf, path, witness) && v.merkle_root == Some(witness.last()));
    }
    if exists|hashes: Seq<Seq<u8>>|
        hash_chain(leaf, path, hashes) && v.merkle_root == Some(hashes.last()) {
        let hashes = choose|hashes: Seq<Seq<u8>>|
            hash_chain(leaf, path, hashes) && v.merkle_root == Some(hashes.last());
        lemma_chain_follows_fold(leaf, path, hashes, path.len() as int);
        assert(path.take(path.len() as int) =~= path);
    }
}

proof fn lemma_latest_is_some(s: Seq<CommitmentView>, hash: Seq<u8>)
    ensures
        latest_with_hash(s, hash) is Some <==> exists|i: int|
            0 <= i < s.len() && #[trigger] s[i].commitment_hash == hash,
        latest_with_hash(s, hash) matches Some(c) ==> exists|i: int|
            0 <= i < s.len() && s[i] == c && c.commitment_hash == hash && forall|j: int|
                i < j < s.len() ==> #[trigger] s[j].commitment_hash != hash,
    decreases s.len(),
{
    if s.len() > 0 {
        let rest = s.drop_last();
        lemma_latest_is_some(rest, hash);
        let last = s.len() - 1;
        if s.last().commitment_hash == hash {
            assert(s[last].commitment_hash == hash);
        } else {
            assert forall|i: int| 0 <= i < rest.len() implies rest[i] == s[i] by {}
            if exists|i: int| 0 <= i < s.len() && #[trigger] s[i].commitment_hash == hash {
                let i = choose|i: int| 0 <= i < s.len() && #[trigger] s[i].commitment_hash == hash;
                assert(i != last);
                assert(rest[i].commitment_hash == hash);
            }
            if let Some(c) = latest_with_hash(rest, hash) {
                let i = choose|i: int|
                    0 <= i < rest.len() && rest[i] == c && c.commitment_hash == hash && forall|j: int|
                        i < j < rest.len() ==> #[trigger] rest[j].commitment_hash != hash;
                assert(s[i] == c);
                assert forall|j: int| i < j < s.len() implies #[trigger] s[j].commitment_hash != hash by {
                    if j < last {
                        assert(rest[j] == s[j]);
                    }
                }
            }
        }
    }
}

/// The commitment on record under a hash is the most recent commitment made
/// with that hash; there is one exactly when some commitment used the hash.
pub proof fn law_commitment_lookup_result(v: MicroPayView, hash: Seq<u8>)
    ensures
        v.commitment(hash) is Some <==> exists|i: int|
            0 <= i < v.commitments.len() && #[trigger] v.commitments[i].commitment_hash == hash,
        v.commitment(hash) matches Some(c) ==> exists|i: int|
            0 <= i < v.commitments.len() && v.commitments[i] == c && c.commitment_hash == hash
                && forall|j: int|
                i < j < v.commitments.len() ==> #[trigger] v.commitments[j].commitment_hash != hash,
{
    lemma_latest_is_some(v.commitments, hash);
}

/// A payment proof is accepted exactly when its commitment hash was
/// committed, hashing that commitment hash along the proof's Merkle path
/// element by element gives the current root, the commitment hash is
/// SHA-256 of the proof's amount (16 little-endian bytes) and salt, that
/// amount is at least the minimum, and the amount hash is SHA-256 of the
/// minimum and the same salt.
pub proof fn law_payment_proof_result(
    v: MicroPayView,
    hash: Seq<u8>,
    amount_hash: Seq<u8>,
    salt: Seq<u8>,
    amount: i128,
    path: Seq<Seq<u8>>,
    minimum_amount: i128,
)
    ensures
        v.payment_verified(hash, amount_hash, salt, amount, path, minimum_amount) <==> {
            &&& exists|i: int|
                0 <= i < v.commitments.len() && #[trigger] v.commitments[i].commitment_hash == hash
            &&& exists|hashes: Seq<Seq<u8>>|
                hash_chain(hash, path, hashes) && v.merkle_root == Some(hashes.last())
            &&& hash == sha256_of(i128_le_bytes(amount) + salt)
            &&& amount >= minimum_amount
            &&& amount_hash == sha256_of(i128_le_bytes(minimum_amount) + salt)
        },
{
    law_merkle_path_result(v, hash, path);
    law_commitment_lookup_result(v, hash);
}

/// Committing refuses a nullifier that an earlier commitment spent.
/// Otherwise it appends the commitment with its hash, time and nullifier,
/// returns the next id, makes the new root the hash itself when there was
/// none and SHA-256 of the old root followed by the hash otherwise, and
/// leaves the streams alone.
pub proof fn law_commit_payment_result(v: MicroPayView, hash: Seq<u8>, nullifier: Seq<u8>, timestamp: u64)
    requires
        v.valid(),
    ensures
        (exists|i: int| 0 <= i < v.commitments.len() && #[trigger] v.commitments[i].nullifier == nullifier)
            ==> v.commit_outcome(hash, nullifier, timestamp) == Err::<(MicroPayView, int), MicroPayError>(
            MicroPayError::NullifierUsed,
        ),
        !(exists|i: int| 0 <= i < v.commitments.len() && #[trigger] v.commitments[i].nullifier == nullifier)
            && v.commitments.len() < u32::MAX ==> (v.commit_outcome(hash, nullifier, timestamp) matches Ok(
            (after, id),
        ) && {
            &&& id == v.commitments.len() + 1
            &&& after.commitments.len() == v.commitments.len() + 1
            &&& forall|j: int| 0 <= j < v.commitments.len() ==> after.commitments[j] == v.commitments[j]
            &&& after.commitments[id - 1] == CommitmentView {
                commitment_hash: hash,
                timestamp,
                nullifier,
            }
            &&& after.merkle_root == (match v.merkle_root {
                None => Some(hash),
                Some(root) => Some(sha256_of(root + hash)),
            })
            &&& after.streams == v.streams
            &&& after.valid()
        }),
{
    if !(exists|i: int| 0 <= i < v.commitments.len() && #[trigger] v.commitments[i].nullifier == nullifier)
        && v.commitments.len() < u32::MAX {
        let (after, id) = v.commit_outcome(hash, nullifier, timestamp).unwrap();
        assert(after.committed_hashes() =~= v.committed_hashes().push(hash));
        assert(after.committed_hashes().drop_last() =~= v.committed_hashes());
        assert forall|i: int, j: int|
            0 <= i < j < after.commitments.len() implies #[trigger] after.commitments[i].nullifier
            != #[trigger] after.commitments[j].nullifier by {
            assert(after.commitments[i] == v.commitments[i]);
            if j < v.commitments.len() {
                assert(after.commitments[j] == v.commitments[j]);
            }
        }
    }
}

proof fn lemma_le_digit(v: nat, n: nat, k: int)
    requires
        0 <= k < n,
    ensures
        le_digits(v, n).len() == n,
        le_digits(v, n)[k] == (v as int / pow(256, k as nat)) % 256,
    decreases n,
{
    reveal(pow);
    let rest = le_digits(v / 256, (n - 1) as nat);
    if n > 1 {
        lemma_le_digit(v / 256, (n - 1) as nat, 0);
    }
    if k == 0 {
        assert(pow(256, 0) == 1);
    } else {
        lemma_le_digit(v / 256, (n - 1) as nat, k - 1);
        lemma_pow_positive(256, (k - 1) as nat);
        lemma_div_denominator(v as int, 256, pow(256, (k - 1) as nat));
        assert(pow(256, k as nat) == 256 * pow(256, (k - 1) as nat));
        assert(le_digits(v, n)[k] == rest[k - 1]);
    }
}

/// An amount is hashed by its 16 little-endian two's-complement bytes: byte
/// `k` is digit `k` in base 256 of the amount, taken modulo 2^128.
pub proof fn law_amount_bytes_result(x: i128, k: int)
    requires
        0 <= k < 16,
    ensures
        i128_le_bytes(x).len() == 16,
        i128_le_bytes(x)[k] == ((if x >= 0 {
            x as int
        } else {
            x + 0x1_0000_0000_0000_0000_0000_0000_0000_0000int
        }) / pow(256, k as nat)) % 256,
{
    lemma_le_digit(crate::bytes::twos_complement(x), 16, k);
}

/// The commitment hash of an amount under a salt is SHA-256 of the amount's
/// 16 little-endian bytes followed by the salt.
pub proof fn law_commitment_hash_result(amount: i128, salt: Seq<u8>)
    ensures
        amount_commitment(amount, salt) == sha256_of(i128_le_bytes(amount) + salt),
{
}

/// A stored stream keeps the protocol's rules: a positive rate, a claimed
/// amount between zero and the deposit, a deposit that fits in 128 bits,
/// and part of the deposit unclaimed while unresolved.
pub open spec fn stored_stream_ok(s: StreamView) -> bool {
    &&& s.rate_per_ledger > 0
    &&& 0 <= s.claimed <= s.deposited
    &&& s.deposited <= 0x7fff_ffff_ffff_ffff_ffff_ffff_ffff_ffff
    &&& s.resolved_at is None ==> s.claimed < s.deposited
}

/// Stored streams and commitments are accepted (by `restore`) exactly when
/// there are at most 2^32 - 1 of each, every stream keeps the protocol's rules, and
/// no two commitments share a nullifier.
pub proof fn law_stored_parts_accepted(streams: Seq<StreamView>, commitments: Seq<CommitmentView>)
    ensures
        parts_valid(streams, commitments) <==> {
            &&& streams.len() <= 0xffff_ffff
            &&& commitments.len() <= 0xffff_ffff
            &&& forall|i: int| 0 <= i < streams.len() ==> stored_stream_ok(#[trigger] streams[i])
            &&& forall|i: int, j: int|
                0 <= i < j < commitments.len() ==> #[trigger] commitments[i].nullifier
                    != #[trigger] commitments[j].nullifier
        },
{
    assert forall|i: int| 0 <= i < streams.len() implies stored_stream_ok(#[trigger] streams[i])
        == streams[i].valid() by {}
}

} // verus!
