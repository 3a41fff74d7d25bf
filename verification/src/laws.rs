//! Properties of the contract that span several entry points or calls,
//! stated over the model of the ledger state and proved.
use vstd::prelude::*;
use crate::model::{
    amount_commitment, chain_root, fold_path, max_int, min_int, MicroPayError, MicroPayView,
    StreamView,
};

verus! {

/// A successful claim pays exactly what `get_claimable` reports for the same
/// stream and ledger.
pub proof fn law_claim_pays_claimable(
    v: MicroPayView,
    id: u32,
    recipient: Seq<u8>,
    now: u32,
    timestamp: u64,
)
    ensures
        v.claim_outcome(id, recipient, now, timestamp) matches Ok((_, amount)) ==> v.claimable_outcome(
            id,
            now,
        ) == Ok::<int, MicroPayError>(amount),
{
}

/// After a successful claim nothing more is claimable at the same ledger.
pub proof fn law_claim_drains_claimable(
    v: MicroPayView,
    id: u32,
    recipient: Seq<u8>,
    now: u32,
    timestamp: u64,
)
    requires
        v.valid(),
    ensures
        v.claim_outcome(id, recipient, now, timestamp) matches Ok((after, _)) ==> after.claimable_outcome(
            id,
            now,
        ) == Ok::<int, MicroPayError>(0),
{
    if let Ok((after, amount)) = v.claim_outcome(id, recipient, now, timestamp) {
        let s = v.stream(id);
        assert(s.valid());
        assert(after.stream(id) == s.after_claim(amount, timestamp));
    }
}

/// A claim that pays something resolves the stream, at the claim's time,
/// exactly when it empties the deposit; otherwise the stream stays open.
pub proof fn law_claim_resolves_when_emptied(
    v: MicroPayView,
    id: u32,
    recipient: Seq<u8>,
    now: u32,
    timestamp: u64,
)
    requires
        v.valid(),
    ensures
        v.claim_outcome(id, recipient, now, timestamp) matches Ok((after, amount)) ==> {
            &&& after.stream(id).claimed == v.stream(id).claimed + amount
            &&& after.stream(id).claimed <= after.stream(id).deposited
            &&& (after.stream(id).claimed == after.stream(id).deposited ==> after.stream(
                id,
            ).resolved_at == Some(timestamp))
            &&& (after.stream(id).claimed < after.stream(id).deposited ==> after.stream(
                id,
            ).resolved_at is None)
        },
{
    if let Ok((after, amount)) = v.claim_outcome(id, recipient, now, timestamp) {
        assert(v.stream(id).valid());
        assert(after.stream(id) == v.stream(id).after_claim(amount, timestamp));
    }
}

/// A resolved stream, whether fully claimed or closed, pays nothing more to
/// its recipient until its payer tops it up.
pub proof fn law_resolved_stream_refuses_claims(
    v: MicroPayView,
    id: u32,
    recipient: Seq<u8>,
    now: u32,
    timestamp: u64,
)
    requires
        v.has_stream(id),
        v.stream(id).is_resolved(),
    ensures
        v.claim_outcome(id, recipient, now, timestamp) == Err::<(MicroPayView, int), MicroPayError>(
            MicroPayError::ClaimFromResolved,
        ),
{
}

/// Once a stream is closed it accepts no further claim, close or top-up, and
/// its resolution time is the time of closing.
pub proof fn law_closed_stream_is_final(
    v: MicroPayView,
    id: u32,
    payer: Seq<u8>,
    now: u32,
    timestamp: u64,
    recipient: Seq<u8>,
    later_ledger: u32,
    later_time: u64,
    amount: int,
)
    requires
        v.valid(),
    ensures
        v.close_outcome(id, payer, now, timestamp) matches Ok((after, _)) ==> {
            &&& after.stream(id).resolved_at == Some(timestamp)
            &&& after.claim_outcome(id, recipient, later_ledger, later_time) == Err::<
                (MicroPayView, int),
                MicroPayError,
            >(MicroPayError::ClaimFromResolved)
            &&& after.close_outcome(id, payer, later_ledger, later_time) == Err::<
                (MicroPayView, int),
                MicroPayError,
            >(MicroPayError::AlreadyResolved)
            &&& amount > 0 ==> after.top_up_outcome(id, payer, amount) == Err::<
                MicroPayView,
                MicroPayError,
            >(MicroPayError::TopUpResolved)
        },
{
    if let Ok((after, _)) = v.close_outcome(id, payer, now, timestamp) {
        assert(v.stream(id).valid());
        assert(after.stream(id) == StreamView { resolved_at: Some(timestamp), ..v.stream(id) });
    }
}

/// Topping up a stream that was resolved by being fully claimed makes it
/// active again with the larger deposit and the same claimed amount.
pub proof fn law_top_up_reactivates_emptied_stream(
    v: MicroPayView,
    id: u32,
    payer: Seq<u8>,
    amount: int,
)
    requires
        v.valid(),
        v.has_stream(id),
        v.stream(id).is_resolved(),
        v.stream(id).claimed == v.stream(id).deposited,
        v.stream(id).payer == payer,
        amount > 0,
    ensures
        v.top_up_outcome(id, payer, amount) matches Ok(after) && {
            &&& after.stream(id).resolved_at is None
            &&& after.stream(id).deposited == v.stream(id).deposited + amount
            &&& after.stream(id).claimed == v.stream(id).claimed
        },
{
}

/// Claims and top-ups and closes touch only the stream they name.
pub proof fn law_other_streams_unchanged(
    v: MicroPayView,
    id: u32,
    other: u32,
    who: Seq<u8>,
    now: u32,
    timestamp: u64,
    amount: int,
)
    requires
        v.has_stream(other),
        other != id,
    ensures
        v.claim_outcome(id, who, now, timestamp) matches Ok((after, _)) ==> after.stream(other)
            == v.stream(other),
        v.close_outcome(id, who, now, timestamp) matches Ok((after, _)) ==> after.stream(other)
            == v.stream(other),
        v.top_up_outcome(id, who, amount) matches Ok(after) ==> after.stream(other) == v.stream(
            other,
        ),
{
}

/// Only a stream's recipient can claim from it, and only its payer can top it
/// up or close it.
pub proof fn law_only_parties_act(
    v: MicroPayView,
    id: u32,
    who: Seq<u8>,
    now: u32,
    timestamp: u64,
    amount: int,
)
    ensures
        v.claim_outcome(id, who, now, timestamp) is Ok ==> v.stream(id).recipient == who,
        v.close_outcome(id, who, now, timestamp) is Ok ==> v.stream(id).payer == who,
        v.top_up_outcome(id, who, amount) is Ok ==> v.stream(id).payer == who,
{
}

/// What a stream pays out never exceeds its deposit: the claimable amount
/// and the refund on closing both lie within the unclaimed deposit.
pub proof fn law_payouts_within_deposit(v: MicroPayView, id: u32, payer: Seq<u8>, now: u32, timestamp: u64)
    requires
        v.valid(),
        v.has_stream(id),
    ensures
        0 <= v.stream(id).claimable(now) <= v.stream(id).deposited - v.stream(id).claimed,
        v.close_outcome(id, payer, now, timestamp) matches Ok((_, refund)) ==> 0 <= refund
            <= v.stream(id).deposited - v.stream(id).claimed,
{
    assert(v.stream(id).valid());
    crate::model::lemma_streamed_nonnegative(v.stream(id), now);
}

/// A newly opened stream gets the next id and starts unresolved, with nothing
/// claimed, from the ledger it was opened at.
pub proof fn law_opened_stream_is_recorded(
    v: MicroPayView,
    payer: Seq<u8>,
    recipient: Seq<u8>,
    rate: int,
    deposit: int,
    now: u32,
)
    requires
        v.valid(),
        v.streams.len() < u32::MAX,
    ensures
        v.open_outcome(payer, recipient, rate, deposit, now) matches Ok((after, id)) ==> {
            &&& id == v.streams.len() + 1
            &&& after.has_stream(id as u32)
            &&& after.stream(id as u32) == StreamView {
                payer,
                recipient,
                rate_per_ledger: rate,
                deposited: deposit,
                claimed: 0,
                start_ledger: now,
                resolved_at: None,
            }
        },
{
}

/// A nullifier can be spent only once: after a commitment spends it, every
/// later commitment with it is refused.
pub proof fn law_nullifier_single_use(
    v: MicroPayView,
    hash: Seq<u8>,
    nullifier: Seq<u8>,
    timestamp: u64,
    other_hash: Seq<u8>,
    other_time: u64,
)
    ensures
        v.commit_outcome(hash, nullifier, timestamp) matches Ok((after, _)) ==> after.commit_outcome(
            other_hash,
            nullifier,
            other_time,
        ) == Err::<(MicroPayView, int), MicroPayError>(MicroPayError::NullifierUsed),
{
    if let Ok((after, _)) = v.commit_outcome(hash, nullifier, timestamp) {
        let last = v.commitments.len() as int;
        assert(after.commitments[last].nullifier == nullifier);
        assert(after.nullifier_used(nullifier));
    }
}

/// A commitment is on record right after it is made, and the root then
/// commits to every committed hash in order.
pub proof fn law_commitment_recorded(v: MicroPayView, hash: Seq<u8>, nullifier: Seq<u8>, timestamp: u64)
    requires
        v.valid(),
    ensures
        v.commit_outcome(hash, nullifier, timestamp) matches Ok((after, id)) ==> {
            &&& id == v.commitments.len() + 1
            &&& after.commitment(hash) matches Some(c) && c.nullifier == nullifier
                && c.timestamp == timestamp
            &&& after.merkle_root == chain_root(after.committed_hashes())
        },
{
    if let Ok((after, _)) = v.commit_outcome(hash, nullifier, timestamp) {
        assert(after.commitments.drop_last() =~= v.commitments);
        assert(after.committed_hashes() =~= v.committed_hashes().push(hash));
        assert(after.committed_hashes().drop_last() =~= v.committed_hashes());
    }
}

/// On a contract with no commitments yet, a payment committed as
/// `amount_commitment(amount, salt)` is verified, against any minimum the
/// amount covers, by a proof with an empty path that opens it with `amount`
/// and `salt` and whose amount hash commits to the minimum.
pub proof fn law_first_commitment_verifies(
    v: MicroPayView,
    nullifier: Seq<u8>,
    timestamp: u64,
    amount: i128,
    salt: Seq<u8>,
    minimum_amount: i128,
)
    requires
        v.valid(),
        v.commitments.len() == 0,
        amount >= minimum_amount,
    ensures
        v.commit_outcome(amount_commitment(amount, salt), nullifier, timestamp) matches Ok((after, _))
            && after.payment_verified(
            amount_commitment(amount, salt),
            amount_commitment(minimum_amount, salt),
            salt,
            amount,
            Seq::empty(),
            minimum_amount,
        ),
{
    let hash = amount_commitment(amount, salt);
    assert(v.committed_hashes() =~= Seq::<Seq<u8>>::empty());
    assert(!v.nullifier_used(nullifier));
    let (after, _) = v.commit_outcome(hash, nullifier, timestamp).unwrap();
    assert(after.commitments.drop_last() =~= v.commitments);
    assert(fold_path(hash, Seq::empty()) == hash);
}

/// A proof is accepted only for a commitment on record that it opens to an
/// amount covering the minimum, with an amount hash that commits to the
/// minimum under the same salt.
pub proof fn law_verification_binds_commitment(
    v: MicroPayView,
    hash: Seq<u8>,
    amount_hash: Seq<u8>,
    salt: Seq<u8>,
    amount: i128,
    path: Seq<Seq<u8>>,
    minimum_amount: i128,
)
    ensures
        v.payment_verified(hash, amount_hash, salt, amount, path, minimum_amount) ==> {
            &&& v.commitment(hash) is Some
            &&& v.merkle_root is Some
            &&& hash == amount_commitment(amount, salt)
            &&& amount >= minimum_amount
            &&& amount_hash == amount_commitment(minimum_amount, salt)
        },
{
}

/// Nothing is claimable from a resolved stream.
pub proof fn law_resolved_stream_has_nothing_claimable(v: MicroPayView, id: u32, now: u32)
    requires
        v.has_stream(id),
        v.stream(id).is_resolved(),
    ensures
        v.claimable_outcome(id, now) == Ok::<int, MicroPayError>(0),
{
}

} // verus!
