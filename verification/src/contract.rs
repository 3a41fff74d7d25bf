//! The micropayment contract: payment streams that release a deposit per
//! ledger, and payment commitments folded into a running root.
use vstd::prelude::*;
use crate::bytes::{bytes_eq, concat_bytes, i128_to_le_bytes, sha256};
use crate::model::{
    amount_commitment, chain_root, fold_path, latest_with_hash, lemma_with_stream_valid, next_root,
    parts_valid,
    CommitmentView, MicroPayError, MicroPayView, StreamView,
};

verus! {

/// An account or contract address, held as its key bytes.
#[derive(Clone, Debug, PartialEq, Eq)]
pub struct Address {
    pub key: Vec<u8>,
}

impl View for Address {
    type V = Seq<u8>;

    open spec fn view(&self) -> Seq<u8> {
        self.key@
    }
}

impl Address {
    pub fn new(key: Vec<u8>) -> (a: Address)
        ensures
            a@ == key@,
    {
        Address { key }
    }

    /// Whether both values name the same address.
    pub fn same_as(&self, other: &Address) -> (same: bool)
        ensures
            same == (self@ == other@),
    {
        bytes_eq(self.key.as_slice(), other.key.as_slice())
    }

    /// A copy of this address.
    pub fn duplicate(&self) -> (copy: Address)
        ensures
            copy@ == self@,
    {
        Address { key: self.key.clone() }
    }
}

/// A payment stream as the contract stores it.
#[derive(Clone, Debug, PartialEq, Eq)]
pub struct Stream {
    pub payer: Address,
    pub recipient: Address,
    pub rate_per_ledger: i128,
    pub deposited: i128,
    pub claimed: i128,
    pub start_ledger: u32,
    /// When the stream was fully claimed or closed.
    pub resolved_at: Option<u64>,
}

impl View for Stream {
    type V = StreamView;

    open spec fn view(&self) -> StreamView {
        StreamView {
            payer: self.payer@,
            recipient: self.recipient@,
            rate_per_ledger: self.rate_per_ledger as int,
            deposited: self.deposited as int,
            claimed: self.claimed as int,
            start_ledger: self.start_ledger,
            resolved_at: self.resolved_at,
        }
    }
}

impl Stream {
    /// A copy of this stream.
    pub fn duplicate(&self) -> (copy: Stream)
        ensures
            copy@ == self@,
    {
        Stream {
            payer: self.payer.duplicate(),
            recipient: self.recipient.duplicate(),
            rate_per_ledger: self.rate_per_ledger,
            deposited: self.deposited,
            claimed: self.claimed,
            start_ledger: self.start_ledger,
            resolved_at: self.resolved_at,
        }
    }

    /// Everything released by ledger `current_ledger`.
    fn streamed_at(&self, current_ledger: u32) -> (total: i128)
        requires
            self@.valid(),
            self@.streamed(current_ledger) <= i128::MAX,
        ensures
            total == self@.streamed(current_ledger),
            total >= 0,
    {
        proof {
            crate::model::lemma_streamed_nonnegative(self@, current_ledger);
        }
        let elapsed_ledgers: u32 = if current_ledger > self.start_ledger {
            current_ledger - self.start_ledger
        } else {
            0
        };
        self.rate_per_ledger * (elapsed_ledgers as i128)
    }
}

/// A payment commitment as the contract stores it.
#[derive(Clone, Copy, Debug, PartialEq, Eq)]
pub struct PaymentCommitment {
    pub commitment_hash: [u8; 32],
    pub timestamp: u64,
    pub nullifier: [u8; 32],
}

impl View for PaymentCommitment {
    type V = CommitmentView;

    open spec fn view(&self) -> CommitmentView {
        CommitmentView {
            commitment_hash: self.commitment_hash@,
            timestamp: self.timestamp,
            nullifier: self.nullifier@,
        }
    }
}

/// A proof that a committed payment covers an amount.
#[derive(Clone, Debug, PartialEq, Eq)]
pub struct ZKProof {
    pub commitment_hash: [u8; 32],
    pub amount_hash: [u8; 32],
    pub salt: [u8; 32],
    /// The committed amount that `commitment_hash` opens to under `salt`.
    pub amount: i128,
    pub merkle_proof: Vec<[u8; 32]>,
    pub leaf_index: u32,
}

/// The hashes of a proof path as byte strings.
pub open spec fn path_view(path: Seq<[u8; 32]>) -> Seq<Seq<u8>> {
    path.map_values(|p: [u8; 32]| p@)
}

/// The contract together with its ledger state.
pub struct StellarMicroPay {
    streams: Vec<Stream>,
    commitments: Vec<PaymentCommitment>,
    merkle_root: Option<[u8; 32]>,
}

impl View for StellarMicroPay {
    type V = MicroPayView;

    closed spec fn view(&self) -> MicroPayView {
        MicroPayView {
            streams: self.streams@.map_values(|s: Stream| s@),
            commitments: self.commitments@.map_values(|c: PaymentCommitment| c@),
            merkle_root: match self.merkle_root {
                Some(r) => Some(r@),
                None => None,
            },
        }
    }
}

impl StellarMicroPay {
    /// The contract state satisfies the protocol's invariants.
    pub open spec fn wf(&self) -> bool {
        self@.valid()
    }

    /// A contract with no streams and no commitments.
    pub fn new() -> (c: StellarMicroPay)
        ensures
            c.wf(),
            c@ == MicroPayView::empty(),
    {
        let c = StellarMicroPay { streams: Vec::new(), commitments: Vec::new(), merkle_root: None };
        assert(c@.streams =~= Seq::<StreamView>::empty());
        assert(c@.commitments =~= Seq::<CommitmentView>::empty());
        assert(c@.committed_hashes() =~= Seq::<Seq<u8>>::empty());
        c
    }

    /// Open a new payment stream funded by `payer` for `recipient`, starting
    /// at `current_ledger`; returns the new stream's id. The caller moves
    /// `deposit` from the payer to the contract.
    pub fn open_stream(
        &mut self,
        payer: Address,
        recipient: Address,
        rate_per_ledger: i128,
        deposit: i128,
        current_ledger: u32,
    ) -> (r: Result<u32, MicroPayError>)
        requires
            old(self).wf(),
            rate_per_ledger > 0 && deposit > 0 ==> old(self)@.streams.len() < u32::MAX,
        ensures
            final(self).wf(),
            match old(self)@.open_outcome(
                payer@,
                recipient@,
                rate_per_ledger as int,
                deposit as int,
                current_ledger,
            ) {
                Ok((v, id)) => final(self)@ == v && r == Ok::<u32, MicroPayError>(id as u32),
                Err(e) => final(self)@ == old(self)@ && r == Err::<u32, MicroPayError>(e),
            },
    {
        if rate_per_ledger <= 0 {
            return Err(MicroPayError::RateNotPositive);
        }
        if deposit <= 0 {
            return Err(MicroPayError::DepositNotPositive);
        }
        let counter: u32 = self.streams.len() as u32 + 1;
        let stream = Stream {
            payer,
            recipient,
            rate_per_ledger,
            deposited: deposit,
            claimed: 0,
            start_ledger: current_ledger,
            resolved_at: None,
        };
        let ghost sv = stream@;
        self.streams.push(stream);
        assert(self@.streams =~= old(self)@.streams.push(sv));
        assert(self@.commitments =~= old(self)@.commitments);
        Ok(counter)
    }

    /// Claim what stream `stream_id` has released to `recipient` by ledger
    /// `current_ledger`; returns the amount, which the caller pays out. A
    /// claim that empties the deposit resolves the stream at `timestamp`.
    pub fn claim_stream(
        &mut self,
        stream_id: u32,
        recipient: &Address,
        current_ledger: u32,
        timestamp: u64,
    ) -> (r: Result<i128, MicroPayError>)
        requires
            old(self).wf(),
            old(self)@.has_stream(stream_id) && !old(self)@.stream(stream_id).is_resolved()
                && old(self)@.stream(stream_id).recipient == recipient@ ==> old(self)@.stream(
                stream_id,
            ).streamed(current_ledger) <= i128::MAX,
        ensures
            final(self).wf(),
            match old(self)@.claim_outcome(stream_id, recipient@, current_ledger, timestamp) {
                Ok((v, amount)) => final(self)@ == v && r == Ok::<i128, MicroPayError>(
                    amount as i128,
                ),
                Err(e) => final(self)@ == old(self)@ && r == Err::<i128, MicroPayError>(e),
            },
    {
        if stream_id == 0 || stream_id as usize > self.streams.len() {
            return Err(MicroPayError::StreamNotFound);
        }
        let idx: usize = (stream_id - 1) as usize;
        let ghost old_view = self@;
        let ghost s = self@.streams[idx as int];
        assert(s == self.streams@[idx as int]@);
        assert(s.valid());
        if self.streams[idx].resolved_at.is_some() {
            return Err(MicroPayError::ClaimFromResolved);
        }
        if !self.streams[idx].recipient.same_as(recipient) {
            return Err(MicroPayError::NotRecipient);
        }
        let total_streamed = self.streams[idx].streamed_at(current_ledger);
        let claimable = total_streamed - self.streams[idx].claimed;
        if claimable <= 0 {
            assert(self@.streams =~= old_view.streams.update(idx as int, s));
            return Ok(0);
        }
        let remaining = self.streams[idx].deposited - self.streams[idx].claimed;
        let actual_claim = if claimable < remaining {
            claimable
        } else {
            remaining
        };
        if actual_claim <= 0 {
            assert(self@.streams =~= old_view.streams.update(idx as int, s));
            return Ok(0);
        }
        let new_claimed = self.streams[idx].claimed + actual_claim;
        let deposited = self.streams[idx].deposited;
        self.streams[idx].claimed = new_claimed;
        if new_claimed >= deposited {
            self.streams[idx].resolved_at = Some(timestamp);
        }
        assert(self@.streams =~= old_view.streams.update(
            idx as int,
            s.after_claim(actual_claim as int, timestamp),
        ));
        proof {
            lemma_with_stream_valid(old_view, stream_id, s.after_claim(actual_claim as int, timestamp));
        }
        assert(self@.commitments =~= old_view.commitments);
        Ok(actual_claim)
    }

    /// Add `amount` to the deposit of stream `stream_id`; the caller moves the
    /// amount from the payer to the contract. A stream resolved by being
    /// fully claimed becomes active again; a closed one refuses.
    pub fn top_up_stream(&mut self, stream_id: u32, payer: &Address, amount: i128) -> (r: Result<
        (),
        MicroPayError,
    >)
        requires
            old(self).wf(),
            amount > 0 && old(self)@.has_stream(stream_id) && !old(self)@.stream(
                stream_id,
            ).is_closed() && old(self)@.stream(stream_id).payer == payer@ ==> old(self)@.stream(
                stream_id,
            ).deposited + amount <= i128::MAX,
        ensures
            final(self).wf(),
            match old(self)@.top_up_outcome(stream_id, payer@, amount as int) {
                Ok(v) => final(self)@ == v && r == Ok::<(), MicroPayError>(()),
                Err(e) => final(self)@ == old(self)@ && r == Err::<(), MicroPayError>(e),
            },
    {
        if amount <= 0 {
            return Err(MicroPayError::TopUpNotPositive);
        }
        if stream_id == 0 || stream_id as usize > self.streams.len() {
            return Err(MicroPayError::StreamNotFound);
        }
        let idx: usize = (stream_id - 1) as usize;
        let ghost old_view = self@;
        let ghost s = self@.streams[idx as int];
        assert(s == self.streams@[idx as int]@);
        assert(s.valid());
        if self.streams[idx].resolved_at.is_some() && self.streams[idx].claimed
            < self.streams[idx].deposited {
            return Err(MicroPayError::TopUpResolved);
        }
        if !self.streams[idx].payer.same_as(payer) {
            return Err(MicroPayError::NotPayerTopUp);
        }
        let new_deposited = self.streams[idx].deposited + amount;
        self.streams[idx].deposited = new_deposited;
        if self.streams[idx].claimed >= new_deposited - amount {
            self.streams[idx].resolved_at = None;
        }
        assert(self@.streams =~= old_view.streams.update(
            idx as int,
            StreamView { deposited: s.deposited + amount, resolved_at: None, ..s },
        ));
        proof {
            lemma_with_stream_valid(
                old_view,
                stream_id,
                StreamView { deposited: s.deposited + amount, resolved_at: None, ..s },
            );
        }
        assert(self@.commitments =~= old_view.commitments);
        Ok(())
    }

    /// Close stream `stream_id` for its payer at ledger `current_ledger`,
    /// resolving it at `timestamp`; returns the refund, which the caller pays
    /// back to the payer.
    pub fn close_stream(
        &mut self,
        stream_id: u32,
        payer: &Address,
        current_ledger: u32,
        timestamp: u64,
    ) -> (r: Result<i128, MicroPayError>)
        requires
            old(self).wf(),
            old(self)@.has_stream(stream_id) && old(self)@.stream(stream_id).payer == payer@
                && !old(self)@.stream(stream_id).is_resolved() ==> old(self)@.stream(
                stream_id,
            ).streamed(current_ledger) <= i128::MAX,
        ensures
            final(self).wf(),
            match old(self)@.close_outcome(stream_id, payer@, current_ledger, timestamp) {
                Ok((v, refund)) => final(self)@ == v && r == Ok::<i128, MicroPayError>(
                    refund as i128,
                ),
                Err(e) => final(self)@ == old(self)@ && r == Err::<i128, MicroPayError>(e),
            },
    {
        if stream_id == 0 || stream_id as usize > self.streams.len() {
            return Err(MicroPayError::StreamNotFound);
        }
        let idx: usize = (stream_id - 1) as usize;
        let ghost old_view = self@;
        let ghost s = self@.streams[idx as int];
        assert(s == self.streams@[idx as int]@);
        assert(s.valid());
        if !self.streams[idx].payer.same_as(payer) {
            return Err(MicroPayError::NotPayerClose);
        }
        if self.streams[idx].resolved_at.is_some() {
            return Err(MicroPayError::AlreadyResolved);
        }
        let total_streamed = self.streams[idx].streamed_at(current_ledger);
        let spent = if total_streamed >= self.streams[idx].claimed {
            total_streamed
        } else {
            self.streams[idx].claimed
        };
        let refundable = self.streams[idx].deposited - spent;
        self.streams[idx].resolved_at = Some(timestamp);
        assert(self@.streams =~= old_view.streams.update(
            idx as int,
            StreamView { resolved_at: Some(timestamp), ..s },
        ));
        proof {
            lemma_with_stream_valid(old_view, stream_id, StreamView { resolved_at: Some(timestamp), ..s });
        }
        assert(self@.commitments =~= old_view.commitments);
        if refundable <= 0 {
            return Ok(0);
        }
        Ok(refundable)
    }

    /// The stream with id `stream_id`.
    pub fn get_stream(&self, stream_id: u32) -> (r: Result<Stream, MicroPayError>)
        requires
            self.wf(),
        ensures
            match r {
                Ok(s) => self@.has_stream(stream_id) && s@ == self@.stream(stream_id),
                Err(e) => !self@.has_stream(stream_id) && e == MicroPayError::StreamNotFound,
            },
    {
        if stream_id == 0 || stream_id as usize > self.streams.len() {
            return Err(MicroPayError::StreamNotFound);
        }
        let idx: usize = (stream_id - 1) as usize;
        assert(self@.streams[idx as int] == self.streams@[idx as int]@);
        Ok(self.streams[idx].duplicate())
    }

    /// What the recipient of stream `stream_id` could claim at ledger
    /// `current_ledger`, without claiming it; nothing once the stream is
    /// resolved.
    pub fn get_claimable(&self, stream_id: u32, current_ledger: u32) -> (r: Result<
        i128,
        MicroPayError,
    >)
        requires
            self.wf(),
            self@.has_stream(stream_id) && !self@.stream(stream_id).is_resolved() ==> self@.stream(
                stream_id,
            ).streamed(current_ledger) <= i128::MAX,
        ensures
            match self@.claimable_outcome(stream_id, current_ledger) {
                Ok(amount) => r == Ok::<i128, MicroPayError>(amount as i128),
                Err(e) => r == Err::<i128, MicroPayError>(e),
            },
    {
        if stream_id == 0 || stream_id as usize > self.streams.len() {
            return Err(MicroPayError::StreamNotFound);
        }
        let idx: usize = (stream_id - 1) as usize;
        let ghost s = self@.streams[idx as int];
        assert(s == self.streams@[idx as int]@);
        assert(s.valid());
        let stream = &self.streams[idx];
        if stream.resolved_at.is_some() {
            return Ok(0);
        }
        let total_streamed = stream.streamed_at(current_ledger);
        let claimable = total_streamed - stream.claimed;
        let remaining = stream.deposited - stream.claimed;
        let capped = if claimable < remaining {
            claimable
        } else {
            remaining
        };
        if capped > 0 {
            Ok(capped)
        } else {
            Ok(0)
        }
    }

    /// Whether `nullifier` has been spent by an earlier commitment.
    pub fn is_nullifier_used(&self, nullifier: &[u8; 32]) -> (used: bool)
        ensures
            used == self@.nullifier_used(nullifier@),
    {
        let mut i: usize = 0;
        while i < self.commitments.len()
            invariant
                i <= self.commitments@.len(),
                forall|k: int| 0 <= k < i ==> self@.commitments[k].nullifier != nullifier@,
            decreases self.commitments@.len() - i,
        {
            if bytes_eq(self.commitments[i].nullifier.as_slice(), nullifier.as_slice()) {
                assert(self@.commitments[i as int].nullifier == nullifier@);
                return true;
            }
            i = i + 1;
        }
        assert(!self@.nullifier_used(nullifier@)) by {
            assert forall|k: int| 0 <= k < self@.commitments.len() implies #[trigger] self@.commitments[k].nullifier != nullifier@ by {}
        }
        false
    }

    /// The commitment stored under `commitment_hash`, the last one made with it.
    pub fn get_commitment(&self, commitment_hash: &[u8; 32]) -> (r: Option<PaymentCommitment>)
        ensures
            match r {
                Some(c) => self@.commitment(commitment_hash@) == Some(c@),
                None => self@.commitment(commitment_hash@) is None,
            },
    {
        let ghost all = self@.commitments;
        let mut i: usize = self.commitments.len();
        assert(all.take(i as int) =~= all);
        while i > 0
            invariant
                i <= all.len(),
                all == self@.commitments,
                latest_with_hash(all, commitment_hash@) == latest_with_hash(
                    all.take(i as int),
                    commitment_hash@,
                ),
            decreases i,
        {
            let ghost prefix = all.take(i as int);
            assert(prefix.last() == self.commitments@[i - 1]@);
            assert(prefix.drop_last() =~= all.take(i - 1));
            if bytes_eq(
                self.commitments[i - 1].commitment_hash.as_slice(),
                commitment_hash.as_slice(),
            ) {
                return Some(self.commitments[i - 1]);
            }
            i = i - 1;
        }
        assert(all.take(0) =~= Seq::<CommitmentView>::empty());
        None
    }

    /// Fold `new_hash` into the commitment root.
    fn update_merkle_root(&mut self, env: &soroban_sdk::Env, new_hash: [u8; 32])
        ensures
            final(self)@.merkle_root == next_root(old(self)@.merkle_root, new_hash@),
            final(self)@.streams == old(self)@.streams,
            final(self)@.commitments == old(self)@.commitments,
    {
        let new_root = match self.merkle_root {
            Some(root) => {
                let combined = concat_bytes(root.as_slice(), new_hash.as_slice());
                sha256(env, combined.as_slice())
            },
            None => new_hash,
        };
        self.merkle_root = Some(new_root);
    }

    /// Record a payment commitment made at `timestamp`, spending
    /// `nullifier`; returns the commitment's id.
    pub fn commit_payment(
        &mut self,
        env: &soroban_sdk::Env,
        commitment_hash: [u8; 32],
        nullifier: [u8; 32],
        timestamp: u64,
    ) -> (r: Result<u32, MicroPayError>)
        requires
            old(self).wf(),
            !old(self)@.nullifier_used(nullifier@) ==> old(self)@.commitments.len() < u32::MAX,
        ensures
            final(self).wf(),
            match old(self)@.commit_outcome(commitment_hash@, nullifier@, timestamp) {
                Ok((v, id)) => final(self)@ == v && r == Ok::<u32, MicroPayError>(id as u32),
                Err(e) => final(self)@ == old(self)@ && r == Err::<u32, MicroPayError>(e),
            },
    {
        if self.is_nullifier_used(&nullifier) {
            return Err(MicroPayError::NullifierUsed);
        }
        let ghost old_view = self@;
        let counter: u32 = self.commitments.len() as u32 + 1;
        let commitment = PaymentCommitment { commitment_hash, timestamp, nullifier };
        self.commitments.push(commitment);
        self.update_merkle_root(env, commitment_hash);
        assert(self@.commitments =~= old_view.commitments.push(commitment@));
        assert(self@.committed_hashes() =~= old_view.committed_hashes().push(commitment_hash@));
        assert(self@.committed_hashes().drop_last() =~= old_view.committed_hashes());
        assert forall|i: int, j: int|
            0 <= i < j < self@.commitments.len() implies #[trigger] self@.commitments[i].nullifier
            != #[trigger] self@.commitments[j].nullifier by {
            if j == old_view.commitments.len() {
                assert(self@.commitments[i] == old_view.commitments[i]);
            } else {
                assert(self@.commitments[i] == old_view.commitments[i]);
                assert(self@.commitments[j] == old_view.commitments[j]);
            }
        }
        Ok(counter)
    }

    /// The current commitment root, if any commitment was made.
    pub fn get_merkle_root(&self) -> (r: Option<[u8; 32]>)
        ensures
            match r {
                Some(root) => self@.merkle_root == Some(root@),
                None => self@.merkle_root is None,
            },
    {
        self.merkle_root
    }

    /// Whether hashing `leaf` along `proof` reaches the current root.
    /// `leaf_index` takes no part in the check.
    pub fn verify_merkle_proof(
        &self,
        env: &soroban_sdk::Env,
        leaf: [u8; 32],
        proof: &Vec<[u8; 32]>,
        leaf_index: u32,
    ) -> (valid: bool)
        ensures
            valid == self@.path_reaches_root(leaf@, path_view(proof@)),
    {
        let merkle_root = match self.merkle_root {
            Some(root) => root,
            None => {
                return false;
            },
        };
        let ghost path = path_view(proof@);
        let mut computed_hash: [u8; 32] = leaf;
        let mut i: usize = 0;
        while i < proof.len()
            invariant
                i <= proof@.len(),
                path == path_view(proof@),
                computed_hash@ == fold_path(leaf@, path.take(i as int)),
            decreases proof@.len() - i,
        {
            let combined = concat_bytes(computed_hash.as_slice(), proof[i].as_slice());
            computed_hash = sha256(env, combined.as_slice());
            assert(path.take(i + 1).drop_last() =~= path.take(i as int));
            assert(path.take(i + 1).last() == proof@[i as int]@);
            i = i + 1;
        }
        assert(path.take(proof@.len() as int) =~= path);
        bytes_eq(computed_hash.as_slice(), merkle_root.as_slice())
    }

    /// The hash that commits to `amount` under `salt`: SHA-256 of the
    /// amount's 16 little-endian bytes followed by the salt.
    pub fn hash_amount_with_salt(env: &soroban_sdk::Env, amount: i128, salt: [u8; 32]) -> (hash: [u8; 32])
        ensures
            hash@ == amount_commitment(amount, salt@),
    {
        let amount_bytes = i128_to_le_bytes(amount);
        let combined = concat_bytes(amount_bytes.as_slice(), salt.as_slice());
        sha256(env, combined.as_slice())
    }

    /// Whether an amount hash matches the expected one. `minimum_amount`
    /// takes no part in the check.
    pub fn verify_amount_commitment(
        amount_hash: [u8; 32],
        expected_hash: [u8; 32],
        minimum_amount: i128,
    ) -> (matches: bool)
        ensures
            matches == (amount_hash@ == expected_hash@),
    {
        bytes_eq(amount_hash.as_slice(), expected_hash.as_slice())
    }

    /// Verify a payment proof: its commitment is on record, its path
    /// reaches the root, the commitment opens under the proof's salt to the
    /// amount the proof names, that amount covers `minimum_amount`, and the
    /// proof's amount hash commits to `minimum_amount` under the same salt.
    pub fn verify_payment(&self, env: &soroban_sdk::Env, proof: ZKProof, minimum_amount: i128) -> (valid: bool)
        ensures
            valid == self@.payment_verified(
                proof.commitment_hash@,
                proof.amount_hash@,
                proof.salt@,
                proof.amount,
                path_view(proof.merkle_proof@),
                minimum_amount,
            ),
    {
        match self.get_commitment(&proof.commitment_hash) {
            Some(_) => {},
            None => {
                return false;
            },
        }
        if !self.verify_merkle_proof(env, proof.commitment_hash, &proof.merkle_proof, proof.leaf_index) {
            return false;
        }
        let opened = Self::hash_amount_with_salt(env, proof.amount, proof.salt);
        if !bytes_eq(opened.as_slice(), proof.commitment_hash.as_slice()) {
            return false;
        }
        if proof.amount < minimum_amount {
            return false;
        }
        let expected_amount_hash = Self::hash_amount_with_salt(env, minimum_amount, proof.salt);
        Self::verify_amount_commitment(proof.amount_hash, expected_amount_hash, minimum_amount)
    }

    /// The commitment hash for `amount` under `salt`, for a client to commit.
    pub fn generate_commitment_hash(env: &soroban_sdk::Env, amount: i128, salt: [u8; 32]) -> (hash: [u8; 32])
        ensures
            hash@ == amount_commitment(amount, salt@),
    {
        Self::hash_amount_with_salt(env, amount, salt)
    }

    /// The stored streams; stream `id` is at index `id - 1`.
    pub fn streams(&self) -> (streams: &Vec<Stream>)
        ensures
            streams@.map_values(|s: Stream| s@) == self@.streams,
    {
        &self.streams
    }

    /// The stored commitments, in the order they were made.
    pub fn commitments(&self) -> (commitments: &Vec<PaymentCommitment>)
        ensures
            commitments@.map_values(|c: PaymentCommitment| c@) == self@.commitments,
    {
        &self.commitments
    }

    /// Rebuild a contract from stored streams and commitments, recomputing
    /// the commitment root; refuses parts that break the protocol's
    /// invariants.
    pub fn restore(
        env: &soroban_sdk::Env,
        streams: Vec<Stream>,
        commitments: Vec<PaymentCommitment>,
    ) -> (r: Option<StellarMicroPay>)
        ensures
            match r {
                Some(c) => {
                    &&& c.wf()
                    &&& c@.streams == streams@.map_values(|s: Stream| s@)
                    &&& c@.commitments == commitments@.map_values(|c: PaymentCommitment| c@)
                },
                None => !parts_valid(
                    streams@.map_values(|s: Stream| s@),
                    commitments@.map_values(|c: PaymentCommitment| c@),
                ),
            },
    {
        let ghost sv = streams@.map_values(|s: Stream| s@);
        let ghost cv = commitments@.map_values(|c: PaymentCommitment| c@);
        if streams.len() > 0xffff_ffffusize || commitments.len() > 0xffff_ffffusize {
            return None;
        }
        let mut i: usize = 0;
        while i < streams.len()
            invariant
                i <= streams@.len(),
                sv == streams@.map_values(|s: Stream| s@),
                forall|k: int| 0 <= k < i ==> #[trigger] sv[k].valid(),
            decreases streams@.len() - i,
        {
            let s = &streams[i];
            assert(sv[i as int] == s@);
            if !(s.rate_per_ledger > 0 && 0 <= s.claimed && s.claimed <= s.deposited && (
            s.resolved_at.is_some() || s.claimed < s.deposited)) {
                assert(!sv[i as int].valid());
                return None;
            }
            i = i + 1;
        }
        let mut j: usize = 0;
        while j < commitments.len()
            invariant
                j <= commitments@.len(),
                cv == commitments@.map_values(|c: PaymentCommitment| c@),
                forall|a: int, b: int|
                    0 <= a < b < j ==> #[trigger] cv[a].nullifier != #[trigger] cv[b].nullifier,
            decreases commitments@.len() - j,
        {
            let mut k: usize = 0;
            while k < j
                invariant
                    k <= j < commitments@.len(),
                    cv == commitments@.map_values(|c: PaymentCommitment| c@),
                    forall|a: int| 0 <= a < k ==> #[trigger] cv[a].nullifier != cv[j as int].nullifier,
                decreases j - k,
            {
                if bytes_eq(commitments[k].nullifier.as_slice(), commitments[j].nullifier.as_slice()) {
                    assert(cv[k as int].nullifier == cv[j as int].nullifier);
                    return None;
                }
                k = k + 1;
            }
            j = j + 1;
        }
        let mut c = StellarMicroPay { streams, commitments: Vec::new(), merkle_root: None };
        assert(c@.commitments =~= Seq::<CommitmentView>::empty());
        assert(c@.committed_hashes() =~= Seq::<Seq<u8>>::empty());
        let mut n: usize = 0;
        while n < commitments.len()
            invariant
                n <= commitments@.len(),
                cv == commitments@.map_values(|c: PaymentCommitment| c@),
                c@.streams == sv,
                c@.commitments == cv.take(n as int),
                c@.merkle_root == chain_root(c@.committed_hashes()),
            decreases commitments@.len() - n,
        {
            let ghost before = c@;
            let commitment = commitments[n];
            c.commitments.push(commitment);
            c.update_merkle_root(env, commitment.commitment_hash);
            assert(c@.commitments =~= before.commitments.push(commitment@));
            assert(cv.take(n + 1) =~= cv.take(n as int).push(cv[n as int]));
            assert(c@.committed_hashes() =~= before.committed_hashes().push(commitment.commitment_hash@));
            assert(c@.committed_hashes().drop_last() =~= before.committed_hashes());
            n = n + 1;
        }
        assert(cv.take(commitments@.len() as int) =~= cv);
        assert(c@.streams == sv);
        Some(c)
    }
}

} // verus!
