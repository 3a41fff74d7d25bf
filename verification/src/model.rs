//! The mathematical model of the contract's ledger state: streams,
//! payment commitments and the commitment root, and what each entry point
//! does to them.
use vstd::prelude::*;
use crate::bytes::{sha256_of, i128_le_bytes};

verus! {

/// Why an entry point refuses a request.
#[derive(Clone, Copy, Debug, PartialEq, Eq, Structural)]
pub enum MicroPayError {
    RateNotPositive,
    DepositNotPositive,
    StreamNotFound,
    ClaimFromResolved,
    NotRecipient,
    TopUpNotPositive,
    TopUpResolved,
    NotPayerTopUp,
    NotPayerClose,
    AlreadyResolved,
    NullifierUsed,
}

/// The text with which the contract aborts for each refusal.
pub open spec fn error_text(e: MicroPayError) -> Seq<char> {
    match e {
        MicroPayError::RateNotPositive => "Rate per ledger must be positive"@,
        MicroPayError::DepositNotPositive => "Deposit must be positive"@,
        MicroPayError::StreamNotFound => "Stream not found"@,
        MicroPayError::ClaimFromResolved => "Cannot claim from a resolved stream"@,
        MicroPayError::NotRecipient => "Only the recipient can claim from this stream"@,
        MicroPayError::TopUpNotPositive => "Top-up amount must be positive"@,
        MicroPayError::TopUpResolved => "Cannot top up a resolved stream"@,
        MicroPayError::NotPayerTopUp => "Only the payer can top up this stream"@,
        MicroPayError::NotPayerClose => "Only the payer can close this stream"@,
        MicroPayError::AlreadyResolved => "Stream is already resolved"@,
        MicroPayError::NullifierUsed => "Nullifier already used"@,
    }
}

impl MicroPayError {
    /// The abort message of this refusal.
    pub fn message(&self) -> (text: &'static str)
        ensures
            text@ == error_text(*self),
    {
        match self {
            MicroPayError::RateNotPositive => "Rate per ledger must be positive",
            MicroPayError::DepositNotPositive => "Deposit must be positive",
            MicroPayError::StreamNotFound => "Stream not found",
            MicroPayError::ClaimFromResolved => "Cannot claim from a resolved stream",
            MicroPayError::NotRecipient => "Only the recipient can claim from this stream",
            MicroPayError::TopUpNotPositive => "Top-up amount must be positive",
            MicroPayError::TopUpResolved => "Cannot top up a resolved stream",
            MicroPayError::NotPayerTopUp => "Only the payer can top up this stream",
            MicroPayError::NotPayerClose => "Only the payer can close this stream",
            MicroPayError::AlreadyResolved => "Stream is already resolved",
            MicroPayError::NullifierUsed => "Nullifier already used",
        }
    }
}

/// Ledgers elapsed since `start`, zero when `now` is not later.
pub open spec fn elapsed_ledgers(now: u32, start: u32) -> int {
    if now > start {
        now - start
    } else {
        0
    }
}

pub open spec fn min_int(a: int, b: int) -> int {
    if a <= b {
        a
    } else {
        b
    }
}

pub open spec fn max_int(a: int, b: int) -> int {
    if a >= b {
        a
    } else {
        b
    }
}

/// A payment stream: the payer's deposit flows to the recipient at a fixed
/// rate per ledger from `start_ledger` on.
pub struct StreamView {
    pub payer: Seq<u8>,
    pub recipient: Seq<u8>,
    pub rate_per_ledger: int,
    pub deposited: int,
    pub claimed: int,
    pub start_ledger: u32,
    pub resolved_at: Option<u64>,
}

impl StreamView {
    /// Everything the rate has released up to ledger `now`.
    pub open spec fn streamed(self, now: u32) -> int {
        self.rate_per_ledger * elapsed_ledgers(now, self.start_ledger)
    }

    /// What the recipient may take at ledger `now`: nothing once the stream
    /// is resolved; otherwise the released amount not yet claimed, capped by
    /// the unclaimed deposit, and never negative.
    pub open spec fn claimable(self, now: u32) -> int {
        if self.is_resolved() {
            0
        } else {
            max_int(min_int(self.streamed(now) - self.claimed, self.deposited - self.claimed), 0)
        }
    }

    /// What goes back to the payer when the stream is closed at `now`: the
    /// deposit that is neither released nor claimed, never negative.
    pub open spec fn refund(self, now: u32) -> int {
        max_int(self.deposited - max_int(self.streamed(now), self.claimed), 0)
    }

    pub open spec fn is_resolved(self) -> bool {
        self.resolved_at is Some
    }

    /// A resolved stream whose deposit was not fully claimed: it was closed.
    pub open spec fn is_closed(self) -> bool {
        self.is_resolved() && self.claimed < self.deposited
    }

    /// The protocol's invariants of one stream.
    pub open spec fn valid(self) -> bool {
        &&& self.rate_per_ledger > 0
        &&& 0 <= self.claimed <= self.deposited
        &&& self.deposited <= i128::MAX
        &&& !self.is_resolved() ==> self.claimed < self.deposited
    }

    /// The stream after `amount` more has been claimed at time `timestamp`;
    /// it becomes resolved once nothing of the deposit is left.
    pub open spec fn after_claim(self, amount: int, timestamp: u64) -> StreamView {
        if amount <= 0 {
            self
        } else {
            StreamView {
                claimed: self.claimed + amount,
                resolved_at: if self.claimed + amount >= self.deposited {
                    Some(timestamp)
                } else {
                    self.resolved_at
                },
                ..self
            }
        }
    }
}

/// A payment commitment recorded by the contract.
pub struct CommitmentView {
    pub commitment_hash: Seq<u8>,
    pub timestamp: u64,
    pub nullifier: Seq<u8>,
}

/// The most recent commitment recorded under `hash`.
pub open spec fn latest_with_hash(s: Seq<CommitmentView>, hash: Seq<u8>) -> Option<CommitmentView>
    decreases s.len(),
{
    if s.len() == 0 {
        None
    } else if s.last().commitment_hash == hash {
        Some(s.last())
    } else {
        latest_with_hash(s.drop_last(), hash)
    }
}

/// The root after folding `hash` into `root`.
pub open spec fn next_root(root: Option<Seq<u8>>, hash: Seq<u8>) -> Option<Seq<u8>> {
    match root {
        None => Some(hash),
        Some(r) => Some(sha256_of(r + hash)),
    }
}

/// The root that a sequence of committed hashes produces, in order.
pub open spec fn chain_root(hashes: Seq<Seq<u8>>) -> Option<Seq<u8>>
    decreases hashes.len(),
{
    if hashes.len() == 0 {
        None
    } else {
        next_root(chain_root(hashes.drop_last()), hashes.last())
    }
}

/// The hash reached from `leaf` by hashing in each path element in turn.
pub open spec fn fold_path(leaf: Seq<u8>, path: Seq<Seq<u8>>) -> Seq<u8>
    decreases path.len(),
{
    if path.len() == 0 {
        leaf
    } else {
        sha256_of(fold_path(leaf, path.drop_last()) + path.last())
    }
}

/// The hash that commits to `amount` under `salt`.
pub open spec fn amount_commitment(amount: i128, salt: Seq<u8>) -> Seq<u8> {
    sha256_of(i128_le_bytes(amount) + salt)
}

/// The invariants of the streams and commitments of a ledger state: ids fit
/// in 32 bits, every stream keeps the protocol's invariants, and no
/// nullifier is spent twice.
pub open spec fn parts_valid(streams: Seq<StreamView>, commitments: Seq<CommitmentView>) -> bool {
    &&& streams.len() <= u32::MAX
    &&& commitments.len() <= u32::MAX
    &&& forall|i: int| 0 <= i < streams.len() ==> #[trigger] streams[i].valid()
    &&& forall|i: int, j: int|
        0 <= i < j < commitments.len() ==> #[trigger] commitments[i].nullifier
            != #[trigger] commitments[j].nullifier
}

/// Everything a stream has released is never negative.
pub proof fn lemma_streamed_nonnegative(s: StreamView, now: u32)
    requires
        s.rate_per_ledger > 0,
    ensures
        s.streamed(now) >= 0,
{
    let e = elapsed_ledgers(now, s.start_ledger);
    assert(s.rate_per_ledger * e >= 0) by (nonlinear_arith)
        requires
            s.rate_per_ledger > 0,
            e >= 0,
    ;
}

/// Replacing a stream of a valid state by a valid stream keeps the state
/// valid.
pub proof fn lemma_with_stream_valid(v: MicroPayView, id: u32, s: StreamView)
    requires
        v.valid(),
        v.has_stream(id),
        s.valid(),
    ensures
        v.with_stream(id, s).valid(),
{
    let after = v.with_stream(id, s);
    assert forall|i: int| 0 <= i < after.streams.len() implies #[trigger] after.streams[i].valid() by {
        if i != id - 1 {
            assert(after.streams[i] == v.streams[i]);
        }
    }
}

/// The contract's ledger state. Stream `id` is `streams[id - 1]`; the
/// commitments are kept in the order they were made.
pub struct MicroPayView {
    pub streams: Seq<StreamView>,
    pub commitments: Seq<CommitmentView>,
    pub merkle_root: Option<Seq<u8>>,
}

impl MicroPayView {
    pub open spec fn empty() -> MicroPayView {
        MicroPayView { streams: Seq::empty(), commitments: Seq::empty(), merkle_root: None }
    }

    pub open spec fn has_stream(self, id: u32) -> bool {
        1 <= id <= self.streams.len()
    }

    pub open spec fn stream(self, id: u32) -> StreamView {
        self.streams[id - 1]
    }

    pub open spec fn with_stream(self, id: u32, s: StreamView) -> MicroPayView {
        MicroPayView { streams: self.streams.update(id - 1, s), ..self }
    }

    pub open spec fn committed_hashes(self) -> Seq<Seq<u8>> {
        self.commitments.map_values(|c: CommitmentView| c.commitment_hash)
    }

    pub open spec fn nullifier_used(self, nullifier: Seq<u8>) -> bool {
        exists|i: int| 0 <= i < self.commitments.len() && #[trigger] self.commitments[i].nullifier == nullifier
    }

    /// The commitment stored under `hash`: the last one made with it.
    pub open spec fn commitment(self, hash: Seq<u8>) -> Option<CommitmentView> {
        latest_with_hash(self.commitments, hash)
    }

    /// The invariants of the ledger state.
    pub open spec fn valid(self) -> bool {
        &&& parts_valid(self.streams, self.commitments)
        &&& self.merkle_root == chain_root(self.committed_hashes())
    }

    /// Opening a stream: the new state and the new stream's id.
    pub open spec fn open_outcome(
        self,
        payer: Seq<u8>,
        recipient: Seq<u8>,
        rate_per_ledger: int,
        deposit: int,
        now: u32,
    ) -> Result<(MicroPayView, int), MicroPayError> {
        if rate_per_ledger <= 0 {
            Err(MicroPayError::RateNotPositive)
        } else if deposit <= 0 {
            Err(MicroPayError::DepositNotPositive)
        } else {
            let s = StreamView {
                payer,
                recipient,
                rate_per_ledger,
                deposited: deposit,
                claimed: 0,
                start_ledger: now,
                resolved_at: None,
            };
            Ok((MicroPayView { streams: self.streams.push(s), ..self }, self.streams.len() + 1 as int))
        }
    }

    /// Claiming from stream `id` at ledger `now` and time `timestamp`: the new
    /// state and the amount paid to the recipient.
    pub open spec fn claim_outcome(self, id: u32, recipient: Seq<u8>, now: u32, timestamp: u64) -> Result<
        (MicroPayView, int),
        MicroPayError,
    > {
        if !self.has_stream(id) {
            Err(MicroPayError::StreamNotFound)
        } else if self.stream(id).is_resolved() {
            Err(MicroPayError::ClaimFromResolved)
        } else if self.stream(id).recipient != recipient {
            Err(MicroPayError::NotRecipient)
        } else {
            let amount = self.stream(id).claimable(now);
            Ok((self.with_stream(id, self.stream(id).after_claim(amount, timestamp)), amount))
        }
    }

    /// Adding `amount` to the deposit of stream `id`. A stream that was
    /// resolved by being fully claimed becomes active again; a closed one
    /// refuses.
    pub open spec fn top_up_outcome(self, id: u32, payer: Seq<u8>, amount: int) -> Result<
        MicroPayView,
        MicroPayError,
    > {
        if amount <= 0 {
            Err(MicroPayError::TopUpNotPositive)
        } else if !self.has_stream(id) {
            Err(MicroPayError::StreamNotFound)
        } else if self.stream(id).is_closed() {
            Err(MicroPayError::TopUpResolved)
        } else if self.stream(id).payer != payer {
            Err(MicroPayError::NotPayerTopUp)
        } else {
            let s = self.stream(id);
            Ok(
                self.with_stream(
                    id,
                    StreamView { deposited: s.deposited + amount, resolved_at: None, ..s },
                ),
            )
        }
    }

    /// Closing stream `id` at ledger `now` and time `timestamp`: the new state
    /// and the refund paid back to the payer.
    pub open spec fn close_outcome(self, id: u32, payer: Seq<u8>, now: u32, timestamp: u64) -> Result<
        (MicroPayView, int),
        MicroPayError,
    > {
        if !self.has_stream(id) {
            Err(MicroPayError::StreamNotFound)
        } else if self.stream(id).payer != payer {
            Err(MicroPayError::NotPayerClose)
        } else if self.stream(id).is_resolved() {
            Err(MicroPayError::AlreadyResolved)
        } else {
            let s = self.stream(id);
            Ok(
                (
                    self.with_stream(id, StreamView { resolved_at: Some(timestamp), ..s }),
                    s.refund(now),
                ),
            )
        }
    }

    /// The amount claimable from stream `id` at ledger `now`.
    pub open spec fn claimable_outcome(self, id: u32, now: u32) -> Result<int, MicroPayError> {
        if !self.has_stream(id) {
            Err(MicroPayError::StreamNotFound)
        } else {
            Ok(self.stream(id).claimable(now))
        }
    }

    /// Recording a payment commitment: the new state and the commitment's id.
    pub open spec fn commit_outcome(self, hash: Seq<u8>, nullifier: Seq<u8>, timestamp: u64) -> Result<
        (MicroPayView, int),
        MicroPayError,
    > {
        if self.nullifier_used(nullifier) {
            Err(MicroPayError::NullifierUsed)
        } else {
            let c = CommitmentView { commitment_hash: hash, timestamp, nullifier };
            Ok(
                (
                    MicroPayView {
                        commitments: self.commitments.push(c),
                        merkle_root: next_root(self.merkle_root, hash),
                        ..self
                    },
                    self.commitments.len() + 1 as int,
                ),
            )
        }
    }

    /// Whether hashing `leaf` along `path` reaches the current root.
    pub open spec fn path_reaches_root(self, leaf: Seq<u8>, path: Seq<Seq<u8>>) -> bool {
        match self.merkle_root {
            Some(root) => fold_path(leaf, path) == root,
            None => false,
        }
    }

    /// Whether a payment proof is accepted: its commitment is on record and
    /// its path reaches the root; the commitment opens, under the proof's
    /// salt, to the amount the proof names; that amount is at least
    /// `minimum_amount`; and the proof's amount hash commits to
    /// `minimum_amount` under the same salt.
    pub open spec fn payment_verified(
        self,
        commitment_hash: Seq<u8>,
        amount_hash: Seq<u8>,
        salt: Seq<u8>,
        amount: i128,
        path: Seq<Seq<u8>>,
        minimum_amount: i128,
    ) -> bool {
        &&& self.commitment(commitment_hash) is Some
        &&& self.path_reaches_root(commitment_hash, path)
        &&& commitment_hash == amount_commitment(amount, salt)
        &&& amount >= minimum_amount
        &&& amount_hash == amount_commitment(minimum_amount, salt)
    }
}

} // verus!
