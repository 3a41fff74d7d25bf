# stellar_micropay

The ledger of a Stellar micropayment contract, verified with Verus.

- `src/model.rs`: the model of the contract state (streams, payment
  commitments, commitment root) and the outcome of every entry point.
- `src/contract.rs`: the executable contract state and entry points, each
  proved to behave as its model outcome says and to keep the invariants.
- `src/laws.rs`: properties that span entry points and calls.
- `src/bytes.rs`: SHA-256 through the Soroban host, little-endian amounts,
  byte-string helpers.
- `app/`: the Soroban contract that stores the ledger, authorizes the
  parties and moves tokens around the verified library.
