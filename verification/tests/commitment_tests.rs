use soroban_sdk::testutils::EnvTestConfig;
use soroban_sdk::Env;
use stellar_micropay::contract::{StellarMicroPay, ZKProof};

fn test_env() -> Env {
    Env::new_with_config(EnvTestConfig { capture_snapshot_at_drop: false })
}

#[test]
fn test_commit_payment() {
    let env = test_env();
    let mut c = StellarMicroPay::new();
    let amount = 1000000i128;
    let salt = [1u8; 32];
    let commitment_hash = StellarMicroPay::generate_commitment_hash(&env, amount, salt);
    let nullifier = [2u8; 32];
    let commitment_id = c.commit_payment(&env, commitment_hash, nullifier, 0).unwrap();
    assert_eq!(commitment_id, 1);
    let stored_commitment = c.get_commitment(&commitment_hash).unwrap();
    assert_eq!(stored_commitment.commitment_hash, commitment_hash);
    assert_eq!(stored_commitment.nullifier, nullifier);
}

#[test]
#[should_panic(expected = "Nullifier already used")]
fn test_commit_payment_double_nullifier() {
    let env = test_env();
    let mut c = StellarMicroPay::new();
    let amount = 1000000i128;
    let salt = [1u8; 32];
    let commitment_hash = StellarMicroPay::generate_commitment_hash(&env, amount, salt);
    let nullifier = [2u8; 32];
    c.commit_payment(&env, commitment_hash, nullifier, 0).unwrap();
    let amount2 = 2000000i128;
    let salt2 = [3u8; 32];
    let commitment_hash2 = StellarMicroPay::generate_commitment_hash(&env, amount2, salt2);
    if let Err(e) = c.commit_payment(&env, commitment_hash2, nullifier, 0) {
        panic!("{}", e.message());
    }
}

#[test]
fn test_verify_payment_valid_proof() {
    let env = test_env();
    let mut c = StellarMicroPay::new();
    let amount = 1000000i128;
    let minimum_amount = 500000i128;
    let salt = [1u8; 32];
    let commitment_hash = StellarMicroPay::generate_commitment_hash(&env, amount, salt);
    let nullifier = [2u8; 32];
    c.commit_payment(&env, commitment_hash, nullifier, 0).unwrap();
    let amount_hash = StellarMicroPay::hash_amount_with_salt(&env, minimum_amount, salt);
    let proof = ZKProof {
        commitment_hash,
        amount_hash,
        salt,
        amount,
        merkle_proof: Vec::new(),
        leaf_index: 0,
    };
    let is_valid = c.verify_payment(&env, proof, minimum_amount);
    assert!(is_valid);
}

#[test]
fn test_verify_payment_invalid_commitment() {
    let env = test_env();
    let c = StellarMicroPay::new();
    let amount = 1000000i128;
    let minimum_amount = 500000i128;
    let salt = [1u8; 32];
    let fake_commitment_hash = [99u8; 32];
    let amount_hash = StellarMicroPay::hash_amount_with_salt(&env, minimum_amount, salt);
    let proof = ZKProof {
        commitment_hash: fake_commitment_hash,
        amount_hash,
        salt,
        amount,
        merkle_proof: Vec::new(),
        leaf_index: 0,
    };
    let is_valid = c.verify_payment(&env, proof, minimum_amount);
    assert!(!is_valid);
}

#[test]
fn test_verify_payment_invalid_amount_hash() {
    let env = test_env();
    let mut c = StellarMicroPay::new();
    let amount = 1000000i128;
    let minimum_amount = 500000i128;
    let salt = [1u8; 32];
    let commitment_hash = StellarMicroPay::generate_commitment_hash(&env, amount, salt);
    let nullifier = [2u8; 32];
    c.commit_payment(&env, commitment_hash, nullifier, 0).unwrap();
    let wrong_salt = [99u8; 32];
    let wrong_amount_hash = StellarMicroPay::hash_amount_with_salt(&env, minimum_amount, wrong_salt);
    let proof = ZKProof {
        commitment_hash,
        amount_hash: wrong_amount_hash,
        salt: wrong_salt,
        amount,
        merkle_proof: Vec::new(),
        leaf_index: 0,
    };
    let is_valid = c.verify_payment(&env, proof, minimum_amount);
    assert!(!is_valid);
}

#[test]
fn test_generate_commitment_hash() {
    let env = test_env();
    let amount = 1000000i128;
    let salt = [1u8; 32];
    let hash1 = StellarMicroPay::generate_commitment_hash(&env, amount, salt);
    let hash2 = StellarMicroPay::generate_commitment_hash(&env, amount, salt);
    assert_eq!(hash1, hash2);
    let different_salt = [2u8; 32];
    let hash3 = StellarMicroPay::generate_commitment_hash(&env, amount, different_salt);
    assert_ne!(hash1, hash3);
    let different_amount = 2000000i128;
    let hash4 = StellarMicroPay::generate_commitment_hash(&env, different_amount, salt);
    assert_ne!(hash1, hash4);
}

#[test]
fn test_merkle_root_update() {
    let env = test_env();
    let mut c = StellarMicroPay::new();
    let amount = 1000000i128;
    let salt = [1u8; 32];
    let commitment_hash = StellarMicroPay::generate_commitment_hash(&env, amount, salt);
    let nullifier = [2u8; 32];
    assert_eq!(c.get_merkle_root(), None);
    c.commit_payment(&env, commitment_hash, nullifier, 0).unwrap();
    let merkle_root = c.get_merkle_root();
    assert!(merkle_root.is_some());
    assert_eq!(merkle_root.unwrap(), commitment_hash);
}

#[test]
fn test_multiple_commitments_merkle_root() {
    let env = test_env();
    let mut c = StellarMicroPay::new();
    let amount1 = 1000000i128;
    let salt1 = [1u8; 32];
    let commitment_hash1 = StellarMicroPay::generate_commitment_hash(&env, amount1, salt1);
    let nullifier1 = [2u8; 32];
    let amount2 = 2000000i128;
    let salt2 = [3u8; 32];
    let commitment_hash2 = StellarMicroPay::generate_commitment_hash(&env, amount2, salt2);
    let nullifier2 = [4u8; 32];
    c.commit_payment(&env, commitment_hash1, nullifier1, 0).unwrap();
    let root1 = c.get_merkle_root().unwrap();
    c.commit_payment(&env, commitment_hash2, nullifier2, 0).unwrap();
    let root2 = c.get_merkle_root().unwrap();
    assert_ne!(root1, root2);
}

#[test]
fn test_commitment_counter() {
    let env = test_env();
    let mut c = StellarMicroPay::new();
    let amount = 1000000i128;
    let salt1 = [1u8; 32];
    let commitment_hash1 = StellarMicroPay::generate_commitment_hash(&env, amount, salt1);
    let nullifier1 = [2u8; 32];
    let salt2 = [3u8; 32];
    let commitment_hash2 = StellarMicroPay::generate_commitment_hash(&env, amount, salt2);
    let nullifier2 = [4u8; 32];
    let id1 = c.commit_payment(&env, commitment_hash1, nullifier1, 0).unwrap();
    assert_eq!(id1, 1);
    let id2 = c.commit_payment(&env, commitment_hash2, nullifier2, 0).unwrap();
    assert_eq!(id2, 2);
}
