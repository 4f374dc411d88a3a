use micro_payment::handler::{verify_commitment, CommitmentType};

// Zero-knowledge commitment checking is an external collaborator; the
// placeholder verifier stands in for its configuration here.  This only
// confirms that it is callable and permissive, as the engine's verdict
// inputs assume.
#[test]
fn test_circom_config() {
    let r = verify_commitment(&"sender".to_string(), CommitmentType::Cheque, &vec![]);
    println!("{}", r.is_ok());
}
