use kitties::claims::ClaimError;
use kitties::claims::ClaimRegistry;

fn new_registry() -> ClaimRegistry {
    ClaimRegistry::new(3, 16)
}

#[test]
fn create_claim_works() {
    let mut reg = new_registry();
    let claim = vec![0, 1, 2, 4, 5];
    assert_eq!(reg.create_claim(1, claim.clone(), 0), Ok(()));
    assert_eq!(reg.proof_of(&claim), Some((1, 0)));
}

#[test]
fn create_claim_failed_when_claim_already_exist() {
    let mut reg = new_registry();
    let claim = vec![0, 1, 2, 4, 5];
    let _ = reg.create_claim(1, claim.clone(), 0);
    assert_eq!(
        reg.create_claim(1, claim.clone(), 0),
        Err(ClaimError::ClaimAlreadyExist)
    );
}

#[test]
fn create_claim_failed_when_claim_too_short() {
    let mut reg = new_registry();
    let claim = vec![0, 1];
    assert_eq!(
        reg.create_claim(1, claim.clone(), 0),
        Err(ClaimError::ClaimTooShort)
    );
    assert_eq!(reg.proof_of(&claim), None);
}

#[test]
fn create_claim_failed_when_claim_too_long() {
    let mut reg = new_registry();
    let claim = vec![0, 1, 2, 3, 4, 5, 6, 7, 8, 9, 10, 11, 12, 13, 14, 15, 16];
    assert_eq!(
        reg.create_claim(1, claim.clone(), 0),
        Err(ClaimError::ClaimTooLong)
    );
    assert_eq!(reg.proof_of(&claim), None);
}

#[test]
fn revoke_claim_works() {
    let mut reg = new_registry();
    let claim = vec![0, 1, 2, 4, 5];
    let _ = reg.create_claim(1, claim.clone(), 0);
    assert_eq!(reg.revoke_claim(1, &claim), Ok(()));
    assert_eq!(reg.proof_of(&claim), None);
}

#[test]
fn revoke_claim_failed_when_claim_is_not_exist() {
    let mut reg = new_registry();
    let claim = vec![0, 1, 2, 4, 5];
    assert_eq!(reg.revoke_claim(1, &claim), Err(ClaimError::ClaimNotExist));
}

#[test]
fn revoke_claim_failed_when_not_claim_owner() {
    let mut reg = new_registry();
    let claim = vec![0, 1, 2, 4, 5];
    let _ = reg.create_claim(1, claim.clone(), 0);
    assert_eq!(reg.revoke_claim(2, &claim), Err(ClaimError::NotClaimOwner));
    assert_eq!(reg.proof_of(&claim), Some((1, 0)));
}

#[test]
fn transfer_claim_works() {
    let mut reg = new_registry();
    let claim = vec![0, 1, 2, 4, 5];
    let _ = reg.create_claim(1, claim.clone(), 0);
    assert_eq!(reg.transfer_claim(1, 2, &claim, 0), Ok(()));
    assert_eq!(reg.proof_of(&claim), Some((2, 0)));
}

#[test]
fn transfer_claim_when_claim_is_not_exist() {
    let mut reg = new_registry();
    let claim = vec![0, 1, 2, 4, 5];
    let _ = reg.create_claim(1, claim.clone(), 0);
    assert_eq!(
        reg.transfer_claim(3, 2, &claim, 0),
        Err(ClaimError::NotClaimOwner)
    );
}

#[test]
fn transfer_claim_when_not_claim_owner() {
    let mut reg = new_registry();
    let claim = vec![0, 1, 2, 4, 5];
    assert_eq!(
        reg.transfer_claim(1, 2, &claim, 0),
        Err(ClaimError::ClaimNotExist)
    );
}

#[test]
fn claims_are_independent() {
    let mut reg = new_registry();
    let a = vec![1, 2, 3];
    let b = vec![4, 5, 6];
    assert_eq!(reg.create_claim(1, a.clone(), 7), Ok(()));
    assert_eq!(reg.create_claim(2, b.clone(), 8), Ok(()));
    assert_eq!(reg.revoke_claim(1, &a), Ok(()));
    assert_eq!(reg.proof_of(&a), None);
    assert_eq!(reg.proof_of(&b), Some((2, 8)));
    // a revoked claim can be registered again
    assert_eq!(reg.create_claim(3, a.clone(), 9), Ok(()));
    assert_eq!(reg.proof_of(&a), Some((3, 9)));
}
