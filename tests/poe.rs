use kitties::poe::{ClaimRecord, Error, Event, Pallet};

const BLOCK: u64 = 1;

/// What a refused call must leave as it was: the record of each claim the
/// tests use, and the events.
fn snapshot(p: &Pallet) -> (Vec<Option<ClaimRecord>>, Vec<Event>) {
    let claims: [Vec<u8>; 3] = [vec![0, 1], vec![1], vec![9, 9, 9]];
    (claims.iter().map(|c| p.proofs(c)).collect(), p.events().clone())
}

#[test]
fn create_claim_works() {
    let mut p = Pallet::new();
    let claim = vec![0, 1];
    assert_eq!(p.create_claim(1, claim.clone(), BLOCK), Ok(()));
    assert_eq!(p.proofs(&claim), Some(ClaimRecord { owner: 1, block_number: BLOCK }));
    assert_eq!(p.events(), &vec![Event::ClaimCreated(1, claim)]);
}

#[test]
fn create_claim_failed_when_claim_already_exist() {
    let mut p = Pallet::new();
    let claim = vec![0, 1];
    let _ = p.create_claim(1, claim.clone(), BLOCK);
    let before = snapshot(&p);
    assert_eq!(p.create_claim(1, claim.clone(), BLOCK), Err(Error::ProofAlreadyExist));
    assert_eq!(snapshot(&p), before);
}

#[test]
fn revoke_claim_works() {
    let mut p = Pallet::new();
    let claim = vec![0, 1];
    let _ = p.create_claim(1, claim.clone(), BLOCK);
    assert_eq!(p.revoke_claim(1, claim.clone()), Ok(()));
    assert_eq!(p.proofs(&claim), None);
}

#[test]
fn revoke_claim_failed_when_claim_is_not_exist() {
    let mut p = Pallet::new();
    let claim = vec![0, 1];
    let before = snapshot(&p);
    assert_eq!(p.revoke_claim(1, claim.clone()), Err(Error::ClaimNotExist));
    assert_eq!(snapshot(&p), before);
}

#[test]
fn revoke_claim_failed_when_origin_is_not_claim_owner() {
    let mut p = Pallet::new();
    let claim = vec![0, 1];
    let _ = p.create_claim(1, claim.clone(), BLOCK);
    let before = snapshot(&p);
    assert_eq!(p.revoke_claim(2, claim.clone()), Err(Error::NotClaimOwner));
    assert_eq!(snapshot(&p), before);
    assert_eq!(p.proofs(&claim), Some(ClaimRecord { owner: 1, block_number: BLOCK }));
}

#[test]
fn transfer_claim_failed_when_claim_not_exist() {
    let mut p = Pallet::new();
    let claim = vec![0, 1];
    let before = snapshot(&p);
    assert_eq!(p.transfer_claim(1, claim.clone(), BLOCK), Err(Error::ClaimNotExist));
    assert_eq!(snapshot(&p), before);
}

#[test]
fn transfer_claim_failed_when_not_claim_owner() {
    let mut p = Pallet::new();
    let claim = vec![0, 1];
    let _ = p.create_claim(1, claim.clone(), BLOCK);
    let before = snapshot(&p);
    assert_eq!(p.transfer_claim(2, claim.clone(), BLOCK), Err(Error::NotClaimOwner));
    assert_eq!(snapshot(&p), before);
    assert_eq!(p.proofs(&claim), Some(ClaimRecord { owner: 1, block_number: BLOCK }));
}

#[test]
fn transfer_claim_by_holder_renews_the_block() {
    let mut p = Pallet::new();
    let claim = vec![9, 9, 9];
    let _ = p.create_claim(4, claim.clone(), 3);
    assert_eq!(p.transfer_claim(4, claim.clone(), 8), Ok(()));
    assert_eq!(p.proofs(&claim), Some(ClaimRecord { owner: 4, block_number: 8 }));
    assert_eq!(p.events().len(), 1);
}

#[test]
fn claims_are_kept_apart_and_revoked_only_by_holder() {
    let mut p = Pallet::new();
    let a = vec![1u8];
    let b = vec![1u8, 2];
    let c = vec![];
    assert_eq!(p.create_claim(1, a.clone(), 1), Ok(()));
    assert_eq!(p.create_claim(2, b.clone(), 2), Ok(()));
    assert_eq!(p.create_claim(3, c.clone(), 3), Ok(()));
    assert_eq!(p.revoke_claim(7, a.clone()), Err(Error::NotClaimOwner));
    assert_eq!(p.proofs(&a), Some(ClaimRecord { owner: 1, block_number: 1 }));
    assert_eq!(p.revoke_claim(1, a.clone()), Ok(()));
    assert_eq!(p.proofs(&a), None);
    assert_eq!(p.proofs(&b), Some(ClaimRecord { owner: 2, block_number: 2 }));
    assert_eq!(p.proofs(&c), Some(ClaimRecord { owner: 3, block_number: 3 }));
    assert_eq!(p.events()[3], Event::ClaimRevoked(1, a.clone()));
    assert_eq!(p.create_claim(5, a.clone(), 4), Ok(()));
    assert_eq!(p.proofs(&a), Some(ClaimRecord { owner: 5, block_number: 4 }));
}
