use kitties::balances::Balances;
use kitties::dna::SeedContext;
use kitties::pallet::{Config, Error, Pallet};

fn seed() -> SeedContext {
    SeedContext { random_seed: [3u8; 32], block_number: 9, extrinsic_index: None }
}

fn setup(max: u32) -> (Pallet, Balances) {
    let mut b = Balances::new(1);
    b.make_free_balance_be(1, 10);
    b.make_free_balance_be(2, 10);
    b.make_free_balance_be(3, 10);
    (Pallet::new(Config { max_kitty_index_length: max }), b)
}

#[test]
fn first_create_gets_id_one() {
    let (mut p, mut b) = setup(1000);
    assert_eq!(p.create(&mut b, 1, 10, &seed()), Ok(1));
    assert_eq!(p.owner(1), Some(1));
    assert_eq!(p.kitties_count(), 1);
}

#[test]
fn creates_stop_at_the_configured_bound() {
    let (mut p, mut b) = setup(4);
    assert_eq!(p.create(&mut b, 1, 1, &seed()), Ok(1));
    assert_eq!(p.create(&mut b, 1, 1, &seed()), Ok(2));
    assert_eq!(p.create(&mut b, 1, 1, &seed()), Ok(3));
    assert_eq!(p.create(&mut b, 1, 1, &seed()), Err(Error::KittiesCountOverflow));
    assert_eq!(p.kitties_count(), 3);
    assert_eq!(p.kitties(4), None);
}

#[test]
fn create_short_of_balance_creates_nothing() {
    let (mut p, mut b) = setup(1000);
    assert_eq!(p.create(&mut b, 1, 20, &seed()), Err(Error::NotEnoughBalance));
    assert_eq!(p.kitties_count(), 0);
    assert_eq!(p.kitties(1), None);
    assert_eq!(p.owner(1), None);
    assert!(p.events().is_empty());
}

#[test]
fn breed_two_created_kitties_gets_id_three() {
    let (mut p, mut b) = setup(1000);
    assert_eq!(p.create(&mut b, 1, 2, &seed()), Ok(1));
    assert_eq!(p.create(&mut b, 1, 2, &seed()), Ok(2));
    assert_eq!(p.breed(&mut b, 1, 1, 2, 2, &seed()), Ok(3));
    assert_eq!(p.owner(3), Some(1));
}

#[test]
fn breed_same_parent_fails_with_or_without_kitty() {
    let (mut p, mut b) = setup(1000);
    assert_eq!(p.breed(&mut b, 1, 1, 1, 2, &seed()), Err(Error::SameParentIndex));
    assert_eq!(p.create(&mut b, 1, 2, &seed()), Ok(1));
    assert_eq!(p.breed(&mut b, 1, 1, 1, 2, &seed()), Err(Error::SameParentIndex));
}

#[test]
fn buy_from_claimed_seller_who_is_not_owner_fails() {
    let (mut p, mut b) = setup(1000);
    assert_eq!(p.create(&mut b, 2, 2, &seed()), Ok(1));
    assert_eq!(p.buy(&mut b, 1, 1, 3), Err(Error::NotOwner));
    assert_eq!(p.owner(1), Some(2));
}

#[test]
fn ids_increase_by_one_over_mixed_operations() {
    let (mut p, mut b) = setup(1000);
    assert_eq!(p.create(&mut b, 1, 1, &seed()), Ok(1));
    assert_eq!(p.create(&mut b, 1, 1, &seed()), Ok(2));
    assert_eq!(p.transfer(&mut b, 1, 2, 1), Ok(()));
    assert_eq!(p.create(&mut b, 2, 1, &seed()), Ok(3));
    assert_eq!(p.breed(&mut b, 2, 1, 3, 1, &seed()), Ok(4));
    assert_eq!(p.sell(&mut b, 2, 4, 3), Ok(()));
    assert_eq!(p.create(&mut b, 3, 1, &seed()), Ok(5));
    assert_eq!(p.kitties_count(), 5);
}

#[test]
fn dna_and_price_stay_after_trades() {
    let (mut p, mut b) = setup(1000);
    assert_eq!(p.create(&mut b, 1, 2, &seed()), Ok(1));
    let before = p.kitties(1).unwrap();
    assert_eq!(p.transfer(&mut b, 1, 2, 1), Ok(()));
    assert_eq!(p.buy(&mut b, 3, 1, 2), Ok(()));
    assert_eq!(p.sell(&mut b, 3, 1, 1), Ok(()));
    assert_eq!(p.create(&mut b, 1, 2, &seed()), Ok(2));
    assert_eq!(p.breed(&mut b, 1, 1, 2, 2, &seed()), Ok(3));
    assert_eq!(p.kitties(1), Some(before));
    assert_eq!(p.owner(1), Some(1));
}

#[test]
fn failed_operations_change_nothing() {
    let (mut p, mut b) = setup(1000);
    assert_eq!(p.create(&mut b, 1, 4, &seed()), Ok(1));
    assert_eq!(p.create(&mut b, 2, 4, &seed()), Ok(2));
    let snapshot = |p: &Pallet, b: &Balances| {
        (
            p.kitties_count(),
            p.kitties(1),
            p.kitties(2),
            p.owner(1),
            p.owner(2),
            p.events().len(),
            [b.free_balance(1), b.reserved_balance(1), b.free_balance(2), b.reserved_balance(2)],
        )
    };
    let before = snapshot(&p, &b);
    assert_eq!(p.create(&mut b, 1, 7, &seed()), Err(Error::NotEnoughBalance));
    assert_eq!(p.transfer(&mut b, 2, 3, 1), Err(Error::NotOwner));
    assert_eq!(p.breed(&mut b, 1, 1, 2, 1, &seed()), Err(Error::NotOwner));
    assert_eq!(p.buy(&mut b, 1, 9, 2), Err(Error::InvalidKittyIndex));
    assert_eq!(p.sell(&mut b, 1, 2, 3), Err(Error::NotOwner));
    assert_eq!(snapshot(&p, &b), before);
}

#[test]
fn buy_refused_when_seller_would_drop_below_deposit() {
    // the seller keeps nothing free, so paying the price would leave it empty
    let mut b = Balances::new(1);
    b.make_free_balance_be(1, 10);
    b.make_free_balance_be(2, 3);
    let mut p = Pallet::new(Config { max_kitty_index_length: 1000 });
    assert_eq!(p.create(&mut b, 2, 3, &seed()), Ok(1));
    assert_eq!(p.buy(&mut b, 1, 1, 2), Err(Error::NotEnoughBalance));
    assert_eq!(b.reserved_balance(2), 3);
    assert_eq!(b.free_balance(2), 0);
    assert_eq!(b.free_balance(1), 10);
    assert_eq!(p.owner(1), Some(2));
}

#[test]
fn first_failed_condition_decides_the_error() {
    let (mut p, mut b) = setup(1000);
    assert_eq!(p.create(&mut b, 1, 2, &seed()), Ok(1));
    assert_eq!(p.create(&mut b, 2, 2, &seed()), Ok(2));
    // missing parent comes before wrong owner
    assert_eq!(p.breed(&mut b, 1, 2, 7, 100, &seed()), Err(Error::InvalidKittyIndex));
    // wrong owner comes before balance
    assert_eq!(p.breed(&mut b, 1, 1, 2, 100, &seed()), Err(Error::NotOwner));
    // missing kitty comes before wrong owner for trades
    assert_eq!(p.transfer(&mut b, 3, 3, 5), Err(Error::InvalidKittyIndex));
    // wrong owner comes before balance
    assert_eq!(p.sell(&mut b, 3, 1, 100), Err(Error::NotOwner));
    p.set_kitties_count(u32::MAX);
    // counter comes before balance
    assert_eq!(p.create(&mut b, 1, 100, &seed()), Err(Error::KittiesCountOverflow));
}
