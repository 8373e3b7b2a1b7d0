use kitties::system::CreatureSystem;
use kitties::system::STAKE;
use kitties::types::Error;
use kitties::types::Event;

fn dna(b: u8) -> Vec<u8> {
    vec![b; 16]
}

fn funded() -> CreatureSystem {
    let mut sys = CreatureSystem::new();
    sys.endow(1, 100_000);
    sys.endow(2, 100_000);
    sys
}

#[test]
fn create_registers_ownership_and_emits_created() {
    let mut sys = funded();
    let r = sys.create(1, dna(7));
    assert_eq!(r, Ok(0));
    assert_eq!(sys.creatures_count(), 1);
    assert_eq!(sys.owned_members(1), vec![0]);
    assert_eq!(sys.owner(0), Some(1));
    assert_eq!(sys.genetics(0), Some(dna(7)));
    assert_eq!(sys.events()[0], Event::Created { owner: 1, creature: 0 });
    assert_eq!(
        sys.events()[1],
        Event::FundsReserved { account: 1, amount: STAKE, height: 0 }
    );
    assert_eq!(sys.free_balance(1), 100_000 - STAKE);
    assert_eq!(sys.reserved_balance(1), STAKE);
}

#[test]
fn second_create_is_inserted_at_the_head() {
    let mut sys = funded();
    assert_eq!(sys.create(1, dna(7)), Ok(0));
    assert_eq!(sys.create(1, dna(8)), Ok(1));
    // head insertion order
    assert_eq!(sys.owned_members(1), vec![1, 0]);
}

#[test]
fn create_without_funds_fails_and_changes_nothing() {
    let mut sys = CreatureSystem::new();
    assert_eq!(sys.create(1, dna(7)), Err(Error::InsufficientFunds));
    assert_eq!(sys.creatures_count(), 0);
    assert_eq!(sys.owned_members(1), Vec::<u64>::new());
    assert_eq!(sys.events().len(), 0);
}

#[test]
fn breed_builds_all_lineage_indices() {
    let mut sys = funded();
    assert_eq!(sys.create(1, dna(7)), Ok(0));
    assert_eq!(sys.create(1, dna(8)), Ok(1));
    let r = sys.breed(1, 0, 1, vec![0xff; 16]);
    assert_eq!(r, Ok(2));
    // all-ones selector: the child inherits parent 1 whole
    assert_eq!(sys.genetics(2), Some(dna(7)));
    assert_eq!(sys.owned_members(1), vec![2, 1, 0]);
    assert_eq!(sys.owner(2), Some(1));
    assert_eq!(sys.parents_members(2), vec![1, 0]);
    assert_eq!(sys.mates_members(0), vec![1]);
    assert_eq!(sys.mates_members(1), vec![0]);
    assert_eq!(sys.children_members(0), vec![2]);
    assert_eq!(sys.children_members(1), vec![2]);
    // no prior children existed, so the child has no siblings
    assert_eq!(sys.siblings_members(2), Vec::<u64>::new());
}

#[test]
fn breed_validation_order_and_errors() {
    let mut sys = funded();
    assert_eq!(sys.create(1, dna(7)), Ok(0));
    assert_eq!(sys.create(2, dna(8)), Ok(1));
    assert_eq!(sys.breed(1, 0, 9, vec![0; 16]), Err(Error::InvalidCreatureId));
    assert_eq!(sys.breed(1, 9, 0, vec![0; 16]), Err(Error::InvalidCreatureId));
    assert_eq!(sys.breed(1, 0, 1, vec![0; 16]), Err(Error::RequireOwner));
    assert_eq!(sys.breed(1, 0, 0, vec![0; 16]), Err(Error::RequireDifferentParent));
    assert_eq!(sys.creatures_count(), 2);
}

#[test]
fn breed_without_funds_fails_after_checks() {
    let mut sys = funded();
    assert_eq!(sys.create(1, dna(7)), Ok(0));
    assert_eq!(sys.create(1, dna(8)), Ok(1));
    // drain the free balance below the stake
    assert!(sys.transfer_funds(1, 2, 100_000 - 2 * STAKE - 1).is_ok());
    assert_eq!(sys.breed(1, 0, 1, vec![0; 16]), Err(Error::InsufficientFunds));
    assert_eq!(sys.creatures_count(), 2);
    assert_eq!(sys.children_members(0), Vec::<u64>::new());
}

#[test]
fn siblings_are_the_parents_children_before_the_breeding() {
    let mut sys = funded();
    assert_eq!(sys.create(1, dna(1)), Ok(0));
    assert_eq!(sys.create(1, dna(2)), Ok(1));
    assert_eq!(sys.create(1, dna(3)), Ok(2));
    assert_eq!(sys.breed(1, 0, 1, vec![0; 16]), Ok(3));
    assert_eq!(sys.breed(1, 1, 2, vec![0; 16]), Ok(4));
    // parent 0 had child [3], parent 2 had child [4] before this breeding
    assert_eq!(sys.breed(1, 0, 2, vec![0; 16]), Ok(5));
    assert_eq!(sys.siblings_members(5), vec![4, 3]);
    assert!(!sys.siblings_members(5).contains(&5));
    // repeated breeding of the same pair: the half-sibling is listed once
    assert_eq!(sys.breed(1, 0, 1, vec![0; 16]), Ok(6));
    assert_eq!(sys.siblings_members(6), vec![4, 3, 5]);
    // mates lists do not grow on repeated matings
    assert_eq!(sys.mates_members(0), vec![2, 1]);
    assert_eq!(sys.mates_members(1), vec![2, 0]);
}

#[test]
fn transfer_moves_ownership_and_stake() {
    let mut sys = funded();
    assert_eq!(sys.create(1, dna(7)), Ok(0));
    assert_eq!(sys.create(1, dna(8)), Ok(1));
    assert_eq!(sys.breed(1, 0, 1, vec![0; 16]), Ok(2));
    let free_before = sys.free_balance(1);
    assert_eq!(sys.transfer(1, 2, 0), Ok(()));
    assert_eq!(sys.owned_members(1), vec![2, 1]);
    assert_eq!(sys.owned_members(2), vec![0]);
    assert_eq!(sys.owner(0), Some(2));
    assert_eq!(sys.free_balance(1), free_before - STAKE);
    let n = sys.events().len();
    assert_eq!(
        sys.events()[n - 2],
        Event::Transferred { from: 1, to: 2, creature: 0 }
    );
    assert_eq!(
        sys.events()[n - 1],
        Event::FundsTransferred { from: 1, to: 2, amount: STAKE, height: 0 }
    );
    // the new owner alone may transfer further
    assert_eq!(sys.transfer(2, 1, 1), Err(Error::RequireOwner));
    assert_eq!(sys.owned_members(1), vec![2, 1]);
}

#[test]
fn ask_and_buy_at_asking_price() {
    let mut sys = funded();
    assert_eq!(sys.create(1, dna(7)), Ok(0));
    assert_eq!(sys.ask(1, 0, Some(50)), Ok(()));
    assert_eq!(sys.price(0), Some(50));
    assert_eq!(
        *sys.events().last().unwrap(),
        Event::Ask { owner: 1, creature: 0, optional_price: Some(50) }
    );
    let seller_free = sys.free_balance(1);
    let buyer_free = sys.free_balance(2);
    assert_eq!(sys.buy(2, 0, 50), Ok(()));
    assert_eq!(sys.owner(0), Some(2));
    assert_eq!(sys.owned_members(2), vec![0]);
    assert_eq!(sys.owned_members(1), Vec::<u64>::new());
    assert_eq!(sys.price(0), None);
    assert_eq!(sys.free_balance(1), seller_free + 50);
    assert_eq!(sys.free_balance(2), buyer_free - 50);
    assert_eq!(
        *sys.events().last().unwrap(),
        Event::Sold { from: 1, to: 2, creature: 0, price: 50 }
    );
}

#[test]
fn buy_below_asking_price_fails_and_leaves_ownership_unchanged() {
    let mut sys = funded();
    assert_eq!(sys.create(1, dna(7)), Ok(0));
    assert_eq!(sys.ask(1, 0, Some(50)), Ok(()));
    assert_eq!(sys.buy(2, 0, 40), Err(Error::PriceTooLow));
    assert_eq!(sys.owner(0), Some(1));
    assert_eq!(sys.owned_members(1), vec![0]);
    assert_eq!(sys.owned_members(2), Vec::<u64>::new());
    assert_eq!(sys.price(0), Some(50));
}

#[test]
fn buy_errors_for_missing_creature_and_missing_price() {
    let mut sys = funded();
    assert_eq!(sys.buy(2, 0, 50), Err(Error::InvalidCreatureId));
    assert_eq!(sys.create(1, dna(7)), Ok(0));
    assert_eq!(sys.buy(2, 0, 50), Err(Error::NotForSale));
    let mut poor = CreatureSystem::new();
    poor.endow(1, 10_000);
    assert_eq!(poor.create(1, dna(7)), Ok(0));
    assert_eq!(poor.ask(1, 0, Some(5_000)), Ok(()));
    assert_eq!(poor.buy(3, 0, 5_000), Err(Error::InsufficientFunds));
    assert_eq!(poor.owner(0), Some(1));
}

#[test]
fn ask_requires_ownership_and_none_delists() {
    let mut sys = funded();
    assert_eq!(sys.create(1, dna(7)), Ok(0));
    assert_eq!(sys.ask(2, 0, Some(50)), Err(Error::RequireOwner));
    assert_eq!(sys.price(0), None);
    assert_eq!(sys.ask(1, 0, Some(50)), Ok(()));
    assert_eq!(sys.ask(1, 0, None), Ok(()));
    assert_eq!(sys.price(0), None);
}

#[test]
fn reserve_and_unreserve_funds() {
    let mut sys = CreatureSystem::new();
    sys.endow(5, 1_000);
    assert_eq!(sys.reserve_funds(5, 1_500), Err(Error::InsufficientFunds));
    assert_eq!(sys.reserve_funds(5, 600), Ok(()));
    assert_eq!(sys.free_balance(5), 400);
    assert_eq!(sys.reserved_balance(5), 600);
    // over-unreserving is capped at what is reserved
    sys.unreserve_funds(5, 10_000);
    assert_eq!(sys.free_balance(5), 1_000);
    assert_eq!(sys.reserved_balance(5), 0);
    assert_eq!(
        *sys.events().last().unwrap(),
        Event::FundsUnreserved { account: 5, amount: 10_000, height: 0 }
    );
}

#[test]
fn transfer_funds_moves_free_balance() {
    let mut sys = CreatureSystem::new();
    sys.endow(5, 1_000);
    assert_eq!(sys.transfer_funds(5, 6, 1_500), Err(Error::InsufficientFunds));
    assert_eq!(sys.transfer_funds(5, 6, 400), Ok(()));
    assert_eq!(sys.free_balance(5), 600);
    assert_eq!(sys.free_balance(6), 400);
    assert_eq!(
        *sys.events().last().unwrap(),
        Event::FundsTransferred { from: 5, to: 6, amount: 400, height: 0 }
    );
}

#[test]
fn events_carry_the_current_height() {
    let mut sys = funded();
    sys.set_height(42);
    assert_eq!(sys.create(1, dna(7)), Ok(0));
    assert_eq!(
        *sys.events().last().unwrap(),
        Event::FundsReserved { account: 1, amount: STAKE, height: 42 }
    );
}

#[test]
fn failed_operations_leave_no_trace_in_the_log() {
    let mut sys = funded();
    assert_eq!(sys.create(1, dna(7)), Ok(0));
    let n = sys.events().len();
    assert_eq!(sys.transfer(2, 1, 0), Err(Error::RequireOwner));
    assert_eq!(sys.breed(1, 0, 0, vec![0; 16]), Err(Error::RequireDifferentParent));
    assert_eq!(sys.buy(2, 0, 10), Err(Error::NotForSale));
    assert_eq!(sys.events().len(), n);
}
