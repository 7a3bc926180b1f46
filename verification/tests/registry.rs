use kitties::errors::Error;
use kitties::events::Event;
use kitties::kitty::Gender;
use kitties::pallet::{Config, Pallet};

fn registry(max: u32) -> Pallet {
    Pallet::new(Config { max_kitties_owned: max })
}

#[test]
fn mint_stores_owner_and_counts() {
    let mut p = registry(2);
    let r = p.mint(1, vec![0x01], Gender::Male, 100);
    assert_eq!(r, Ok(vec![0x01]));
    let kitty = p.get_kitty(&vec![0x01]).expect("minted kitty must exist");
    assert_eq!(kitty.owner, 1);
    assert_eq!(kitty.gender, Gender::Male);
    assert_eq!(kitty.price, None);
    assert_eq!(kitty.created_date, 100);
    assert_eq!(p.count_for_kitties(), 1);
    assert_eq!(p.kitties_owned(1), vec![vec![0x01]]);
}

#[test]
fn mint_duplicate_fails_and_changes_nothing() {
    let mut p = registry(2);
    assert!(p.mint(1, vec![0x01], Gender::Male, 100).is_ok());
    let r = p.mint(2, vec![0x01], Gender::Female, 200);
    assert_eq!(r, Err(Error::DuplicateKitty));
    assert_eq!(p.count_for_kitties(), 1);
    assert_eq!(p.get_kitty(&vec![0x01]).unwrap().owner, 1);
    assert!(p.kitties_owned(2).is_empty());
}

#[test]
fn mint_over_bound_fails_and_changes_nothing() {
    let mut p = registry(2);
    assert!(p.mint(1, vec![0x01], Gender::Male, 1).is_ok());
    assert!(p.mint(1, vec![0x02], Gender::Male, 2).is_ok());
    let r = p.mint(1, vec![0x03], Gender::Male, 3);
    assert_eq!(r, Err(Error::TooManyOwned));
    assert_eq!(p.count_for_kitties(), 2);
    assert!(p.get_kitty(&vec![0x03]).is_none());
    assert_eq!(p.kitties_owned(1), vec![vec![0x01], vec![0x02]]);
}

#[test]
fn mint_with_zero_bound_fails() {
    let mut p = registry(0);
    let r = p.mint(1, vec![0x01], Gender::Male, 1);
    assert_eq!(r, Err(Error::TooManyOwned));
    assert_eq!(p.count_for_kitties(), 0);
}

#[test]
fn transfer_moves_kitty_and_swaps_index() {
    let mut p = registry(2);
    assert!(p.mint(1, vec![0x01], Gender::Male, 1).is_ok());
    assert!(p.mint(1, vec![0x02], Gender::Female, 2).is_ok());
    let r = p.transfer(1, 2, vec![0x01]);
    assert_eq!(r, Ok(()));
    assert_eq!(p.kitties_owned(1), vec![vec![0x02]]);
    assert_eq!(p.kitties_owned(2), vec![vec![0x01]]);
    let kitty = p.get_kitty(&vec![0x01]).unwrap();
    assert_eq!(kitty.owner, 2);
    assert_eq!(kitty.price, None);
    assert_eq!(p.count_for_kitties(), 2);
}

#[test]
fn transfer_to_self_fails_and_changes_nothing() {
    let mut p = registry(2);
    assert!(p.mint(1, vec![0x01], Gender::Male, 1).is_ok());
    assert!(p.mint(1, vec![0x02], Gender::Female, 2).is_ok());
    let r = p.transfer(1, 1, vec![0x02]);
    assert_eq!(r, Err(Error::TransferToSelf));
    assert_eq!(p.kitties_owned(1), vec![vec![0x01], vec![0x02]]);
    assert_eq!(p.get_kitty(&vec![0x02]).unwrap().owner, 1);
    assert_eq!(p.count_for_kitties(), 2);
}

#[test]
fn transfer_by_non_owner_fails() {
    let mut p = registry(2);
    assert!(p.mint(1, vec![0x02], Gender::Female, 1).is_ok());
    let r = p.transfer(2, 1, vec![0x02]);
    assert_eq!(r, Err(Error::NotOwner));
    assert_eq!(p.get_kitty(&vec![0x02]).unwrap().owner, 1);
}

#[test]
fn transfer_of_missing_kitty_fails() {
    let mut p = registry(2);
    let r = p.transfer(1, 2, vec![0x7f]);
    assert_eq!(r, Err(Error::NoKitty));
}

#[test]
fn transfer_to_full_recipient_leaves_sender_intact() {
    let mut p = registry(2);
    assert!(p.mint(1, vec![0x01], Gender::Male, 1).is_ok());
    assert!(p.mint(2, vec![0x02], Gender::Male, 2).is_ok());
    assert!(p.mint(2, vec![0x03], Gender::Male, 3).is_ok());
    let r = p.transfer(1, 2, vec![0x01]);
    assert_eq!(r, Err(Error::TooManyOwned));
    // The sender's index is exactly as before the attempt: no kitty is lost.
    assert_eq!(p.kitties_owned(1), vec![vec![0x01]]);
    assert_eq!(p.kitties_owned(2), vec![vec![0x02], vec![0x03]]);
    assert_eq!(p.get_kitty(&vec![0x01]).unwrap().owner, 1);
}

#[test]
fn transfer_keeps_gender_and_created_date() {
    let mut p = registry(3);
    assert!(p.mint(1, vec![0x01], Gender::Female, 42).is_ok());
    assert!(p.transfer(1, 2, vec![0x01]).is_ok());
    assert!(p.transfer(2, 3, vec![0x01]).is_ok());
    assert!(p.transfer(3, 1, vec![0x01]).is_ok());
    let kitty = p.get_kitty(&vec![0x01]).unwrap();
    assert_eq!(kitty.gender, Gender::Female);
    assert_eq!(kitty.created_date, 42);
    assert_eq!(kitty.owner, 1);
}

#[test]
fn operations_emit_events_in_order() {
    let mut p = registry(2);
    assert!(p.mint(1, vec![0x01], Gender::Male, 1).is_ok());
    assert!(p.transfer(1, 2, vec![0x01]).is_ok());
    let events = p.events();
    assert_eq!(events.len(), 2);
    assert!(matches!(
        &events[0],
        Event::Created { kitty, owner } if kitty == &vec![0x01] && *owner == 1
    ));
    assert!(matches!(
        &events[1],
        Event::Transferred { from, to, kitty } if *from == 1 && *to == 2 && kitty == &vec![0x01]
    ));
}

#[test]
fn failed_operations_emit_no_events() {
    let mut p = registry(1);
    assert!(p.mint(1, vec![0x01], Gender::Male, 1).is_ok());
    assert!(p.mint(1, vec![0x02], Gender::Male, 2).is_err());
    assert!(p.transfer(1, 1, vec![0x01]).is_err());
    assert_eq!(p.events().len(), 1);
}
