use kitties::errors::Error;
use kitties::genesis::GenesisConfig;
use kitties::kitty::Gender;
use kitties::pallet::{Config, Pallet};

#[test]
fn gen_dna_concatenates_seed_and_context() {
    let seed = vec![0xAB];
    let dna = Pallet::gen_dna(&seed, 0x0102_0304, 0x0506_0708_090A_0B0C).unwrap();
    assert_eq!(
        dna,
        vec![0xAB, 0x04, 0x03, 0x02, 0x01, 0x0C, 0x0B, 0x0A, 0x09, 0x08, 0x07, 0x06, 0x05]
    );
}

#[test]
fn gen_dna_of_empty_seed_is_context_only() {
    let seed: Vec<u8> = Vec::new();
    let dna = Pallet::gen_dna(&seed, 0, 0).unwrap();
    assert_eq!(dna, vec![0, 0, 0, 0, 0, 0, 0, 0, 0, 0, 0, 0]);
}

#[test]
fn gen_gender_follows_length_parity() {
    assert_eq!(Pallet::gen_gender(vec![]), Ok(Gender::Male));
    assert_eq!(Pallet::gen_gender(vec![1]), Ok(Gender::Female));
    assert_eq!(Pallet::gen_gender(vec![1, 2]), Ok(Gender::Male));
    assert_eq!(Pallet::gen_gender(vec![1, 2, 3]), Ok(Gender::Female));
}

#[test]
fn gender_defaults_to_male() {
    assert_eq!(Gender::default(), Gender::Male);
}

#[test]
fn create_kitty_mints_generated_identity() {
    let mut p = Pallet::new(Config { max_kitties_owned: 2 });
    let seed = vec![9, 9];
    let r = p.create_kitty(7, &seed, 7, 3, 50);
    // seed ++ 7 as four little-endian bytes ++ 3 as eight little-endian bytes
    let expected = vec![9, 9, 7, 0, 0, 0, 3, 0, 0, 0, 0, 0, 0, 0];
    assert_eq!(r, Ok(expected.clone()));
    let kitty = p.get_kitty(&expected).expect("created kitty must exist");
    assert_eq!(kitty.owner, 7);
    // 14 bytes: even length, so the derived gender is Male.
    assert_eq!(kitty.gender, Gender::Male);
    assert_eq!(kitty.created_date, 50);
    assert_eq!(p.count_for_kitties(), 1);
}

#[test]
fn create_kitty_rejects_repeated_context() {
    let mut p = Pallet::new(Config { max_kitties_owned: 2 });
    let seed = vec![9, 9];
    assert!(p.create_kitty(7, &seed, 7, 3, 50).is_ok());
    // The same randomness and block context generate the same identity.
    let r = p.create_kitty(8, &seed, 7, 3, 51);
    assert_eq!(r, Err(Error::DuplicateKitty));
    assert_eq!(p.count_for_kitties(), 1);
}

#[test]
fn create_kitty_with_odd_seed_derives_female() {
    let mut p = Pallet::new(Config { max_kitties_owned: 2 });
    let seed = vec![1];
    assert!(p.create_kitty(4, &seed, 0, 0, 1).is_ok());
    let expected = vec![1, 0, 0, 0, 0, 0, 0, 0, 0, 0, 0, 0, 0];
    assert_eq!(p.get_kitty(&expected).unwrap().gender, Gender::Female);
}

#[test]
fn genesis_default_is_empty() {
    let config = GenesisConfig::default();
    assert!(config.kitties.is_empty());
    let mut p = Pallet::new(Config { max_kitties_owned: 2 });
    assert_eq!(config.build(&mut p, 0), Ok(()));
    assert_eq!(p.count_for_kitties(), 0);
}

#[test]
fn genesis_preloads_each_entry() {
    let config = GenesisConfig {
        kitties: vec![(5, vec![0x0A], Gender::Female), (6, vec![0x0B], Gender::Male)],
    };
    let mut p = Pallet::new(Config { max_kitties_owned: 2 });
    assert_eq!(config.build(&mut p, 9), Ok(()));
    assert_eq!(p.count_for_kitties(), 2);
    let first = p.get_kitty(&vec![0x0A]).expect("preloaded kitty must exist");
    assert_eq!(first.owner, 5);
    assert_eq!(first.gender, Gender::Female);
    assert_eq!(first.created_date, 9);
    let second = p.get_kitty(&vec![0x0B]).expect("preloaded kitty must exist");
    assert_eq!(second.owner, 6);
    assert_eq!(second.gender, Gender::Male);
    assert_eq!(p.kitties_owned(5), vec![vec![0x0A]]);
    assert_eq!(p.kitties_owned(6), vec![vec![0x0B]]);
}

#[test]
fn genesis_stops_at_duplicate_identity() {
    let config = GenesisConfig {
        kitties: vec![(5, vec![0x0A], Gender::Female), (6, vec![0x0A], Gender::Male)],
    };
    let mut p = Pallet::new(Config { max_kitties_owned: 2 });
    assert_eq!(config.build(&mut p, 9), Err(Error::DuplicateKitty));
    // The first entry took effect; the duplicate stopped the preload there.
    assert_eq!(p.count_for_kitties(), 1);
    assert_eq!(p.get_kitty(&vec![0x0A]).unwrap().owner, 5);
}

#[test]
fn genesis_fails_when_owner_is_full() {
    let config = GenesisConfig { kitties: vec![(5, vec![0x0A], Gender::Male)] };
    let mut p = Pallet::new(Config { max_kitties_owned: 0 });
    assert_eq!(config.build(&mut p, 9), Err(Error::TooManyOwned));
    assert_eq!(p.count_for_kitties(), 0);
}
