use std::collections::HashMap;

use kitties::Error;
use kitties::Event;
use kitties::Module;

#[test]
fn test_combine_dna_example() {
    // Per-bit selection: selector bit set takes dna1's bit, clear takes dna2's.
    assert_eq!(Module::combine_dna(0b1010, 0b0101, 0b1100), 0b1001);
    assert_eq!(Module::combine_dna(0xAA, 0x55, 0xF0), 0xA5);
    assert_eq!(Module::combine_dna(0x12, 0x34, 0x00), 0x34);
    assert_eq!(Module::combine_dna(0x12, 0x34, 0xFF), 0x12);
}

#[test]
fn test_create_assigns_ownership() {
    let mut m = Module::new();
    let id = m.create(1, [7u8; 16]).unwrap();
    assert_eq!(id, 0);
    assert_eq!(m.kitties_count(), 1);
    assert_eq!(m.kitty_owner(0), Some(1));
    assert_eq!(m.kitty_list(1), vec![0]);
    assert_eq!(m.kitties(0).unwrap().0, [7u8; 16]);
    assert_eq!(m.kitty_parent(0), None);
    assert_eq!(m.events, vec![Event::Created(1, 0)]);
}

#[test]
fn test_create_counter_overflow() {
    // A registry whose identifier space is exhausted refuses to create and
    // changes nothing.
    let mut m = Module {
        counter: u32::MAX,
        kitties: Vec::new(),
        owners: HashMap::new(),
        owned: HashMap::new(),
        parents: HashMap::new(),
        children: HashMap::new(),
        events: Vec::new(),
    };
    assert_eq!(m.next_kitty_id(), Err(Error::CounterOverflow));
    assert_eq!(m.create(1, [0u8; 16]), Err(Error::CounterOverflow));
    assert_eq!(m.counter, u32::MAX);
    assert!(m.events.is_empty());
    assert!(m.owned.is_empty());
}

#[test]
fn test_transfer_not_owner() {
    let mut m = Module::new();
    let id = m.create(1, [7u8; 16]).unwrap();
    // Account 2 owns nothing, so it may not transfer id 0.
    assert_eq!(m.transfer(2, 3, id), Err(Error::NotOwner));
    // An unknown id has no owner at all.
    assert_eq!(m.transfer(1, 3, 9), Err(Error::NotOwner));
    // Nothing moved.
    assert_eq!(m.kitty_owner(0), Some(1));
    assert_eq!(m.kitty_list(1), vec![0]);
    assert_eq!(m.kitty_list(2), Vec::<u32>::new());
    assert_eq!(m.kitty_list(3), Vec::<u32>::new());
    assert_eq!(m.events, vec![Event::Created(1, 0)]);
}

#[test]
fn test_transfer_moves_ownership() {
    let mut m = Module::new();
    let id = m.create(1, [7u8; 16]).unwrap();
    assert_eq!(m.transfer(1, 2, id), Ok(()));
    assert_eq!(m.kitty_owner(0), Some(2));
    assert_eq!(m.kitty_list(1), Vec::<u32>::new());
    assert_eq!(m.kitty_list(2), vec![0]);
    assert_eq!(m.kitties_count(), 1);
    assert_eq!(m.events, vec![Event::Created(1, 0), Event::Transferred(1, 2, 0)]);
}

#[test]
fn test_transfer_to_self() {
    // Transferring to oneself is permitted: the id moves to the end of the
    // caller's own list.
    let mut m = Module::new();
    m.create(1, [1u8; 16]).unwrap();
    m.create(1, [2u8; 16]).unwrap();
    assert_eq!(m.transfer(1, 1, 0), Ok(()));
    assert_eq!(m.kitty_owner(0), Some(1));
    assert_eq!(m.kitty_list(1), vec![1, 0]);
}

#[test]
fn test_breed_same_parent() {
    let mut m = Module::new();
    // The parent-distinctness check comes first, even for unknown ids.
    assert_eq!(m.breed(1, 3, 3, [0u8; 16]), Err(Error::RequireDifferentParent));
    m.create(1, [7u8; 16]).unwrap();
    assert_eq!(m.breed(1, 0, 0, [0u8; 16]), Err(Error::RequireDifferentParent));
    assert_eq!(m.kitties_count(), 1);
    assert_eq!(m.events, vec![Event::Created(1, 0)]);
}

#[test]
fn test_breed_unknown_parent() {
    let mut m = Module::new();
    m.create(1, [7u8; 16]).unwrap();
    assert_eq!(m.breed(1, 0, 9, [0u8; 16]), Err(Error::InvalidEntityId));
    assert_eq!(m.breed(1, 9, 0, [0u8; 16]), Err(Error::InvalidEntityId));
    assert_eq!(m.breed(1, 5, 9, [0u8; 16]), Err(Error::InvalidEntityId));
    assert_eq!(m.kitties_count(), 1);
}

#[test]
fn test_breed_combines_genomes() {
    let mut m = Module::new();
    m.create(1, [0xAA; 16]).unwrap();
    m.create(1, [0x55; 16]).unwrap();
    let child = m.breed(2, 0, 1, [0xF0; 16]).unwrap();
    assert_eq!(child, 2);
    // (0xF0 & 0xAA) | (0x0F & 0x55) == 0xA0 | 0x05 == 0xA5 at every position.
    assert_eq!(m.kitties(child).unwrap().0, [0xA5; 16]);
    // Any caller may breed anyone's kitties; the child goes to the caller.
    assert_eq!(m.kitty_owner(child), Some(2));
    assert_eq!(m.kitty_parent(child), Some((0, 1)));
    assert_eq!(m.kitty_children(0, 1), vec![2]);
}

#[test]
fn test_children_accumulate_per_ordered_pair() {
    let mut m = Module::new();
    m.create(1, [0xAA; 16]).unwrap();
    m.create(1, [0x55; 16]).unwrap();
    let c1 = m.breed(1, 0, 1, [0x00; 16]).unwrap();
    let c2 = m.breed(1, 0, 1, [0xFF; 16]).unwrap();
    assert_eq!(m.kitty_children(0, 1), vec![c1, c2]);
    // The pair is kept exactly as supplied: (1, 0) is a different pair.
    assert_eq!(m.kitty_children(1, 0), Vec::<u32>::new());
    let c3 = m.breed(1, 1, 0, [0x0F; 16]).unwrap();
    assert_eq!(m.kitty_children(1, 0), vec![c3]);
    assert_eq!(m.kitty_children(0, 1), vec![c1, c2]);
}

#[test]
fn test_scenario_full() {
    let a = 1u64;
    let b = 2u64;
    let mut m = Module::new();

    let id0 = m.create(a, [0xAA; 16]).unwrap();
    assert_eq!(id0, 0);
    assert_eq!(m.kitty_list(a), vec![0]);

    let id1 = m.create(a, [0x55; 16]).unwrap();
    assert_eq!(id1, 1);
    assert_eq!(m.kitty_list(a), vec![0, 1]);

    let id2 = m.breed(a, 0, 1, [0xF0; 16]).unwrap();
    assert_eq!(id2, 2);
    assert_eq!(m.kitties(2).unwrap().0, [0xA5; 16]);
    assert_eq!(m.kitty_list(a), vec![0, 1, 2]);
    assert_eq!(m.kitty_parent(2), Some((0, 1)));
    assert_eq!(m.kitty_children(0, 1), vec![2]);

    assert_eq!(m.transfer(a, b, 0), Ok(()));
    assert_eq!(m.kitty_owner(0), Some(b));
    assert_eq!(m.kitty_list(a), vec![1, 2]);
    assert_eq!(m.kitty_list(b), vec![0]);

    assert_eq!(
        m.events,
        vec![
            Event::Created(a, 0),
            Event::Created(a, 1),
            Event::Created(a, 2),
            Event::Transferred(a, b, 0),
        ]
    );
}

#[test]
fn test_counter_counts_successful_calls() {
    let mut m = Module::new();
    assert_eq!(m.kitties_count(), 0);
    m.create(1, [1u8; 16]).unwrap(); // success 1
    m.create(2, [2u8; 16]).unwrap(); // success 2
    m.breed(1, 0, 1, [3u8; 16]).unwrap(); // success 3
    assert_eq!(m.breed(1, 0, 0, [0u8; 16]), Err(Error::RequireDifferentParent));
    assert_eq!(m.breed(1, 0, 9, [0u8; 16]), Err(Error::InvalidEntityId));
    m.transfer(1, 2, 0).unwrap(); // transfers never advance the counter
    m.create(3, [4u8; 16]).unwrap(); // success 4
    assert_eq!(m.kitties_count(), 4);
}

#[test]
fn test_getters_on_unknown_values() {
    let m = Module::new();
    assert!(m.kitties(5).is_none());
    assert_eq!(m.kitty_owner(5), None);
    assert_eq!(m.kitty_parent(5), None);
    assert_eq!(m.kitty_children(3, 4), Vec::<u32>::new());
    assert_eq!(m.kitty_list(9), Vec::<u32>::new());
    assert_eq!(m.kitties_count(), 0);
}
