use lib::weightfiles::{WeightFileLookup, WeightFileSlot};

#[test]
fn weight_file_found_by_name() {
    let names = vec![None, Some(b"bots/a_w.c\0".to_vec()), Some(b"bots/b_w.c\0".to_vec())];
    assert_eq!(WeightFileLookup(&names, &b"bots/b_w.c\0".to_vec()), WeightFileSlot::Cached(2));
    assert_eq!(WeightFileLookup(&names, &b"bots/a_w.c".to_vec()), WeightFileSlot::Cached(1));
}

#[test]
fn weight_file_gets_the_first_free_slot() {
    let names = vec![Some(b"bots/a_w.c\0".to_vec()), None, Some(b"bots/b_w.c\0".to_vec()), None];
    assert_eq!(WeightFileLookup(&names, &b"bots/c_w.c\0".to_vec()), WeightFileSlot::Free(1));
}

#[test]
fn weight_file_list_full() {
    let names = vec![Some(b"bots/a_w.c\0".to_vec()), Some(b"bots/b_w.c\0".to_vec())];
    assert_eq!(WeightFileLookup(&names, &b"bots/c_w.c\0".to_vec()), WeightFileSlot::Full);
    assert_eq!(WeightFileLookup(&Vec::new(), &b"bots/c_w.c\0".to_vec()), WeightFileSlot::Full);
}

#[test]
fn kept_weight_file_is_found_again() {
    let mut names = vec![Some(b"bots/a_w.c\0".to_vec()), None, None];
    let file = b"bots/c_w.c\0".to_vec();
    let slot = WeightFileLookup(&names, &file);
    assert_eq!(slot, WeightFileSlot::Free(1));
    names[1] = Some(file.clone());
    assert_eq!(WeightFileLookup(&names, &file), WeightFileSlot::Cached(1));
}
