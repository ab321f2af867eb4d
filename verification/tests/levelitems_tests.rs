use lib::levelitems::{
    AddLevelItemToList, AllocLevelItem, FreeLevelItem, InitLevelItemHeap, LevelItems,
    RemoveLevelItemFromList, NO_ITEM,
};

fn level_numbers(h: &LevelItems) -> Vec<i32> {
    let mut out = Vec::new();
    let mut li = h.levelitems;
    while li != NO_ITEM {
        out.push(h.levelitemheap[li as usize].number);
        li = h.levelitemheap[li as usize].next;
    }
    out
}

fn heap(n: i32) -> LevelItems {
    let mut h = LevelItems::new();
    InitLevelItemHeap(&mut h, n);
    h
}

#[test]
fn heap_hands_out_items_in_order() {
    let mut h = heap(3);
    assert_eq!(AllocLevelItem(&mut h), 0);
    assert_eq!(AllocLevelItem(&mut h), 1);
    assert_eq!(AllocLevelItem(&mut h), 2);
    assert_eq!(AllocLevelItem(&mut h), NO_ITEM);
    FreeLevelItem(&mut h, 1);
    assert_eq!(AllocLevelItem(&mut h), 1);
}

#[test]
fn allocated_item_is_cleared() {
    let mut h = heap(2);
    let a = AllocLevelItem(&mut h);
    h.levelitemheap[a as usize].number = 42;
    FreeLevelItem(&mut h, a);
    let b = AllocLevelItem(&mut h);
    assert_eq!(b, a);
    assert_eq!(h.levelitemheap[b as usize].number, 0);
}

#[test]
fn level_list_is_newest_first() {
    let mut h = heap(4);
    for n in 1..=3 {
        let li = AllocLevelItem(&mut h);
        h.levelitemheap[li as usize].number = n;
        AddLevelItemToList(&mut h, li);
    }
    assert_eq!(level_numbers(&h), vec![3, 2, 1]);
    RemoveLevelItemFromList(&mut h, 1);
    assert_eq!(level_numbers(&h), vec![3, 1]);
    RemoveLevelItemFromList(&mut h, 2);
    assert_eq!(level_numbers(&h), vec![1]);
    FreeLevelItem(&mut h, 2);
    RemoveLevelItemFromList(&mut h, 0);
    assert_eq!(level_numbers(&h), Vec::<i32>::new());
}

#[test]
fn add_then_remove_restores_list() {
    let mut h = heap(4);
    let a = AllocLevelItem(&mut h);
    h.levelitemheap[a as usize].number = 7;
    AddLevelItemToList(&mut h, a);
    let b = AllocLevelItem(&mut h);
    AddLevelItemToList(&mut h, b);
    RemoveLevelItemFromList(&mut h, b);
    assert_eq!(level_numbers(&h), vec![7]);
}
