use genref::{SlotTable, BLOCK_SIZE, FIRST_GEN};

#[test]
fn empty_table_grows_on_first_acquire() {
    let mut t = SlotTable::new();
    assert_eq!(t.len(), 0);
    assert_eq!(t.free_len(), 0);
    let i = t.acquire_slot();
    assert_eq!(t.len(), BLOCK_SIZE);
    assert_eq!(t.free_len(), BLOCK_SIZE - 1);
    assert_eq!(i, BLOCK_SIZE - 1);
    assert_eq!(t.counter(i), FIRST_GEN);
}

#[test]
fn release_advances_counter_and_recycles_slot() {
    let mut t = SlotTable::new();
    let i = t.acquire_slot();
    let j = t.acquire_slot();
    assert_eq!(j, BLOCK_SIZE - 2);
    t.release_slot(i);
    assert_eq!(t.counter(i), FIRST_GEN + 1);
    assert_eq!(t.counter(j), FIRST_GEN);
    assert_eq!(t.acquire_slot(), i);
}

#[test]
fn grow_appends_a_block_of_free_slots() {
    let mut t = SlotTable::new();
    t.grow();
    t.grow();
    assert_eq!(t.len(), 2 * BLOCK_SIZE);
    assert_eq!(t.free_len(), 2 * BLOCK_SIZE);
    assert_eq!(t.acquire_slot(), 2 * BLOCK_SIZE - 1);
    assert_eq!(t.counter(BLOCK_SIZE), FIRST_GEN);
}
