use intcode::memory::Memory;

#[test]
fn unwritten_addresses_read_zero() {
    let memory = Memory::new(vec![5, 6, 7]);
    assert_eq!(memory.get(1), 6);
    assert_eq!(memory.get(3), 0);
    assert_eq!(memory.get(1 << 40), 0);
    assert_eq!(memory.peek(3), None);
    assert_eq!(memory.len(), 3);
}

#[test]
fn last_write_wins_far_beyond_program() {
    let mut memory = Memory::new(vec![5, 6, 7]);
    memory.write(500, 11);
    memory.write(1, -2);
    memory.write(500, 12);
    assert_eq!(memory.get(500), 12);
    assert_eq!(memory.get(1), -2);
    assert_eq!(memory.get(499), 0);
    assert_eq!(memory.get(3), 0);
    assert_eq!(memory.get(0), 5);
    assert_eq!(memory.len(), 501);
    assert_eq!(memory.peek(499), Some(&0));
    assert_eq!(memory.peek(501), None);
}
