use rum::rumdis::{get, op, Field};

#[test]
fn fields_of_an_ordinary_instruction() {
    // add r5 := r3 + r6
    let word: u32 = (3 << 28) | (5 << 6) | (3 << 3) | 6;
    assert_eq!(op(word), 3);
    assert_eq!(get(&Field::ra(), word), 5);
    assert_eq!(get(&Field::rb(), word), 3);
    assert_eq!(get(&Field::rc(), word), 6);
}

#[test]
fn fields_of_a_load_value() {
    let word: u32 = 0xD000_0041 | (6 << 25);
    assert_eq!(op(word), 13);
    assert_eq!(get(&Field::rl(), word), 6);
    assert_eq!(get(&Field::vl(), word), 65);
    assert_eq!(get(&Field::vl(), u32::MAX), 0x1FF_FFFF);
    assert_eq!(op(u32::MAX), 15);
    assert_eq!(get(&Field { width: 8, lsb: 8 }, 0x1234_5678), 0x56);
}
