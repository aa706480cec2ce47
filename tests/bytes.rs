use p3_baby_bear::BabyBear;
use sp1_trace::bytes::{
    shr_carry, ByteChip, ByteLookupEvent, ByteOpcode, NUM_BYTE_LOOKUP_CHANNELS, NUM_BYTE_OPS,
    NUM_LOOKUP_EVENTS, NUM_ROWS,
};
use std::time::Instant;

#[test]
pub fn test_trace_and_map() {
    let start = Instant::now();
    ByteChip::<BabyBear>::trace();
    println!("trace and map: {:?}", start.elapsed());
}

#[test]
fn byte_row_of_ab_0f() {
    let rows = ByteChip::<BabyBear>::trace();
    let row = rows[0xAB * 256 + 0x0F];
    assert_eq!(row.b, 0xAB);
    assert_eq!(row.c, 0x0F);
    assert_eq!(row.and, 0x0B);
    assert_eq!(row.or, 0xAF);
    assert_eq!(row.xor, 0xA4);
    assert_eq!(row.sll, 0x80);
    assert!(!row.ltu);
    assert!(row.msb);
    assert_eq!(row.value_u16, 0xAB0F);
    assert_eq!(row.shr, 0xAB >> 7);
    assert_eq!(row.shr_carry, 0xAB & 0x7F);
}

#[test]
fn table_has_every_pair_once() {
    let rows = ByteChip::<()>::trace();
    assert_eq!(rows.len(), NUM_ROWS);
    assert_eq!(rows.len(), 65536);
    for (i, row) in rows.iter().enumerate() {
        let b = (i / 256) as u8;
        let c = (i % 256) as u8;
        assert_eq!((row.b, row.c), (b, c));
        assert_eq!(row.and, b & c);
        assert_eq!(row.or, b | c);
        assert_eq!(row.xor, b ^ c);
        assert_eq!(row.sll, b << (c & 7));
        assert_eq!(row.ltu, b < c);
        assert_eq!(row.msb, b >= 0x80);
        assert_eq!(row.value_u16 as u32, (b as u32) * 256 + c as u32);
        assert_eq!(b, (row.shr << (c & 7)) | row.shr_carry);
    }
}

#[test]
fn shr_carry_splits_the_byte() {
    assert_eq!(shr_carry(0xAB, 0x0F), (0x01, 0x2B));
    assert_eq!(shr_carry(0xAB, 8), (0xAB, 0));
    assert_eq!(shr_carry(0xFF, 1), (0x7F, 1));
    assert_eq!(shr_carry(0, 5), (0, 0));
}

#[test]
fn opcodes_in_table_order() {
    let all = ByteOpcode::all();
    assert_eq!(all.len(), NUM_BYTE_OPS);
    assert_eq!(all[0], ByteOpcode::AND);
    assert_eq!(all[5], ByteOpcode::ShrCarry);
    assert_eq!(all[8], ByteOpcode::U16Range);
}

#[test]
fn one_lookup_event_per_channel_opcode_and_pair() {
    let events = ByteChip::<()>::lookup_events();
    assert_eq!(events.len(), NUM_LOOKUP_EVENTS);
    assert_eq!(
        events.len(),
        NUM_BYTE_LOOKUP_CHANNELS as usize * NUM_BYTE_OPS * 65536
    );
    // channel 3, XOR, b = 0xAB, c = 0x0F
    let i = ((0xAB * 256 + 0x0F) * 16 + 3) * 9 + 2;
    assert_eq!(
        events[i],
        ByteLookupEvent::new(0, 3, ByteOpcode::XOR, 0xA4, 0, 0xAB, 0x0F)
    );
    // channel 15, U16Range, b = 0xAB, c = 0x0F
    let j = ((0xAB * 256 + 0x0F) * 16 + 15) * 9 + 8;
    assert_eq!(
        events[j],
        ByteLookupEvent::new(0, 15, ByteOpcode::U16Range, 0xAB0F, 0, 0, 0)
    );
    // channel 0, MSB, b = 0xAB, c = 0x0F
    let k = (0xAB * 256 + 0x0F) * 16 * 9 + 7;
    assert_eq!(
        events[k],
        ByteLookupEvent::new(0, 0, ByteOpcode::MSB, 1, 0, 0xAB, 0)
    );
    // channel 1, ShrCarry, b = 0xAB, c = 0x0F
    let s = ((0xAB * 256 + 0x0F) * 16 + 1) * 9 + 5;
    assert_eq!(
        events[s],
        ByteLookupEvent::new(0, 1, ByteOpcode::ShrCarry, 0x01, 0x2B, 0xAB, 0x0F)
    );
}
