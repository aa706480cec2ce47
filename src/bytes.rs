use core::marker::PhantomData;
use vstd::arithmetic::div_mod::lemma_fundamental_div_mod;
use vstd::arithmetic::div_mod::lemma_fundamental_div_mod_converse;
use vstd::prelude::*;

verus! {

/// The number of different byte operations.
pub const NUM_BYTE_OPS: usize = 9;

/// The number of different byte lookup channels.
pub const NUM_BYTE_LOOKUP_CHANNELS: u32 = 16;

/// The number of rows of the preprocessed byte table: one per pair of bytes.
pub const NUM_ROWS: usize = 65536;

/// The number of lookup events that table construction emits.
pub const NUM_LOOKUP_EVENTS: usize = 9437184;

/// A byte operation that the preprocessed table answers.
#[derive(Debug, Clone, Copy, PartialEq, Eq)]
pub enum ByteOpcode {
    AND,
    OR,
    XOR,
    SLL,
    U8Range,
    ShrCarry,
    LTU,
    MSB,
    U16Range,
}

/// The opcode at position `k` of `ByteOpcode::all()`.
pub open spec fn opcode_at(k: int) -> ByteOpcode {
    if k == 0 {
        ByteOpcode::AND
    } else if k == 1 {
        ByteOpcode::OR
    } else if k == 2 {
        ByteOpcode::XOR
    } else if k == 3 {
        ByteOpcode::SLL
    } else if k == 4 {
        ByteOpcode::U8Range
    } else if k == 5 {
        ByteOpcode::ShrCarry
    } else if k == 6 {
        ByteOpcode::LTU
    } else if k == 7 {
        ByteOpcode::MSB
    } else {
        ByteOpcode::U16Range
    }
}

impl ByteOpcode {
    /// Every byte opcode, in table order.
    pub fn all() -> (r: Vec<ByteOpcode>)
        ensures
            r@.len() == NUM_BYTE_OPS,
            forall|k: int| 0 <= k < NUM_BYTE_OPS ==> r@[k] == opcode_at(k),
    {
        vec![
            ByteOpcode::AND,
            ByteOpcode::OR,
            ByteOpcode::XOR,
            ByteOpcode::SLL,
            ByteOpcode::U8Range,
            ByteOpcode::ShrCarry,
            ByteOpcode::LTU,
            ByteOpcode::MSB,
            ByteOpcode::U16Range,
        ]
    }

    /// The opcode at position `k` of `all()`.
    pub fn from_index(k: usize) -> (r: ByteOpcode)
        requires
            k < NUM_BYTE_OPS,
        ensures
            r == opcode_at(k as int),
    {
        match k {
            0 => ByteOpcode::AND,
            1 => ByteOpcode::OR,
            2 => ByteOpcode::XOR,
            3 => ByteOpcode::SLL,
            4 => ByteOpcode::U8Range,
            5 => ByteOpcode::ShrCarry,
            6 => ByteOpcode::LTU,
            7 => ByteOpcode::MSB,
            _ => ByteOpcode::U16Range,
        }
    }
}

/// A lookup of one byte operation in the preprocessed table.
#[derive(Debug, Clone, Copy, PartialEq, Eq)]
pub struct ByteLookupEvent {
    pub shard: u32,
    pub channel: u32,
    pub opcode: ByteOpcode,
    pub a1: u32,
    pub a2: u32,
    pub b: u32,
    pub c: u32,
}

/// Logical right shift by `c mod 8` of `b`: the shifted value and the bits
/// shifted out.
pub open spec fn shr_carry_spec(b: u8, c: u8) -> (u8, u8) {
    let k = c & 7u8;
    (b >> k, b & (((1u16 << k) - 1u16) as u8))
}

/// One row of the preprocessed byte table.
#[derive(Debug, Clone, Copy, PartialEq, Eq)]
pub struct BytePreprocessedRow {
    pub b: u8,
    pub c: u8,
    pub and: u8,
    pub or: u8,
    pub xor: u8,
    pub sll: u8,
    pub shr: u8,
    pub shr_carry: u8,
    pub ltu: bool,
    pub msb: bool,
    pub value_u16: u16,
}

/// The row of the table for the byte pair `(b, c)`.
pub open spec fn byte_row(b: u8, c: u8) -> BytePreprocessedRow {
    BytePreprocessedRow {
        b,
        c,
        and: b & c,
        or: b | c,
        xor: b ^ c,
        sll: b << (c & 7u8),
        shr: shr_carry_spec(b, c).0,
        shr_carry: shr_carry_spec(b, c).1,
        ltu: b < c,
        msb: (b & 0x80u8) != 0u8,
        value_u16: ((b as u16) * 256u16 + (c as u16)) as u16,
    }
}

/// The table row at `index`: rows run over `b`, then over `c`.
pub open spec fn row_at(index: int) -> BytePreprocessedRow {
    byte_row((index / 256) as u8, (index % 256) as u8)
}

/// The lookup event that the table answers for `opcode` on `(b, c)`, on `channel`.
pub open spec fn lookup_event(channel: u32, opcode: ByteOpcode, b: u8, c: u8) -> ByteLookupEvent {
    let row = byte_row(b, c);
    let (a1, a2, eb, ec): (u32, u32, u32, u32) = match opcode {
        ByteOpcode::AND => (row.and as u32, 0, b as u32, c as u32),
        ByteOpcode::OR => (row.or as u32, 0, b as u32, c as u32),
        ByteOpcode::XOR => (row.xor as u32, 0, b as u32, c as u32),
        ByteOpcode::SLL => (row.sll as u32, 0, b as u32, c as u32),
        ByteOpcode::U8Range => (0, 0, b as u32, c as u32),
        ByteOpcode::ShrCarry => (row.shr as u32, row.shr_carry as u32, b as u32, c as u32),
        ByteOpcode::LTU => (if row.ltu { 1 } else { 0 }, 0, b as u32, c as u32),
        ByteOpcode::MSB => (if row.msb { 1 } else { 0 }, 0, b as u32, 0),
        ByteOpcode::U16Range => (row.value_u16 as u32, 0, 0, 0),
    };
    ByteLookupEvent { shard: 0, channel, opcode, a1, a2, b: eb, c: ec }
}

/// Position of the event for `(channel, opcode index k, b, c)` in the list of
/// all lookup events: byte pairs outermost, then channels, then opcodes.
pub open spec fn lookup_event_index(channel: int, k: int, b: int, c: int) -> int {
    ((b * 256 + c) * 16 + channel) * 9 + k
}

/// The lookup event at position `i` of the list of all lookup events.
pub open spec fn lookup_event_at(i: int) -> ByteLookupEvent {
    let pair = i / 9 / 16;
    lookup_event(
        ((i / 9) % 16) as u32,
        opcode_at(i % 9),
        (pair / 256) as u8,
        (pair % 256) as u8,
    )
}

/// Shifts `b` right by `c mod 8`, returning the result and the bits shifted out.
pub fn shr_carry(b: u8, c: u8) -> (r: (u8, u8))
    ensures
        r == shr_carry_spec(b, c),
        b == (r.0 << (c & 7u8)) | r.1,
        r.1 < (1u16 << (c & 7u8)),
{
    let k: u8 = c & 7;
    assert(c & 7u8 < 8u8) by (bit_vector);
    assert(1u16 <= (1u16 << k) <= 128u16) by (bit_vector)
        requires
            k < 8,
    ;
    let mask: u8 = ((1u16 << k) - 1) as u8;
    let res: (u8, u8) = (b >> k, b & mask);
    assert(b == ((b >> k) << k) | (b & (((1u16 << k) - 1u16) as u8))
        && (b & (((1u16 << k) - 1u16) as u8)) < (1u16 << k)) by (bit_vector)
        requires
            k < 8,
    ;
    res
}

/// Computes the table row for the byte pair `(b, c)`.
pub fn compute_row(b: u8, c: u8) -> (r: BytePreprocessedRow)
    ensures
        r == byte_row(b, c),
{
    let (shr, carry) = shr_carry(b, c);
    assert(c & 7u8 < 8u8) by (bit_vector);
    BytePreprocessedRow {
        b,
        c,
        and: b & c,
        or: b | c,
        xor: b ^ c,
        sll: b << (c & 7),
        shr,
        shr_carry: carry,
        ltu: b < c,
        msb: (b & 0x80) != 0,
        value_u16: (b as u16) * 256 + (c as u16),
    }
}

impl ByteLookupEvent {
    /// Creates a lookup event.
    pub fn new(shard: u32, channel: u32, opcode: ByteOpcode, a1: u32, a2: u32, b: u32, c: u32) -> (r:
        ByteLookupEvent)
        ensures
            r == (ByteLookupEvent { shard, channel, opcode, a1, a2, b, c }),
    {
        ByteLookupEvent { shard, channel, opcode, a1, a2, b, c }
    }

    /// The lookup of `opcode` on `(b, c)` on `channel`, with its results
    /// read from the table row of that pair.
    pub fn for_row(channel: u32, opcode: ByteOpcode, row: &BytePreprocessedRow) -> (r:
        ByteLookupEvent)
        requires
            *row == byte_row(row.b, row.c),
        ensures
            r == lookup_event(channel, opcode, row.b, row.c),
    {
        let b = row.b as u32;
        let c = row.c as u32;
        match opcode {
            ByteOpcode::AND => ByteLookupEvent::new(0, channel, opcode, row.and as u32, 0, b, c),
            ByteOpcode::OR => ByteLookupEvent::new(0, channel, opcode, row.or as u32, 0, b, c),
            ByteOpcode::XOR => ByteLookupEvent::new(0, channel, opcode, row.xor as u32, 0, b, c),
            ByteOpcode::SLL => ByteLookupEvent::new(0, channel, opcode, row.sll as u32, 0, b, c),
            ByteOpcode::U8Range => ByteLookupEvent::new(0, channel, opcode, 0, 0, b, c),
            ByteOpcode::ShrCarry => ByteLookupEvent::new(
                0,
                channel,
                opcode,
                row.shr as u32,
                row.shr_carry as u32,
                b,
                c,
            ),
            ByteOpcode::LTU => ByteLookupEvent::new(
                0,
                channel,
                opcode,
                if row.ltu { 1 } else { 0 },
                0,
                b,
                c,
            ),
            ByteOpcode::MSB => ByteLookupEvent::new(
                0,
                channel,
                opcode,
                if row.msb { 1 } else { 0 },
                0,
                b,
                0,
            ),
            ByteOpcode::U16Range => ByteLookupEvent::new(
                0,
                channel,
                opcode,
                row.value_u16 as u32,
                0,
                0,
                0,
            ),
        }
    }
}

/// A chip for computing byte operations: the preprocessed table of all byte
/// operations on all pairs of bytes, which other chips look up.
pub struct ByteChip<F>(pub PhantomData<F>);

impl<F> ByteChip<F> {
    /// Creates the preprocessed byte table: one row for each pair `(b, c)`,
    /// in the order `b` then `c`.
    pub fn trace() -> (r: Vec<BytePreprocessedRow>)
        ensures
            r@.len() == NUM_ROWS,
            forall|i: int| 0 <= i < NUM_ROWS ==> #[trigger] r@[i] == row_at(i),
    {
        let mut rows: Vec<BytePreprocessedRow> = Vec::with_capacity(NUM_ROWS);
        let mut i: usize = 0;
        while i < NUM_ROWS
            invariant
                i <= NUM_ROWS,
                rows@.len() == i,
                forall|j: int| 0 <= j < i ==> #[trigger] rows@[j] == row_at(j),
            decreases NUM_ROWS - i,
        {
            let b: u8 = (i / 256) as u8;
            let c: u8 = (i % 256) as u8;
            rows.push(compute_row(b, c));
            i = i + 1;
        }
        rows
    }

    /// Every lookup event of the table, one for each channel, opcode and
    /// pair of bytes; the event for `(channel, k, b, c)` stands at
    /// `lookup_event_index(channel, k, b, c)`.
    pub fn lookup_events() -> (r: Vec<ByteLookupEvent>)
        ensures
            r@.len() == NUM_LOOKUP_EVENTS,
            forall|i: int| 0 <= i < NUM_LOOKUP_EVENTS ==> #[trigger] r@[i] == lookup_event_at(i),
    {
        let mut events: Vec<ByteLookupEvent> = Vec::with_capacity(NUM_LOOKUP_EVENTS);
        let mut i: usize = 0;
        while i < NUM_LOOKUP_EVENTS
            invariant
                i <= NUM_LOOKUP_EVENTS,
                events@.len() == i,
                forall|j: int| 0 <= j < i ==> #[trigger] events@[j] == lookup_event_at(j),
            decreases NUM_LOOKUP_EVENTS - i,
        {
            let pair: usize = i / 9 / 16;
            let row = compute_row((pair / 256) as u8, (pair % 256) as u8);
            let channel: u32 = ((i / 9) % 16) as u32;
            let opcode = ByteOpcode::from_index(i % 9);
            events.push(ByteLookupEvent::for_row(channel, opcode, &row));
            i = i + 1;
        }
        events
    }
}

/// Each position of the list of all lookup events holds the event of one
/// channel, opcode, and pair of bytes, all in range, and that tuple's
/// position is this one.
pub proof fn lemma_lookup_event_position(i: int)
    requires
        0 <= i < NUM_LOOKUP_EVENTS,
    ensures
        ({
            let channel = (i / 9) % 16;
            let k = i % 9;
            let b = i / 9 / 16 / 256;
            let c = (i / 9 / 16) % 256;
            &&& 0 <= channel < NUM_BYTE_LOOKUP_CHANNELS
            &&& 0 <= k < NUM_BYTE_OPS
            &&& 0 <= b < 256
            &&& 0 <= c < 256
            &&& lookup_event_index(channel, k, b, c) == i
            &&& lookup_event_at(i) == lookup_event(channel as u32, opcode_at(k), b as u8, c as u8)
        }),
{
    let q = i / 9;
    let p = q / 16;
    lemma_fundamental_div_mod(i, 9);
    lemma_fundamental_div_mod(q, 16);
    lemma_fundamental_div_mod(p, 256);
    assert(0 <= q < 1048576) by (nonlinear_arith)
        requires
            i == 9 * q + i % 9,
            0 <= i % 9 < 9,
            0 <= i < 9437184,
    ;
    assert(0 <= p < 65536) by (nonlinear_arith)
        requires
            q == 16 * p + q % 16,
            0 <= q % 16 < 16,
            0 <= q < 1048576,
    ;
    assert(0 <= p / 256 < 256) by (nonlinear_arith)
        requires
            p == 256 * (p / 256) + p % 256,
            0 <= p % 256 < 256,
            0 <= p < 65536,
    ;
}

/// The list of all lookup events holds
/// `NUM_BYTE_LOOKUP_CHANNELS * NUM_BYTE_OPS * NUM_ROWS` events, and each
/// channel, opcode and pair of bytes has exactly one position in it, which
/// holds that tuple's event.
pub proof fn lemma_lookup_event_unique(channel: int, k: int, b: int, c: int)
    requires
        0 <= channel < NUM_BYTE_LOOKUP_CHANNELS,
        0 <= k < NUM_BYTE_OPS,
        0 <= b < 256,
        0 <= c < 256,
    ensures
        NUM_LOOKUP_EVENTS == NUM_BYTE_LOOKUP_CHANNELS * NUM_BYTE_OPS * NUM_ROWS,
        0 <= lookup_event_index(channel, k, b, c) < NUM_LOOKUP_EVENTS,
        lookup_event_at(lookup_event_index(channel, k, b, c)) == lookup_event(
            channel as u32,
            opcode_at(k),
            b as u8,
            c as u8,
        ),
        forall|channel2: int, k2: int, b2: int, c2: int|
            0 <= channel2 < NUM_BYTE_LOOKUP_CHANNELS && 0 <= k2 < NUM_BYTE_OPS && 0 <= b2 < 256
                && 0 <= c2 < 256 && #[trigger] lookup_event_index(channel2, k2, b2, c2)
                == lookup_event_index(channel, k, b, c) ==> channel2 == channel && k2 == k && b2
                == b && c2 == c,
{
    lemma_index_decodes(channel, k, b, c);
    assert forall|channel2: int, k2: int, b2: int, c2: int|
        0 <= channel2 < NUM_BYTE_LOOKUP_CHANNELS && 0 <= k2 < NUM_BYTE_OPS && 0 <= b2 < 256
            && 0 <= c2 < 256 && #[trigger] lookup_event_index(channel2, k2, b2, c2)
            == lookup_event_index(channel, k, b, c) implies channel2 == channel && k2 == k && b2
            == b && c2 == c by {
        lemma_index_decodes(channel2, k2, b2, c2);
    }
}

proof fn lemma_index_decodes(channel: int, k: int, b: int, c: int)
    requires
        0 <= channel < 16,
        0 <= k < 9,
        0 <= b < 256,
        0 <= c < 256,
    ensures
        ({
            let i = lookup_event_index(channel, k, b, c);
            &&& 0 <= i < NUM_LOOKUP_EVENTS
            &&& (i / 9) % 16 == channel
            &&& i % 9 == k
            &&& i / 9 / 16 / 256 == b
            &&& (i / 9 / 16) % 256 == c
        }),
{
    let p = b * 256 + c;
    let q = p * 16 + channel;
    let i = q * 9 + k;
    assert(0 <= i < 9437184) by (nonlinear_arith)
        requires
            p == b * 256 + c,
            q == p * 16 + channel,
            i == q * 9 + k,
            0 <= channel < 16,
            0 <= k < 9,
            0 <= b < 256,
            0 <= c < 256,
    ;
    lemma_fundamental_div_mod_converse(i, 9, q, k);
    lemma_fundamental_div_mod_converse(q, 16, p, channel);
    lemma_fundamental_div_mod_converse(p, 256, b, c);
}

} // verus!
