use crate::events::{AccessKind, ExecutionError, ExecutionRecord, MemoryAccessRecord, MemoryLocalEvent, MemoryRecord};
use vstd::hash_map::HashMapWithView;
use vstd::prelude::*;

verus! {

broadcast use vstd::std_specs::hash::axiom_u32_obeys_hash_table_key_model;

/// The number of addresses in the 32-bit address space.
pub const ADDRESS_SPACE: u64 = 0x1_0000_0000;

/// The state of the word at `a`: a word never touched holds zero.
pub open spec fn record_at(m: Map<u32, MemoryRecord>, a: u32) -> MemoryRecord {
    if m.contains_key(a) {
        m[a]
    } else {
        MemoryRecord { value: 0, shard: 0, timestamp: 0 }
    }
}

/// The value of the word at `a`.
pub open spec fn value_at(m: Map<u32, MemoryRecord>, a: u32) -> u32 {
    record_at(m, a).value
}

/// The address of word `j` of the slice that starts at `base`.
pub open spec fn word_addr(base: u32, j: int) -> u32 {
    (base + 4 * j) as u32
}

/// `n` words from `base` lie within the address space.
pub open spec fn slice_fits(base: u32, n: int) -> bool {
    0 <= n && base + 4 * n <= ADDRESS_SPACE
}

/// `a` is the address of one of the `n` words from `base`.
pub open spec fn in_slice(base: u32, n: int, a: u32) -> bool {
    base <= a < base + 4 * n && (a - base) % 4 == 0
}

/// The values of the `n` words from `base`.
pub open spec fn read_spec(m: Map<u32, MemoryRecord>, base: u32, n: int) -> Seq<u32> {
    Seq::new(n as nat, |j: int| value_at(m, word_addr(base, j)))
}

/// The value at `a` once `vals` has been written from `base`.
pub open spec fn written_value(m: Map<u32, MemoryRecord>, base: u32, vals: Seq<u32>, a: u32) -> u32 {
    if in_slice(base, vals.len() as int, a) {
        vals[(a - base) / 4]
    } else {
        value_at(m, a)
    }
}

/// The state of the word at `a` once the `n` words from `base` have been
/// read at `clk` in `shard`.
pub open spec fn record_after_read(m: Map<u32, MemoryRecord>, base: u32, n: int, shard: u32, clk: u32, a: u32) -> MemoryRecord {
    if in_slice(base, n, a) {
        MemoryRecord { value: value_at(m, a), shard, timestamp: clk }
    } else {
        record_at(m, a)
    }
}

/// The pending entry for `a` after an access that found the word as `prev`
/// and left it as `next`: the first access of an operation fixes the
/// initial state, each later one the final state.
pub open spec fn pending_after(
    pending: Map<u32, MemoryLocalEvent>,
    a: u32,
    prev: MemoryRecord,
    next: MemoryRecord,
) -> MemoryLocalEvent {
    MemoryLocalEvent {
        addr: a,
        initial_mem_access: if pending.contains_key(a) {
            pending[a].initial_mem_access
        } else {
            prev
        },
        final_mem_access: next,
    }
}

/// The pending accesses once those of the `n` words from `base` are taken out.
pub open spec fn drained(pending: Map<u32, MemoryLocalEvent>, base: u32, n: int) -> Map<
    u32,
    MemoryLocalEvent,
> {
    pending.restrict(pending.dom().filter(|a: u32| !in_slice(base, n, a)))
}

/// The outcome of the checks on a slice of `n` words from `base`: it must
/// be aligned to 4 bytes and lie within the address space.
pub open spec fn slice_check(base: u32, n: int) -> Result<(), ExecutionError> {
    if base % 4 != 0 {
        Err(ExecutionError::AlignmentFault { addr: base })
    } else if !slice_fits(base, n) {
        Err(ExecutionError::AddressOverflow { addr: base })
    } else {
        Ok(())
    }
}

/// Checks that the `n` words from `base` are aligned and lie within the
/// address space.
pub fn check_slice(base: u32, n: usize) -> (r: Result<(), ExecutionError>)
    ensures
        r == slice_check(base, n as int),
{
    if base % 4 != 0 {
        Err(ExecutionError::AlignmentFault { addr: base })
    } else if n as u64 > (ADDRESS_SPACE - base as u64) / 4 {
        Err(ExecutionError::AddressOverflow { addr: base })
    } else {
        Ok(())
    }
}

/// Writing a sequence of words and then reading as many words from the same
/// address gives back that sequence.
pub proof fn lemma_write_read_round_trip(
    before: Map<u32, MemoryRecord>,
    after: Map<u32, MemoryRecord>,
    base: u32,
    vals: Seq<u32>,
)
    requires
        slice_fits(base, vals.len() as int),
        forall|a: u32| #[trigger] value_at(after, a) == written_value(before, base, vals, a),
    ensures
        read_spec(after, base, vals.len() as int) == vals,
{
    assert forall|j: int| 0 <= j < vals.len() implies #[trigger] read_spec(
        after,
        base,
        vals.len() as int,
    )[j] == vals[j] by {
        let a = word_addr(base, j);
        assert(in_slice(base, vals.len() as int, a));
        assert((a - base) / 4 == j);
        assert(value_at(after, a) == written_value(before, base, vals, a));
    }
    assert(read_spec(after, base, vals.len() as int) =~= vals);
}

/// Draining the `n` words from `base` reconciles `n` distinct addresses,
/// exactly the words of the slice, and leaves none of them pending.
pub proof fn lemma_drain_balances(pending: Map<u32, MemoryLocalEvent>, base: u32, n: int)
    requires
        slice_fits(base, n),
    ensures
        forall|j: int, k: int|
            0 <= j < n && 0 <= k < n && j != k ==> #[trigger] word_addr(base, j) != #[trigger] word_addr(base, k),
        forall|j: int| 0 <= j < n ==> in_slice(base, n, #[trigger] word_addr(base, j)),
        forall|a: u32| in_slice(base, n, a) ==> exists|j: int| 0 <= j < n && #[trigger] word_addr(base, j) == a,
        forall|a: u32| in_slice(base, n, a) ==> !(#[trigger] drained(pending, base, n).contains_key(a)),
{
    assert forall|a: u32| in_slice(base, n, a) implies exists|j: int| 0 <= j < n && #[trigger] word_addr(base, j) == a by {
        assert(word_addr(base, (a - base) / 4) == a);
    }
}

/// The pending accesses of the `n` words from `base` that `pending` holds,
/// in the order of the words.
pub open spec fn flushed(pending: Map<u32, MemoryLocalEvent>, base: u32, n: int) -> Seq<MemoryLocalEvent>
    decreases n,
{
    if n <= 0 {
        Seq::empty()
    } else {
        let a = word_addr(base, n - 1);
        flushed(pending, base, n - 1) + if pending.contains_key(a) {
            seq![pending[a]]
        } else {
            Seq::empty()
        }
    }
}

/// The execution context of one shard: its clock, its address space, the
/// accesses pending within the current operation, and its event record.
pub struct SyscallContext {
    pub clk: u32,
    pub shard: u32,
    pub channel: u32,
    pub syscall_lookup_id: u64,
    pub memory: HashMapWithView<u32, MemoryRecord>,
    pub local_memory_access: HashMapWithView<u32, MemoryLocalEvent>,
    pub record: ExecutionRecord,
}

impl SyscallContext {
    /// The fields other than memory, pending accesses and the unclaimed
    /// accesses of the record agree.
    pub open spec fn same_events(&self, other: &SyscallContext) -> bool {
        &&& self.clk == other.clk
        &&& self.shard == other.shard
        &&& self.channel == other.channel
        &&& self.syscall_lookup_id == other.syscall_lookup_id
        &&& self.record.keccak_permute_events@ == other.record.keccak_permute_events@
        &&& self.record.bn254_fp2_mul_events@ == other.record.bn254_fp2_mul_events@
        &&& self.record.bls12381_fp2_mul_events@ == other.record.bls12381_fp2_mul_events@
    }

    /// A context with empty memory, no pending access and an empty record.
    pub fn new(shard: u32, channel: u32, clk: u32, syscall_lookup_id: u64) -> (r: SyscallContext)
        ensures
            r.clk == clk,
            r.shard == shard,
            r.channel == channel,
            r.syscall_lookup_id == syscall_lookup_id,
            r.memory@ == Map::<u32, MemoryRecord>::empty(),
            r.local_memory_access@ == Map::<u32, MemoryLocalEvent>::empty(),
            r.record.local_memory_access@.len() == 0,
            r.record.keccak_permute_events@.len() == 0,
            r.record.bn254_fp2_mul_events@.len() == 0,
            r.record.bls12381_fp2_mul_events@.len() == 0,
    {
        SyscallContext {
            clk,
            shard,
            channel,
            syscall_lookup_id,
            memory: HashMapWithView::new(),
            local_memory_access: HashMapWithView::new(),
            record: ExecutionRecord::new(),
        }
    }

    /// The value of the word at `addr`, without recording an access.
    pub fn word(&self, addr: u32) -> (r: u32)
        ensures
            r == value_at(self.memory@, addr),
    {
        match self.memory.get(&addr) {
            Some(rec) => rec.value,
            None => 0,
        }
    }

    /// Accesses the word at `addr`, leaving `value` in it, and enters the
    /// access in the pending buffer. Returns the word's state before.
    fn access(&mut self, addr: u32, value: u32) -> (prev: MemoryRecord)
        ensures
            prev == record_at(old(self).memory@, addr),
            final(self).memory@ == old(self).memory@.insert(
                addr,
                MemoryRecord { value, shard: old(self).shard, timestamp: old(self).clk },
            ),
            final(self).local_memory_access@ == old(self).local_memory_access@.insert(
                addr,
                pending_after(
                    old(self).local_memory_access@,
                    addr,
                    prev,
                    MemoryRecord { value, shard: old(self).shard, timestamp: old(self).clk },
                ),
            ),
            final(self).same_events(old(self)),
            final(self).record.local_memory_access@ == old(self).record.local_memory_access@,
    {
        let prev = match self.memory.get(&addr) {
            Some(rec) => *rec,
            None => MemoryRecord { value: 0, shard: 0, timestamp: 0 },
        };
        let next = MemoryRecord { value, shard: self.shard, timestamp: self.clk };
        self.memory.insert(addr, next);
        let entry = match self.local_memory_access.get(&addr) {
            Some(e) => MemoryLocalEvent {
                addr,
                initial_mem_access: e.initial_mem_access,
                final_mem_access: next,
            },
            None => MemoryLocalEvent { addr, initial_mem_access: prev, final_mem_access: next },
        };
        self.local_memory_access.insert(addr, entry);
        prev
    }

    /// The values of the `n` words from `base`, without recording accesses.
    pub fn peek_slice(&self, base: u32, n: usize) -> (r: Vec<u32>)
        requires
            slice_fits(base, n as int),
        ensures
            r@ == read_spec(self.memory@, base, n as int),
    {
        let mut values: Vec<u32> = Vec::new();
        let mut i: usize = 0;
        while i < n
            invariant
                i <= n,
                slice_fits(base, n as int),
                values@ == read_spec(self.memory@, base, i as int),
            decreases n - i,
        {
            values.push(self.word(base + 4 * i as u32));
            i = i + 1;
            assert(values@ =~= read_spec(self.memory@, base, i as int));
        }
        values
    }

    /// Reads the `n` words from `base`, recording one read access per word
    /// at the current clock.
    pub fn read_words(&mut self, base: u32, n: usize) -> (r: (Vec<MemoryAccessRecord>, Vec<u32>))
        requires
            slice_fits(base, n as int),
        ensures
            r.1@ == read_spec(old(self).memory@, base, n as int),
            r.0@.len() == n,
            forall|j: int|
                0 <= j < n ==> #[trigger] r.0@[j] == (MemoryAccessRecord {
                    addr: word_addr(base, j),
                    prev_value: r.1@[j],
                    value: r.1@[j],
                    shard: old(self).shard,
                    channel: old(self).channel,
                    timestamp: old(self).clk,
                    kind: AccessKind::Read,
                }),
            forall|a: u32| #[trigger] value_at(final(self).memory@, a) == value_at(old(self).memory@, a),
            forall|a: u32|
                #[trigger] final(self).local_memory_access@.contains_key(a) == (old(
                    self,
                ).local_memory_access@.contains_key(a) || in_slice(base, n as int, a)),
            forall|a: u32|
                in_slice(base, n as int, a) ==> #[trigger] final(self).local_memory_access@[a]
                    == pending_after(old(self).local_memory_access@, a, record_at(old(self).memory@, a),
                    MemoryRecord { value: value_at(old(self).memory@, a), shard: old(self).shard, timestamp: old(self).clk }),
            forall|a: u32|
                !in_slice(base, n as int, a) && old(self).local_memory_access@.contains_key(a)
                    ==> #[trigger] final(self).local_memory_access@[a]
                    == old(self).local_memory_access@[a],
            forall|a: u32| #[trigger] record_at(final(self).memory@, a)
                == record_after_read(old(self).memory@, base, n as int, old(self).shard, old(self).clk, a),
            final(self).same_events(old(self)),
            final(self).record.local_memory_access@ == old(self).record.local_memory_access@,
    {
        let mut records: Vec<MemoryAccessRecord> = Vec::new();
        let mut values: Vec<u32> = Vec::new();
        let mut i: usize = 0;
        while i < n
            invariant
                i <= n,
                slice_fits(base, n as int),
                values@ == read_spec(old(self).memory@, base, i as int),
                records@.len() == i,
                forall|j: int|
                    0 <= j < i ==> #[trigger] records@[j] == (MemoryAccessRecord {
                        addr: word_addr(base, j),
                        prev_value: values@[j],
                        value: values@[j],
                        shard: old(self).shard,
                        channel: old(self).channel,
                        timestamp: old(self).clk,
                        kind: AccessKind::Read,
                    }),
                forall|a: u32| #[trigger] value_at(self.memory@, a) == value_at(old(self).memory@, a),
                forall|a: u32|
                    #[trigger] self.local_memory_access@.contains_key(a) == (old(
                        self,
                    ).local_memory_access@.contains_key(a) || in_slice(base, i as int, a)),
                forall|a: u32|
                    in_slice(base, i as int, a) ==> #[trigger] self.local_memory_access@[a]
                        == pending_after(old(self).local_memory_access@, a, record_at(old(self).memory@, a),
                        MemoryRecord { value: value_at(old(self).memory@, a), shard: old(self).shard, timestamp: old(self).clk }),
                forall|a: u32|
                    !in_slice(base, i as int, a) && old(self).local_memory_access@.contains_key(a)
                        ==> #[trigger] self.local_memory_access@[a]
                        == old(self).local_memory_access@[a],
                forall|a: u32| #[trigger] record_at(self.memory@, a) == if in_slice(base, i as int, a) {
                    MemoryRecord { value: value_at(old(self).memory@, a), shard: old(self).shard, timestamp: old(self).clk }
                } else {
                    record_at(old(self).memory@, a)
                },
                self.same_events(old(self)),
                self.record.local_memory_access@ == old(self).record.local_memory_access@,
            decreases n - i,
        {
            let addr: u32 = base + 4 * i as u32;
            assert(!in_slice(base, i as int, addr));
            let value = self.word(addr);
            let ghost pending_before = self.local_memory_access@;
            let ghost mem_before = self.memory@;
            let ghost before = self.memory@;
            self.access(addr, value);
            assert forall|a: u32| #[trigger]
                value_at(self.memory@, a) == value_at(before, a) by {
                if a == addr {
                }
            }
            assert forall|a: u32| #[trigger] record_at(self.memory@, a) == if in_slice(base, i + 1, a) {
                MemoryRecord { value: value_at(old(self).memory@, a), shard: old(self).shard, timestamp: old(self).clk }
            } else {
                record_at(old(self).memory@, a)
            } by {
                if a != addr {
                    assert(in_slice(base, i + 1, a) == in_slice(base, i as int, a));
                    assert(record_at(self.memory@, a) == record_at(mem_before, a));
                }
            }
            assert forall|a: u32| in_slice(base, i + 1, a) implies #[trigger] self.local_memory_access@[a]
                == pending_after(old(self).local_memory_access@, a, record_at(old(self).memory@, a),
                MemoryRecord { value: value_at(old(self).memory@, a), shard: old(self).shard, timestamp: old(self).clk }) by {
                if a != addr {
                    assert(in_slice(base, i as int, a));
                } else {
                    assert(!pending_before.contains_key(a) ==> !old(self).local_memory_access@.contains_key(a));
                }
            }
            records.push(
                MemoryAccessRecord {
                    addr,
                    prev_value: value,
                    value,
                    shard: self.shard,
                    channel: self.channel,
                    timestamp: self.clk,
                    kind: AccessKind::Read,
                },
            );
            values.push(value);
            i = i + 1;
            assert(values@ =~= read_spec(old(self).memory@, base, i as int));
        }
        (records, values)
    }

    /// Writes `vals` to the words from `base`, recording one write access
    /// per word at the current clock.
    pub fn write_words(&mut self, base: u32, vals: &Vec<u32>) -> (r: Vec<MemoryAccessRecord>)
        requires
            slice_fits(base, vals@.len() as int),
        ensures
            r@.len() == vals@.len(),
            forall|j: int|
                0 <= j < vals@.len() ==> #[trigger] r@[j] == (MemoryAccessRecord {
                    addr: word_addr(base, j),
                    prev_value: value_at(old(self).memory@, word_addr(base, j)),
                    value: vals@[j],
                    shard: old(self).shard,
                    channel: old(self).channel,
                    timestamp: old(self).clk,
                    kind: AccessKind::Write,
                }),
            forall|a: u32| #[trigger]
                value_at(final(self).memory@, a) == written_value(old(self).memory@, base, vals@, a),
            forall|a: u32|
                #[trigger] final(self).local_memory_access@.contains_key(a) == (old(
                    self,
                ).local_memory_access@.contains_key(a) || in_slice(base, vals@.len() as int, a)),
            forall|a: u32|
                in_slice(base, vals@.len() as int, a) ==> #[trigger] final(self).local_memory_access@[a]
                    == pending_after(old(self).local_memory_access@, a, record_at(old(self).memory@, a),
                    MemoryRecord { value: vals@[(a - base) / 4], shard: old(self).shard, timestamp: old(self).clk }),
            forall|a: u32| #[trigger] record_at(final(self).memory@, a) == if in_slice(base, vals@.len() as int, a) {
                MemoryRecord { value: vals@[(a - base) / 4], shard: old(self).shard, timestamp: old(self).clk }
            } else {
                record_at(old(self).memory@, a)
            },
            forall|a: u32|
                !in_slice(base, vals@.len() as int, a) && old(self).local_memory_access@.contains_key(a)
                    ==> #[trigger] final(self).local_memory_access@[a] == old(self).local_memory_access@[a],
            final(self).same_events(old(self)),
            final(self).record.local_memory_access@ == old(self).record.local_memory_access@,
    {
        let n = vals.len();
        let mut records: Vec<MemoryAccessRecord> = Vec::new();
        let mut i: usize = 0;
        while i < n
            invariant
                n == vals@.len(),
                i <= n,
                slice_fits(base, n as int),
                records@.len() == i,
                forall|j: int|
                    0 <= j < i ==> #[trigger] records@[j] == (MemoryAccessRecord {
                        addr: word_addr(base, j),
                        prev_value: value_at(old(self).memory@, word_addr(base, j)),
                        value: vals@[j],
                        shard: old(self).shard,
                        channel: old(self).channel,
                        timestamp: old(self).clk,
                        kind: AccessKind::Write,
                    }),
                forall|a: u32| #[trigger]
                    value_at(self.memory@, a) == if in_slice(base, i as int, a) {
                        vals@[(a - base) / 4]
                    } else {
                        value_at(old(self).memory@, a)
                    },
                forall|a: u32|
                    #[trigger] self.local_memory_access@.contains_key(a) == (old(
                        self,
                    ).local_memory_access@.contains_key(a) || in_slice(base, i as int, a)),
                forall|a: u32|
                    in_slice(base, i as int, a) ==> #[trigger] self.local_memory_access@[a]
                        == pending_after(old(self).local_memory_access@, a, record_at(old(self).memory@, a),
                        MemoryRecord { value: vals@[(a - base) / 4], shard: old(self).shard, timestamp: old(self).clk }),
                forall|a: u32| #[trigger] record_at(self.memory@, a) == if in_slice(base, i as int, a) {
                    MemoryRecord { value: vals@[(a - base) / 4], shard: old(self).shard, timestamp: old(self).clk }
                } else {
                    record_at(old(self).memory@, a)
                },
                forall|a: u32|
                    !in_slice(base, i as int, a) && old(self).local_memory_access@.contains_key(a)
                        ==> #[trigger] self.local_memory_access@[a]
                        == old(self).local_memory_access@[a],
                self.same_events(old(self)),
                self.record.local_memory_access@ == old(self).record.local_memory_access@,
            decreases n - i,
        {
            let addr: u32 = base + 4 * i as u32;
            let value = vals[i];
            assert(!in_slice(base, i as int, addr));
            assert(addr == word_addr(base, i as int));
            assert(value_at(self.memory@, addr) == value_at(old(self).memory@, addr));
            let ghost before = self.memory@;
            let ghost pending_before = self.local_memory_access@;
            let prev = self.access(addr, value);
            assert forall|a: u32| #[trigger] record_at(self.memory@, a) == if in_slice(base, i + 1, a) {
                MemoryRecord { value: vals@[(a - base) / 4], shard: old(self).shard, timestamp: old(self).clk }
            } else {
                record_at(old(self).memory@, a)
            } by {
                if a == addr {
                    assert((a - base) / 4 == i);
                } else {
                    assert(in_slice(base, i + 1, a) == in_slice(base, i as int, a));
                    assert(record_at(self.memory@, a) == record_at(before, a));
                }
            }
            assert forall|a: u32| in_slice(base, i + 1, a) implies #[trigger] self.local_memory_access@[a]
                == pending_after(old(self).local_memory_access@, a, record_at(old(self).memory@, a),
                MemoryRecord { value: vals@[(a - base) / 4], shard: old(self).shard, timestamp: old(self).clk }) by {
                if a != addr {
                    assert(in_slice(base, i as int, a));
                } else {
                    assert((a - base) / 4 == i);
                    assert(record_at(before, a) == record_at(old(self).memory@, a));
                    assert(!pending_before.contains_key(a) ==> !old(self).local_memory_access@.contains_key(a));
                }
            }
            assert forall|a: u32| #[trigger]
                value_at(self.memory@, a) == if in_slice(base, i + 1, a) {
                    vals@[(a - base) / 4]
                } else {
                    value_at(old(self).memory@, a)
                } by {
                if a == addr {
                    assert((a - base) / 4 == i);
                } else {
                    assert(in_slice(base, i + 1, a) == in_slice(base, i as int, a));
                    assert(value_at(self.memory@, a) == value_at(before, a));
                }
            }
            records.push(
                MemoryAccessRecord {
                    addr,
                    prev_value: prev.value,
                    value,
                    shard: self.shard,
                    channel: self.channel,
                    timestamp: self.clk,
                    kind: AccessKind::Write,
                },
            );
            i = i + 1;
        }
        records
    }

    /// Moves the pending accesses of the `n` words from `base` to the
    /// record's list of accesses that no precompile claimed.
    pub fn flush_pending(&mut self, base: u32, n: usize)
        requires
            slice_fits(base, n as int),
        ensures
            final(self).local_memory_access@ == drained(old(self).local_memory_access@, base, n as int),
            final(self).memory@ == old(self).memory@,
            final(self).same_events(old(self)),
            final(self).record.local_memory_access@ == old(self).record.local_memory_access@ + flushed(
                old(self).local_memory_access@,
                base,
                n as int,
            ),
    {
        let mut i: usize = 0;
        while i < n
            invariant
                i <= n,
                slice_fits(base, n as int),
                self.local_memory_access@ == drained(old(self).local_memory_access@, base, i as int),
                self.memory@ == old(self).memory@,
                self.same_events(old(self)),
                self.record.local_memory_access@ == old(self).record.local_memory_access@ + flushed(
                    old(self).local_memory_access@,
                    base,
                    i as int,
                ),
            decreases n - i,
        {
            let addr: u32 = base + 4 * i as u32;
            assert(addr == word_addr(base, i as int));
            assert(!in_slice(base, i as int, addr));
            let ghost list0 = self.record.local_memory_access@;
            let removed = self.local_memory_access.remove(&addr);
            if let Some(entry) = removed {
                self.record.local_memory_access.push(entry);
            }
            assert(self.record.local_memory_access@ =~= old(self).record.local_memory_access@ + flushed(
                old(self).local_memory_access@,
                base,
                i + 1,
            ));
            i = i + 1;
            assert(self.local_memory_access@ =~= drained(old(self).local_memory_access@, base, i as int));
        }
    }

    /// Reads `n` words from `base`: their values and one read access per
    /// word, each also entered in the pending buffer. Fails, changing
    /// nothing, on a misaligned or overflowing slice.
    pub fn read_slice(&mut self, base: u32, n: usize) -> (r: Result<(Vec<u32>, Vec<MemoryAccessRecord>), ExecutionError>)
        ensures
            r.is_err() <==> slice_check(base, n as int).is_err(),
            match r {
                Ok((values, records)) => {
                    &&& values@ == read_spec(old(self).memory@, base, n as int)
                    &&& records@.len() == n
                    &&& forall|j: int| 0 <= j < n ==> #[trigger] records@[j] == (MemoryAccessRecord {
                        addr: word_addr(base, j),
                        prev_value: values@[j],
                        value: values@[j],
                        shard: old(self).shard,
                        channel: old(self).channel,
                        timestamp: old(self).clk,
                        kind: AccessKind::Read,
                    })
                    &&& forall|a: u32| in_slice(base, n as int, a) ==> #[trigger] final(self).local_memory_access@[a]
                        == pending_after(old(self).local_memory_access@, a, record_at(old(self).memory@, a),
                        MemoryRecord { value: value_at(old(self).memory@, a), shard: old(self).shard, timestamp: old(self).clk })
                    &&& forall|a: u32| !in_slice(base, n as int, a) && old(self).local_memory_access@.contains_key(a)
                        ==> #[trigger] final(self).local_memory_access@[a] == old(self).local_memory_access@[a]
                    &&& forall|a: u32| #[trigger] record_at(final(self).memory@, a)
                        == record_after_read(old(self).memory@, base, n as int, old(self).shard, old(self).clk, a)
                    &&& forall|a: u32| #[trigger] value_at(final(self).memory@, a) == value_at(old(self).memory@, a)
                    &&& forall|a: u32| #[trigger] final(self).local_memory_access@.contains_key(a)
                        == (old(self).local_memory_access@.contains_key(a) || in_slice(base, n as int, a))
                },
                Err(e) => {
                    &&& Err::<(), ExecutionError>(e) == slice_check(base, n as int)
                    &&& final(self).memory@ == old(self).memory@
                    &&& final(self).local_memory_access@ == old(self).local_memory_access@
                },
            },
            final(self).same_events(old(self)),
            final(self).record.local_memory_access@ == old(self).record.local_memory_access@,
    {
        match check_slice(base, n) {
            Err(e) => Err(e),
            Ok(()) => {
                let (records, values) = self.read_words(base, n);
                Ok((values, records))
            },
        }
    }

    /// Writes `vals` from `base`: one write access per word, each also
    /// entered in the pending buffer. Fails, changing nothing, on a
    /// misaligned or overflowing slice.
    pub fn write_slice(&mut self, base: u32, vals: &Vec<u32>) -> (r: Result<Vec<MemoryAccessRecord>, ExecutionError>)
        ensures
            r.is_err() <==> slice_check(base, vals@.len() as int).is_err(),
            match r {
                Ok(records) => {
                    &&& records@.len() == vals@.len()
                    &&& forall|j: int| 0 <= j < vals@.len() ==> #[trigger] records@[j] == (MemoryAccessRecord {
                        addr: word_addr(base, j),
                        prev_value: value_at(old(self).memory@, word_addr(base, j)),
                        value: vals@[j],
                        shard: old(self).shard,
                        channel: old(self).channel,
                        timestamp: old(self).clk,
                        kind: AccessKind::Write,
                    })
                    &&& forall|a: u32| in_slice(base, vals@.len() as int, a) ==> #[trigger] final(self).local_memory_access@[a]
                        == pending_after(old(self).local_memory_access@, a, record_at(old(self).memory@, a),
                        MemoryRecord { value: vals@[(a - base) / 4], shard: old(self).shard, timestamp: old(self).clk })
                    &&& forall|a: u32| !in_slice(base, vals@.len() as int, a) && old(self).local_memory_access@.contains_key(a)
                        ==> #[trigger] final(self).local_memory_access@[a] == old(self).local_memory_access@[a]
                    &&& forall|a: u32| #[trigger] record_at(final(self).memory@, a) == if in_slice(base, vals@.len() as int, a) {
                        MemoryRecord { value: vals@[(a - base) / 4], shard: old(self).shard, timestamp: old(self).clk }
                    } else {
                        record_at(old(self).memory@, a)
                    }
                    &&& forall|a: u32| #[trigger] value_at(final(self).memory@, a)
                        == written_value(old(self).memory@, base, vals@, a)
                    &&& forall|a: u32| #[trigger] final(self).local_memory_access@.contains_key(a)
                        == (old(self).local_memory_access@.contains_key(a) || in_slice(base, vals@.len() as int, a))
                },
                Err(e) => {
                    &&& Err::<(), ExecutionError>(e) == slice_check(base, vals@.len() as int)
                    &&& final(self).memory@ == old(self).memory@
                    &&& final(self).local_memory_access@ == old(self).local_memory_access@
                },
            },
            final(self).same_events(old(self)),
            final(self).record.local_memory_access@ == old(self).record.local_memory_access@,
    {
        match check_slice(base, vals.len()) {
            Err(e) => Err(e),
            Ok(()) => Ok(self.write_words(base, vals)),
        }
    }

    /// Takes out the pending accesses of the `n` words from `base`, in
    /// order. Fails, changing nothing, on the first of those words that has
    /// no pending access.
    pub fn reconcile_and_drain(&mut self, base: u32, n: usize) -> (r: Result<Vec<MemoryLocalEvent>, ExecutionError>)
        requires
            slice_fits(base, n as int),
        ensures
            match r {
                Ok(local) => {
                    &&& forall|j: int| 0 <= j < n ==> old(self).local_memory_access@.contains_key(#[trigger] word_addr(base, j))
                    &&& local@.len() == n
                    &&& forall|j: int| 0 <= j < n ==> #[trigger] local@[j] == old(self).local_memory_access@[word_addr(base, j)]
                    &&& final(self).local_memory_access@ == drained(old(self).local_memory_access@, base, n as int)
                },
                Err(e) => exists|j: int| {
                    &&& 0 <= j < n
                    &&& !old(self).local_memory_access@.contains_key(#[trigger] word_addr(base, j))
                    &&& forall|k: int| 0 <= k < j ==> old(self).local_memory_access@.contains_key(#[trigger] word_addr(base, k))
                    &&& e == ExecutionError::MissingAccessRecord { addr: word_addr(base, j) }
                    &&& final(self).local_memory_access@ == old(self).local_memory_access@
                },
            },
            final(self).memory@ == old(self).memory@,
            final(self).same_events(old(self)),
            final(self).record.local_memory_access@ == old(self).record.local_memory_access@,
    {
        let mut i: usize = 0;
        while i < n
            invariant
                i <= n,
                slice_fits(base, n as int),
                forall|k: int| 0 <= k < i ==> self.local_memory_access@.contains_key(#[trigger] word_addr(base, k)),
            decreases n - i,
        {
            let addr: u32 = base + 4 * i as u32;
            if !self.local_memory_access.contains_key(&addr) {
                assert(addr == word_addr(base, i as int));
                return Err(ExecutionError::MissingAccessRecord { addr });
            }
            i = i + 1;
        }
        let mut local: Vec<MemoryLocalEvent> = Vec::new();
        let mut i: usize = 0;
        while i < n
            invariant
                i <= n,
                slice_fits(base, n as int),
                forall|k: int| 0 <= k < n ==> old(self).local_memory_access@.contains_key(#[trigger] word_addr(base, k)),
                local@.len() == i,
                forall|j: int| 0 <= j < i ==> #[trigger] local@[j] == old(self).local_memory_access@[word_addr(base, j)],
                self.local_memory_access@ == drained(old(self).local_memory_access@, base, i as int),
                self.memory@ == old(self).memory@,
                self.same_events(old(self)),
                self.record.local_memory_access@ == old(self).record.local_memory_access@,
            decreases n - i,
        {
            let addr: u32 = base + 4 * i as u32;
            assert(old(self).local_memory_access@.contains_key(word_addr(base, i as int)));
            assert(!in_slice(base, i as int, addr));
            let removed = self.local_memory_access.remove(&addr);
            match removed {
                Some(entry) => local.push(entry),
                None => {},
            }
            i = i + 1;
            assert(self.local_memory_access@ =~= drained(old(self).local_memory_access@, base, i as int));
        }
        Ok(local)
    }
}

} // verus!
