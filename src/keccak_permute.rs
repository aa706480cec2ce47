use crate::events::{AccessKind, ExecutionError, KeccakPermuteEvent, MemoryAccessRecord, MemoryLocalEvent, MemoryRecord};
use crate::memory::{drained, flushed, in_slice, read_spec, record_at, slice_check, value_at, word_addr, written_value, SyscallContext};
use vstd::prelude::*;

verus! {

/// The number of 64-bit lanes of the permutation state.
pub const STATE_SIZE: usize = 25;

/// The number of 32-bit words that hold the permutation state.
pub const STATE_NUM_WORDS: usize = 50;

/// The Keccak-f[1600] permutation of 25 lanes.
pub uninterp spec fn keccakf_of(state: Seq<u64>) -> Seq<u64>;

/// Relies on tiny_keccak::keccakf: applies Keccak-f[1600] (24 rounds) to
/// the 25 lanes in place.
#[verifier::external_body]
fn keccak_f(state: &Vec<u64>) -> (r: Vec<u64>)
    requires
        state@.len() == STATE_SIZE,
    ensures
        r@ == keccakf_of(state@),
        r@.len() == STATE_SIZE,
{
    let mut lanes: [u64; 25] = state.as_slice().try_into().unwrap();
    tiny_keccak::keccakf(&mut lanes);
    lanes.to_vec()
}

/// The lane made of a low and a high 32-bit word.
pub open spec fn lane_of(lo: u32, hi: u32) -> u64 {
    (lo as u64 + ((hi as u64) << 32u64)) as u64
}

/// The lanes held by pairs of words, low word first.
pub open spec fn lanes_of(words: Seq<u32>) -> Seq<u64> {
    Seq::new(words.len() / 2, |i: int| lane_of(words[2 * i], words[2 * i + 1]))
}

/// The words that hold the lanes, low word first.
pub open spec fn words_of(lanes: Seq<u64>) -> Seq<u32> {
    Seq::new(
        2 * lanes.len(),
        |j: int|
            if j % 2 == 0 {
                (lanes[j / 2] & 0xFFFF_FFFFu64) as u32
            } else {
                ((lanes[j / 2] >> 32u64) & 0xFFFF_FFFFu64) as u32
            },
    )
}

/// Splitting lanes into words and assembling them again gives the lanes
/// back.
pub proof fn lemma_lanes_words_round_trip(lanes: Seq<u64>)
    ensures
        lanes_of(words_of(lanes)) == lanes,
{
    let w = words_of(lanes);
    assert forall|i: int| 0 <= i < lanes.len() implies #[trigger] lanes_of(w)[i] == lanes[i] by {
        let l = lanes[i];
        assert((2 * i) % 2 == 0 && (2 * i) / 2 == i);
        assert((2 * i + 1) % 2 == 1 && (2 * i + 1) / 2 == i);
        assert(w[2 * i] == (l & 0xFFFF_FFFFu64) as u32);
        assert(w[2 * i + 1] == ((l >> 32u64) & 0xFFFF_FFFFu64) as u32);
        assert(((l & 0xFFFF_FFFFu64) as u32) as u64 + ((((l >> 32u64) & 0xFFFF_FFFFu64) as u32) as u64) * 0x1_0000_0000u64 == l) by (bit_vector);
        assert(((((l >> 32u64) & 0xFFFF_FFFFu64) as u32) as u64) << 32u64 == ((((l >> 32u64) & 0xFFFF_FFFFu64) as u32) as u64) * 0x1_0000_0000u64) by (bit_vector);
    }
    assert(lanes_of(w) =~= lanes);
}

/// Assembles pairs of words, low word first, into lanes.
pub fn lanes_from_words(words: &Vec<u32>) -> (r: Vec<u64>)
    ensures
        r@ == lanes_of(words@),
{
    let mut lanes: Vec<u64> = Vec::new();
    let n = words.len() / 2;
    let mut i: usize = 0;
    while i < n
        invariant
            n == words@.len() / 2,
            2 * n <= words@.len() <= usize::MAX,
            i <= n,
            lanes@ =~= lanes_of(words@).take(i as int),
        decreases n - i,
    {
        let k: usize = i + i;
        let lo = words[k];
        let hi = words[k + 1];
        assert(((hi as u64) << 32u64) <= 0xFFFF_FFFF_0000_0000u64) by (bit_vector);
        lanes.push(lo as u64 + ((hi as u64) << 32));
        i = i + 1;
    }
    lanes
}

/// Splits lanes into pairs of words, low word first.
pub fn words_from_lanes(lanes: &Vec<u64>) -> (r: Vec<u32>)
    ensures
        r@ == words_of(lanes@),
{
    let mut words: Vec<u32> = Vec::new();
    let mut i: usize = 0;
    while i < lanes.len()
        invariant
            i <= lanes@.len(),
            words@ =~= words_of(lanes@).take(2 * i),
        decreases lanes@.len() - i,
    {
        let lane = lanes[i];
        words.push((lane & 0xFFFF_FFFF) as u32);
        words.push(((lane >> 32) & 0xFFFF_FFFF) as u32);
        i = i + 1;
        assert(words@ =~= words_of(lanes@).take(2 * i));
    }
    words
}

/// The outcome of the checks on the arguments of the permutation syscall.
pub open spec fn permute_check(arg1: u32, arg2: u32) -> Result<(), ExecutionError> {
    if arg2 != 0 {
        Err(ExecutionError::InvalidArgument { arg: arg2 })
    } else {
        slice_check(arg1, STATE_NUM_WORDS as int)
    }
}

/// `after` is `before` once the state at `arg1` has been permuted: the
/// words hold the permuted lanes, the accesses to them are reconciled into
/// the new event, and the clock has moved on by one.
pub open spec fn permute_done(before: &SyscallContext, after: &SyscallContext, arg1: u32) -> bool {
    let n = STATE_NUM_WORDS as int;
    let words = read_spec(before.memory@, arg1, n);
    let pre = lanes_of(words);
    let post = keccakf_of(pre);
    let out = words_of(post);
    let ev = after.record.keccak_permute_events@.last();
    &&& post.len() == STATE_SIZE
    &&& after.clk == before.clk + 1
    &&& after.record.local_memory_access@ == before.record.local_memory_access@ + flushed(
        before.local_memory_access@,
        arg1,
        n,
    )
    &&& after.record.keccak_permute_events@.len() == before.record.keccak_permute_events@.len() + 1
    &&& after.record.keccak_permute_events@.drop_last() == before.record.keccak_permute_events@
    &&& ev.lookup_id == before.syscall_lookup_id
    &&& ev.shard == before.shard
    &&& ev.channel == before.channel
    &&& ev.clk == before.clk
    &&& ev.state_addr == arg1
    &&& ev.pre_state@ == pre
    &&& ev.post_state@ == post
    &&& ev.state_read_records@ == Seq::new(n as nat, |j: int| MemoryAccessRecord {
        addr: word_addr(arg1, j),
        prev_value: words[j],
        value: words[j],
        shard: before.shard,
        channel: before.channel,
        timestamp: before.clk,
        kind: AccessKind::Read,
    })
    &&& ev.state_write_records@ == Seq::new(n as nat, |j: int| MemoryAccessRecord {
        addr: word_addr(arg1, j),
        prev_value: words[j],
        value: out[j],
        shard: before.shard,
        channel: before.channel,
        timestamp: (before.clk + 1) as u32,
        kind: AccessKind::Write,
    })
    &&& ev.local_mem_access@ == Seq::new(n as nat, |j: int| MemoryLocalEvent {
        addr: word_addr(arg1, j),
        initial_mem_access: record_at(before.memory@, word_addr(arg1, j)),
        final_mem_access: MemoryRecord { value: out[j], shard: before.shard, timestamp: (before.clk + 1) as u32 },
    })
    &&& forall|a: u32| #[trigger] value_at(after.memory@, a) == written_value(before.memory@, arg1, out, a)
    &&& after.local_memory_access@ == drained(before.local_memory_access@, arg1, n)
    &&& after.record.bn254_fp2_mul_events@ == before.record.bn254_fp2_mul_events@
    &&& after.record.bls12381_fp2_mul_events@ == before.record.bls12381_fp2_mul_events@
    &&& after.shard == before.shard
    &&& after.channel == before.channel
    &&& after.syscall_lookup_id == before.syscall_lookup_id
}

/// Two permutations of the same memory at the same clock, shard, channel
/// and lookup identifier record the same event and leave the same words.
pub proof fn lemma_permute_deterministic(
    before1: &SyscallContext,
    after1: &SyscallContext,
    before2: &SyscallContext,
    after2: &SyscallContext,
    arg1: u32,
)
    requires
        permute_done(before1, after1, arg1),
        permute_done(before2, after2, arg1),
        before1.memory@ == before2.memory@,
        before1.clk == before2.clk,
        before1.shard == before2.shard,
        before1.channel == before2.channel,
        before1.syscall_lookup_id == before2.syscall_lookup_id,
    ensures
        ({
            let ev1 = after1.record.keccak_permute_events@.last();
            let ev2 = after2.record.keccak_permute_events@.last();
            &&& after1.clk - before1.clk == after2.clk - before2.clk
            &&& ev1.lookup_id == ev2.lookup_id
            &&& ev1.shard == ev2.shard
            &&& ev1.channel == ev2.channel
            &&& ev1.clk == ev2.clk
            &&& ev1.state_addr == ev2.state_addr
            &&& ev1.pre_state@ == ev2.pre_state@
            &&& ev1.post_state@ == ev2.post_state@
            &&& ev1.state_read_records@ == ev2.state_read_records@
            &&& ev1.state_write_records@ == ev2.state_write_records@
            &&& ev1.local_mem_access@ == ev2.local_mem_access@
        }),
        forall|a: u32| #[trigger] value_at(after1.memory@, a) == value_at(after2.memory@, a),
        before1.local_memory_access@ == before2.local_memory_access@ && before1.record.local_memory_access@
            == before2.record.local_memory_access@ ==> after1.local_memory_access@
            == after2.local_memory_access@ && after1.record.local_memory_access@
            == after2.record.local_memory_access@,
{
}

/// The Keccak-f[1600] permutation of a state of 25 lanes held in memory as
/// 50 words.
pub struct Keccak256PermuteSyscall;

impl Keccak256PermuteSyscall {
    /// The clock cycles that the syscall takes beyond its instruction.
    pub fn num_extra_cycles(&self) -> (r: u32)
        ensures
            r == 1,
    {
        1
    }

    /// Permutes the state at `arg1` in place and records the permutation;
    /// `arg2` must be zero.
    pub fn execute(&self, rt: &mut SyscallContext, arg1: u32, arg2: u32) -> (r: Result<Option<u32>, ExecutionError>)
        requires
            old(rt).clk < u32::MAX,
        ensures
            r.is_err() <==> permute_check(arg1, arg2).is_err(),
            match r {
                Err(e) => {
                    &&& Err::<(), ExecutionError>(e) == permute_check(arg1, arg2)
                    &&& final(rt).same_events(old(rt))
                    &&& final(rt).memory@ == old(rt).memory@
                    &&& final(rt).local_memory_access@ == old(rt).local_memory_access@
                    &&& final(rt).record.local_memory_access@ == old(rt).record.local_memory_access@
                },
                Ok(v) => v is None && permute_done(old(rt), final(rt), arg1),
            },
    {
        let start_clk = rt.clk;
        let state_ptr = arg1;
        if arg2 != 0 {
            return Err(ExecutionError::InvalidArgument { arg: arg2 });
        }
        match crate::memory::check_slice(state_ptr, STATE_NUM_WORDS) {
            Err(e) => {
                return Err(e);
            },
            Ok(()) => {},
        }
        let ghost mem0 = rt.memory@;
        let ghost events0 = rt.record.keccak_permute_events@;
        let ghost pending0 = rt.local_memory_access@;
        rt.flush_pending(state_ptr, STATE_NUM_WORDS);
        let ghost pending_r0 = rt.local_memory_access@;
        let (state_read_records, state_values) = rt.read_words(state_ptr, STATE_NUM_WORDS);
        let ghost pending_r1 = rt.local_memory_access@;
        let state = lanes_from_words(&state_values);
        assert(state@.len() == STATE_SIZE);
        let saved_state = state.clone();
        let post_state = keccak_f(&state);
        // The writes come one cycle after the reads.
        rt.clk = rt.clk + 1;
        let values_to_write = words_from_lanes(&post_state);
        let ghost mem1 = rt.memory@;
        let state_write_records = rt.write_words(state_ptr, &values_to_write);
        assert forall|a: u32| #[trigger] value_at(rt.memory@, a) == written_value(mem0, arg1, words_of(post_state@), a) by {
            assert(value_at(rt.memory@, a) == written_value(mem1, arg1, values_to_write@, a));
            assert(value_at(mem1, a) == value_at(mem0, a));
        }
        let ghost pending1 = rt.local_memory_access@;
        assert forall|j: int| 0 <= j < STATE_NUM_WORDS implies pending1.contains_key(#[trigger] word_addr(state_ptr, j)) && pending1[word_addr(state_ptr, j)] == (MemoryLocalEvent {
            addr: word_addr(arg1, j),
            initial_mem_access: record_at(mem0, word_addr(arg1, j)),
            final_mem_access: MemoryRecord { value: values_to_write@[j], shard: rt.shard, timestamp: rt.clk },
        }) by {
            let a = word_addr(state_ptr, j);
            assert(in_slice(state_ptr, STATE_NUM_WORDS as int, a));
            assert((a - state_ptr) / 4 == j);
            assert(!pending_r0.contains_key(a));
            assert(pending_r1.contains_key(a));
        }
        let local_mem_access = match rt.reconcile_and_drain(state_ptr, STATE_NUM_WORDS) {
            Ok(local) => local,
            Err(e) => {
                return Err(e);
            },
        };
        assert(rt.local_memory_access@ =~= drained(pending0, arg1, STATE_NUM_WORDS as int));
        assert(state_read_records@ =~= Seq::new(STATE_NUM_WORDS as nat, |j: int| MemoryAccessRecord {
            addr: word_addr(arg1, j),
            prev_value: state_values@[j],
            value: state_values@[j],
            shard: rt.shard,
            channel: rt.channel,
            timestamp: start_clk,
            kind: AccessKind::Read,
        }));
        assert(state_write_records@ =~= Seq::new(STATE_NUM_WORDS as nat, |j: int| MemoryAccessRecord {
            addr: word_addr(arg1, j),
            prev_value: state_values@[j],
            value: values_to_write@[j],
            shard: rt.shard,
            channel: rt.channel,
            timestamp: rt.clk,
            kind: AccessKind::Write,
        }));
        assert(local_mem_access@ =~= Seq::new(STATE_NUM_WORDS as nat, |j: int| MemoryLocalEvent {
            addr: word_addr(arg1, j),
            initial_mem_access: record_at(mem0, word_addr(arg1, j)),
            final_mem_access: MemoryRecord { value: values_to_write@[j], shard: rt.shard, timestamp: rt.clk },
        }));
        let event = KeccakPermuteEvent {
            lookup_id: rt.syscall_lookup_id,
            shard: rt.shard,
            channel: rt.channel,
            clk: start_clk,
            pre_state: saved_state,
            post_state,
            state_read_records,
            state_write_records,
            state_addr: state_ptr,
            local_mem_access,
        };
        rt.record.keccak_permute_events.push(event);
        assert(rt.record.keccak_permute_events@.drop_last() =~= events0);
        Ok(None)
    }
}

} // verus!
