use crate::events::{AccessKind, ExecutionError, FieldType, Fp2MulEvent, MemoryAccessRecord, MemoryLocalEvent, MemoryRecord};
use crate::memory::{drained, flushed, in_slice, read_spec, record_after_read, record_at, slice_check, value_at, word_addr, written_value, SyscallContext};
use num::BigUint;
use vstd::arithmetic::div_mod::{lemma_add_mod_noop, lemma_fundamental_div_mod, lemma_fundamental_div_mod_converse, lemma_sub_mod_noop};
use vstd::prelude::*;

verus! {

/// The base of the digits of a big number: one 32-bit word.
pub const DIGIT_BASE: u64 = 0x1_0000_0000;

/// The number that little-endian base-2^32 digits stand for.
pub open spec fn digits_value(s: Seq<u32>) -> nat
    decreases s.len(),
{
    if s.len() == 0 {
        0
    } else {
        (s[0] as nat + DIGIT_BASE * digits_value(s.drop_first())) as nat
    }
}

/// The number that little-endian bytes stand for.
pub open spec fn bytes_value(s: Seq<u8>) -> nat
    decreases s.len(),
{
    if s.len() == 0 {
        0
    } else {
        (s[0] as nat + 256 * bytes_value(s.drop_first())) as nat
    }
}

/// The little-endian base-2^32 digits of `v`, with no zero digit at the top
/// (none at all for zero).
pub open spec fn digits_of(v: nat) -> Seq<u32>
    decreases v,
{
    if v == 0 {
        Seq::empty()
    } else {
        seq![(v % DIGIT_BASE as nat) as u32] + digits_of(v / DIGIT_BASE as nat)
    }
}

/// Relies on num's BigUint::from_slice, `*` and to_u32_digits: the product
/// of two numbers given as digits.
#[verifier::external_body]
fn big_mul(a: &Vec<u32>, b: &Vec<u32>) -> (r: Vec<u32>)
    ensures
        r@ == digits_of(digits_value(a@) * digits_value(b@)),
{
    (BigUint::from_slice(a) * BigUint::from_slice(b)).to_u32_digits()
}

/// Relies on num's BigUint::from_slice, `%` and to_u32_digits: the
/// remainder of a division; `%` panics on a zero divisor.
#[verifier::external_body]
fn big_rem(a: &Vec<u32>, m: &Vec<u32>) -> (r: Vec<u32>)
    requires
        digits_value(m@) > 0,
    ensures
        r@ == digits_of(digits_value(a@) % digits_value(m@)),
{
    (BigUint::from_slice(a) % BigUint::from_slice(m)).to_u32_digits()
}

/// Relies on num's BigUint::from_slice, `+` and to_u32_digits: the sum.
#[verifier::external_body]
fn big_add(a: &Vec<u32>, b: &Vec<u32>) -> (r: Vec<u32>)
    ensures
        r@ == digits_of(digits_value(a@) + digits_value(b@)),
{
    (BigUint::from_slice(a) + BigUint::from_slice(b)).to_u32_digits()
}

/// Relies on num's BigUint::from_slice, `-` and to_u32_digits: the
/// difference; `-` panics where it would be negative.
#[verifier::external_body]
fn big_sub(a: &Vec<u32>, b: &Vec<u32>) -> (r: Vec<u32>)
    requires
        digits_value(a@) >= digits_value(b@),
    ensures
        r@ == digits_of((digits_value(a@) - digits_value(b@)) as nat),
{
    (BigUint::from_slice(a) - BigUint::from_slice(b)).to_u32_digits()
}

/// Relies on num's BigUint::from_slice and `<`: compares two numbers.
#[verifier::external_body]
fn big_lt(a: &Vec<u32>, b: &Vec<u32>) -> (r: bool)
    ensures
        r == (digits_value(a@) < digits_value(b@)),
{
    BigUint::from_slice(a) < BigUint::from_slice(b)
}

/// Relies on num's BigUint::from_bytes_le and to_u32_digits: the digits of
/// the number that little-endian bytes stand for.
#[verifier::external_body]
fn big_from_bytes_le(bytes: &Vec<u8>) -> (r: Vec<u32>)
    ensures
        r@ == digits_of(bytes_value(bytes@)),
{
    BigUint::from_bytes_le(bytes).to_u32_digits()
}

/// The digits of a number stand for it.
pub proof fn lemma_digits_value_of(v: nat)
    ensures
        digits_value(digits_of(v)) == v,
    decreases v,
{
    if v > 0 {
        let b = DIGIT_BASE as nat;
        lemma_fundamental_div_mod(v as int, b as int);
        lemma_digits_value_of(v / b);
        let s = digits_of(v);
        assert(s.drop_first() =~= digits_of(v / b));
    }
}

/// `s` padded with zero words, or cut, to exactly `n` words.
pub open spec fn resized(s: Seq<u32>, n: int) -> Seq<u32> {
    Seq::new(n as nat, |i: int| if i < s.len() { s[i] } else { 0u32 })
}

/// The real and imaginary parts of `(a0 + a1 i)(b0 + b1 i)` modulo `p`,
/// where `i * i == -1`.
pub open spec fn fp2_product(a0: nat, a1: nat, b0: nat, b1: nat, p: nat) -> (nat, nat) {
    (((a0 * b0 - a1 * b1) % (p as int)) as nat, (a0 * b1 + a1 * b0) % p)
}

/// The words that the multiplication writes back: the digits of the real
/// part padded with zeros or cut to the lower `n / 2` words, then those of
/// the imaginary part padded or cut to the remaining words. Each operand's
/// words split in half into its two parts.
pub open spec fn fp2_mul_result(x: Seq<u32>, y: Seq<u32>, p: nat, n: int) -> Seq<u32> {
    let c = fp2_product(
        digits_value(x.take(x.len() as int / 2)),
        digits_value(x.skip(x.len() as int / 2)),
        digits_value(y.take(y.len() as int / 2)),
        digits_value(y.skip(y.len() as int / 2)),
        p,
    );
    resized(digits_of(c.0), n / 2) + resized(digits_of(c.1), n - n / 2)
}

/// Copies `s[from..to]`.
fn copy_words(s: &Vec<u32>, from: usize, to: usize) -> (r: Vec<u32>)
    requires
        from <= to <= s@.len(),
    ensures
        r@ == s@.subrange(from as int, to as int),
{
    let mut r: Vec<u32> = Vec::new();
    let mut i: usize = from;
    while i < to
        invariant
            from <= i <= to <= s@.len(),
            r@ == s@.subrange(from as int, i as int),
        decreases to - i,
    {
        r.push(s[i]);
        i = i + 1;
        assert(r@ =~= s@.subrange(from as int, i as int));
    }
    r
}

/// `(t0 - t1) mod p` for `t0, t1 < p`, without going below zero.
fn sub_mod(t0: &Vec<u32>, t1: &Vec<u32>, m: &Vec<u32>) -> (r: Vec<u32>)
    requires
        digits_value(m@) > 0,
        digits_value(t0@) < digits_value(m@),
        digits_value(t1@) < digits_value(m@),
    ensures
        r@ == digits_of(((digits_value(t0@) - digits_value(t1@)) % (digits_value(m@) as int)) as nat),
{
    let ghost p = digits_value(m@) as int;
    let ghost d = digits_value(t0@) - digits_value(t1@);
    if big_lt(t0, t1) {
        let s = big_add(m, t0);
        proof {
            lemma_digits_value_of(digits_value(m@) + digits_value(t0@));
        }
        let diff = big_sub(&s, t1);
        proof {
            lemma_digits_value_of((digits_value(s@) - digits_value(t1@)) as nat);
            lemma_fundamental_div_mod_converse(d, p, -1, p + d);
            lemma_fundamental_div_mod_converse(p + d, p, 0, p + d);
        }
        big_rem(&diff, m)
    } else {
        let diff = big_sub(t0, t1);
        proof {
            lemma_digits_value_of(d as nat);
        }
        big_rem(&diff, m)
    }
}

/// Multiplies two elements of the quadratic extension given as words:
/// each operand's words split in half into its real and imaginary parts.
/// The result holds the real part's digits in its lower `num_words / 2`
/// words and the imaginary part's in the rest, each padded with zeros or
/// cut to its half.
pub fn fp2_mul_words(x: &Vec<u32>, y: &Vec<u32>, modulus: &Vec<u32>, num_words: usize) -> (r: Vec<u32>)
    requires
        digits_value(modulus@) > 0,
    ensures
        r@ == fp2_mul_result(x@, y@, digits_value(modulus@), num_words as int),
{
    let ghost p = digits_value(modulus@);
    let ac0 = copy_words(x, 0, x.len() / 2);
    let ac1 = copy_words(x, x.len() / 2, x.len());
    let bc0 = copy_words(y, 0, y.len() / 2);
    let bc1 = copy_words(y, y.len() / 2, y.len());
    assert(ac0@ =~= x@.take(x@.len() as int / 2));
    assert(ac1@ =~= x@.skip(x@.len() as int / 2));
    assert(bc0@ =~= y@.take(y@.len() as int / 2));
    assert(bc1@ =~= y@.skip(y@.len() as int / 2));
    let ghost a0 = digits_value(ac0@);
    let ghost a1 = digits_value(ac1@);
    let ghost b0 = digits_value(bc0@);
    let ghost b1 = digits_value(bc1@);

    let m00 = big_mul(&ac0, &bc0);
    let m11 = big_mul(&ac1, &bc1);
    let m01 = big_mul(&ac0, &bc1);
    let m10 = big_mul(&ac1, &bc0);
    proof {
        lemma_digits_value_of(a0 * b0);
        lemma_digits_value_of(a1 * b1);
        lemma_digits_value_of(a0 * b1);
        lemma_digits_value_of(a1 * b0);
    }
    let t0 = big_rem(&m00, modulus);
    let t1 = big_rem(&m11, modulus);
    let u0 = big_rem(&m01, modulus);
    let u1 = big_rem(&m10, modulus);
    proof {
        lemma_digits_value_of((a0 * b0) % p);
        lemma_digits_value_of((a1 * b1) % p);
        lemma_digits_value_of((a0 * b1) % p);
        lemma_digits_value_of((a1 * b0) % p);
        lemma_sub_mod_noop((a0 * b0) as int, (a1 * b1) as int, p as int);
        lemma_add_mod_noop((a0 * b1) as int, (a1 * b0) as int, p as int);
    }
    let c0 = sub_mod(&t0, &t1, modulus);
    let s1 = big_add(&u0, &u1);
    proof {
        lemma_digits_value_of((a0 * b1) % p + (a1 * b0) % p);
    }
    let c1 = big_rem(&s1, modulus);
    let ghost n = num_words as int;
    let ghost target = resized(digits_of(fp2_product(a0, a1, b0, b1, p).0), n / 2)
        + resized(digits_of(fp2_product(a0, a1, b0, b1, p).1), n - n / 2);
    let half: usize = num_words / 2;

    let mut result: Vec<u32> = Vec::new();
    let mut i: usize = 0;
    while i < num_words
        invariant
            i <= num_words,
            half == num_words / 2,
            target == resized(c0@, half as int) + resized(c1@, num_words - half as int),
            result@ == target.take(i as int),
        decreases num_words - i,
    {
        if i < half {
            if i < c0.len() {
                result.push(c0[i]);
            } else {
                result.push(0);
            }
        } else {
            let k: usize = i - half;
            if k < c1.len() {
                result.push(c1[k]);
            } else {
                result.push(0);
            }
        }
        i = i + 1;
        assert(result@ =~= target.take(i as int));
    }
    assert(result@ =~= target);
    result
}

proof fn lemma_zero_words_value(s: Seq<u32>, t: Seq<u32>)
    requires
        forall|i: int| 0 <= i < t.len() ==> t[i] == 0,
    ensures
        digits_value(s + t) == digits_value(s),
    decreases s.len() + t.len(),
{
    if s.len() == 0 {
        assert(s + t =~= t);
        if t.len() > 0 {
            lemma_zero_words_value(s, t.drop_first());
            assert(s + t.drop_first() =~= t.drop_first());
        }
    } else {
        lemma_zero_words_value(s.drop_first(), t);
        assert((s + t).drop_first() =~= s.drop_first() + t);
    }
}

proof fn lemma_mod_congruent(v: int, p: int)
    requires
        p > 0,
    ensures
        (v % p - v) % p == 0,
{
    lemma_fundamental_div_mod(v, p);
    let q = v / p;
    let m = v % p;
    assert(m - v == (-q) * p) by (nonlinear_arith)
        requires
            v == p * q + m,
    ;
    lemma_fundamental_div_mod_converse(v % p - v, p, -(v / p), 0);
}

/// The `n` words that the multiplication writes back are its real part in
/// the lower half and its imaginary part in the upper half, and these are
/// congruent modulo `p` to `a0 * b0 - a1 * b1` and `a0 * b1 + a1 * b0`:
/// `(c0 + c1 i) == (a0 + a1 i)(b0 + b1 i)` with `i * i == -1`, wherever
/// the digits of each part fit in its half (as they do when `p` fits in
/// `n / 2` words).
pub proof fn lemma_fp2_mul_result_is_product(x: Seq<u32>, y: Seq<u32>, p: nat, n: int)
    requires
        p > 0,
        0 <= n,
        ({
            let c = fp2_product(
                digits_value(x.take(x.len() as int / 2)),
                digits_value(x.skip(x.len() as int / 2)),
                digits_value(y.take(y.len() as int / 2)),
                digits_value(y.skip(y.len() as int / 2)),
                p,
            );
            digits_of(c.0).len() <= n / 2 && digits_of(c.1).len() <= n - n / 2
        }),
    ensures
        ({
            let a0 = digits_value(x.take(x.len() as int / 2));
            let a1 = digits_value(x.skip(x.len() as int / 2));
            let b0 = digits_value(y.take(y.len() as int / 2));
            let b1 = digits_value(y.skip(y.len() as int / 2));
            let r = fp2_mul_result(x, y, p, n);
            let c0 = digits_value(r.take(n / 2));
            let c1 = digits_value(r.skip(n / 2));
            let c = fp2_product(a0, a1, b0, b1, p);
            &&& c0 == c.0
            &&& c1 == c.1
            &&& r.len() == n
            &&& c0 < p
            &&& c1 < p
            &&& (c0 - (a0 * b0 - a1 * b1)) % (p as int) == 0
            &&& (c1 - (a0 * b1 + a1 * b0)) % (p as int) == 0
        }),
{
    let a0 = digits_value(x.take(x.len() as int / 2));
    let a1 = digits_value(x.skip(x.len() as int / 2));
    let b0 = digits_value(y.take(y.len() as int / 2));
    let b1 = digits_value(y.skip(y.len() as int / 2));
    let c = fp2_product(a0, a1, b0, b1, p);
    let d0 = digits_of(c.0);
    let d1 = digits_of(c.1);
    let r = fp2_mul_result(x, y, p, n);
    let h = n / 2;
    let zeros0 = Seq::new((h - d0.len()) as nat, |i: int| 0u32);
    assert(r.take(h) =~= d0 + zeros0);
    lemma_zero_words_value(d0, zeros0);
    let zeros = Seq::new((n - h - d1.len()) as nat, |i: int| 0u32);
    assert(r.skip(h) =~= d1 + zeros);
    lemma_zero_words_value(d1, zeros);
    lemma_digits_value_of(c.0);
    lemma_digits_value_of(c.1);
    lemma_mod_congruent(a0 * b0 - a1 * b1, p as int);
    lemma_mod_congruent((a0 * b1 + a1 * b0) as int, p as int);
}

/// The outcome of the checks on the pointers of a multiplication of
/// `n`-word elements: both aligned, then both within the address space.
pub open spec fn fp2_check(x_ptr: u32, y_ptr: u32, n: int) -> Result<(), ExecutionError> {
    if x_ptr % 4 != 0 {
        Err(ExecutionError::AlignmentFault { addr: x_ptr })
    } else if y_ptr % 4 != 0 {
        Err(ExecutionError::AlignmentFault { addr: y_ptr })
    } else if slice_check(x_ptr, n).is_err() {
        slice_check(x_ptr, n)
    } else {
        slice_check(y_ptr, n)
    }
}

/// The multiplication events of the record that receives those over `field`.
pub open spec fn fp2_events(record: &crate::events::ExecutionRecord, field: FieldType) -> Seq<
    Fp2MulEvent,
> {
    match field {
        FieldType::Bn254 => record.bn254_fp2_mul_events@,
        FieldType::Bls12381 => record.bls12381_fp2_mul_events@,
    }
}

/// Multiplication in the quadratic extension of a prime field, in place:
/// `x <- x * y`, with `i * i == -1`.
pub struct Fp2MulSyscall {
    /// The field's prime, as little-endian bytes.
    pub modulus: Vec<u8>,
    /// The words of one element: half for each part.
    pub num_words: usize,
    /// The field, which selects the collection of events.
    pub field_type: FieldType,
}

impl Fp2MulSyscall {
    /// The value of the modulus.
    pub open spec fn modulus_value(&self) -> nat {
        bytes_value(self.modulus@)
    }

    /// `after` is `before` once the element at `arg1` has been multiplied by
    /// the one at `arg2`: the product stands at `arg1`, the accesses to both
    /// are reconciled into the new event, and the clock has moved on by one.
    pub open spec fn mul_done(&self, before: &SyscallContext, after: &SyscallContext, arg1: u32, arg2: u32) -> bool {
        let n = self.num_words as int;
        let x = read_spec(before.memory@, arg1, n);
        let y = read_spec(before.memory@, arg2, n);
        let result = fp2_mul_result(x, y, self.modulus_value(), n);
        let events = fp2_events(&after.record, self.field_type);
        let ev = events.last();
        &&& after.clk == before.clk + 1
        &&& after.record.local_memory_access@ == before.record.local_memory_access@ + flushed(
            before.local_memory_access@,
            arg2,
            n,
        ) + flushed(drained(before.local_memory_access@, arg2, n), arg1, n)
        &&& events.len() == fp2_events(&before.record, self.field_type).len() + 1
        &&& events.drop_last() == fp2_events(&before.record, self.field_type)
        &&& ev.lookup_id == before.syscall_lookup_id
        &&& ev.shard == before.shard
        &&& ev.channel == before.channel
        &&& ev.clk == before.clk
        &&& ev.x_ptr == arg1
        &&& ev.y_ptr == arg2
        &&& ev.x@ == x
        &&& ev.y@ == y
        &&& ev.y_memory_records@ == Seq::new(n as nat, |j: int| MemoryAccessRecord {
            addr: word_addr(arg2, j),
            prev_value: y[j],
            value: y[j],
            shard: before.shard,
            channel: before.channel,
            timestamp: before.clk,
            kind: AccessKind::Read,
        })
        &&& ev.x_memory_records@ == Seq::new(n as nat, |j: int| MemoryAccessRecord {
            addr: word_addr(arg1, j),
            prev_value: x[j],
            value: result[j],
            shard: before.shard,
            channel: before.channel,
            timestamp: (before.clk + 1) as u32,
            kind: AccessKind::Write,
        })
        &&& ev.local_mem_access@ == Seq::new(n as nat, |j: int| MemoryLocalEvent {
            addr: word_addr(arg2, j),
            initial_mem_access: record_at(before.memory@, word_addr(arg2, j)),
            final_mem_access: MemoryRecord { value: y[j], shard: before.shard, timestamp: before.clk },
        }) + Seq::new(n as nat, |j: int| MemoryLocalEvent {
            addr: word_addr(arg1, j),
            initial_mem_access: record_after_read(before.memory@, arg2, n, before.shard, before.clk, word_addr(arg1, j)),
            final_mem_access: MemoryRecord { value: result[j], shard: before.shard, timestamp: (before.clk + 1) as u32 },
        })
        &&& forall|a: u32| #[trigger] value_at(after.memory@, a) == written_value(before.memory@, arg1, result, a)
        &&& after.local_memory_access@ == drained(drained(before.local_memory_access@, arg2, n), arg1, n)
        &&& fp2_events(&after.record, other_field(self.field_type)) == fp2_events(&before.record, other_field(self.field_type))
        &&& after.record.keccak_permute_events@ == before.record.keccak_permute_events@
        &&& after.shard == before.shard
        &&& after.channel == before.channel
        &&& after.syscall_lookup_id == before.syscall_lookup_id
    }

    /// A multiplication over the field with prime `modulus` (little-endian
    /// bytes), on elements of `num_words` words.
    pub fn new(modulus: Vec<u8>, num_words: usize, field_type: FieldType) -> (r: Fp2MulSyscall)
        ensures
            r.modulus@ == modulus@,
            r.num_words == num_words,
            r.field_type == field_type,
    {
        Fp2MulSyscall { modulus, num_words, field_type }
    }

    /// The clock cycles that the syscall takes beyond its instruction.
    pub fn num_extra_cycles(&self) -> (r: u32)
        ensures
            r == 1,
    {
        1
    }

    /// Multiplies the element at `arg1` by the one at `arg2`, writes the
    /// product over the first, and records the multiplication.
    pub fn execute(&self, rt: &mut SyscallContext, arg1: u32, arg2: u32) -> (r: Result<Option<u32>, ExecutionError>)
        requires
            old(rt).clk < u32::MAX,
            self.modulus_value() > 0,
        ensures
            r.is_err() <==> fp2_check(arg1, arg2, self.num_words as int).is_err(),
            match r {
                Err(e) => {
                    &&& Err::<(), ExecutionError>(e) == fp2_check(arg1, arg2, self.num_words as int)
                    &&& final(rt).same_events(old(rt))
                    &&& final(rt).memory@ == old(rt).memory@
                    &&& final(rt).local_memory_access@ == old(rt).local_memory_access@
                    &&& final(rt).record.local_memory_access@ == old(rt).record.local_memory_access@
                },
                Ok(v) => v is None && self.mul_done(old(rt), final(rt), arg1, arg2),
            },
    {
        let clk = rt.clk;
        let x_ptr = arg1;
        if x_ptr % 4 != 0 {
            return Err(ExecutionError::AlignmentFault { addr: x_ptr });
        }
        let y_ptr = arg2;
        if y_ptr % 4 != 0 {
            return Err(ExecutionError::AlignmentFault { addr: y_ptr });
        }
        let num_words = self.num_words;
        match crate::memory::check_slice(x_ptr, num_words) {
            Err(e) => {
                return Err(e);
            },
            Ok(()) => {},
        }
        match crate::memory::check_slice(y_ptr, num_words) {
            Err(e) => {
                return Err(e);
            },
            Ok(()) => {},
        }
        let ghost mem0 = rt.memory@;
        let ghost pending0 = rt.local_memory_access@;
        let x = rt.peek_slice(x_ptr, num_words);

        let ghost events0 = fp2_events(&rt.record, self.field_type);
        rt.flush_pending(y_ptr, num_words);
        let ghost pending_r0 = rt.local_memory_access@;
        let (y_memory_records, y) = rt.read_words(y_ptr, num_words);
        let ghost pending1 = rt.local_memory_access@;
        let ghost mem_r = rt.memory@;
        assert forall|j: int| 0 <= j < num_words implies pending1.contains_key(#[trigger] word_addr(y_ptr, j)) && pending1[word_addr(y_ptr, j)] == (MemoryLocalEvent {
            addr: word_addr(arg2, j),
            initial_mem_access: record_at(mem0, word_addr(arg2, j)),
            final_mem_access: MemoryRecord { value: y@[j], shard: rt.shard, timestamp: rt.clk },
        }) by {
            let a = word_addr(y_ptr, j);
            assert(in_slice(y_ptr, num_words as int, a));
            assert(!pending_r0.contains_key(a));
        }
        let mut fp_mul_local_mem_access = match rt.reconcile_and_drain(y_ptr, num_words) {
            Ok(local) => local,
            Err(e) => {
                return Err(e);
            },
        };
        assert(rt.local_memory_access@ =~= drained(pending0, y_ptr, num_words as int));

        // The write comes one cycle after the reads.
        rt.clk = rt.clk + 1;

        let modulus = big_from_bytes_le(&self.modulus);
        proof {
            lemma_digits_value_of(bytes_value(self.modulus@));
        }
        let result = fp2_mul_words(&x, &y, &modulus, num_words);

        rt.flush_pending(x_ptr, num_words);
        let ghost pending2 = rt.local_memory_access@;
        let ghost mem1 = rt.memory@;
        let x_memory_records = rt.write_words(x_ptr, &result);
        assert forall|a: u32| #[trigger] value_at(rt.memory@, a) == written_value(mem0, arg1, result@, a) by {
            assert(value_at(rt.memory@, a) == written_value(mem1, arg1, result@, a));
            assert(value_at(mem1, a) == value_at(mem0, a));
        }
        let ghost pending3 = rt.local_memory_access@;
        assert forall|j: int| 0 <= j < num_words implies pending3.contains_key(#[trigger] word_addr(x_ptr, j)) && pending3[word_addr(x_ptr, j)] == (MemoryLocalEvent {
            addr: word_addr(arg1, j),
            initial_mem_access: record_after_read(mem0, arg2, num_words as int, rt.shard, clk, word_addr(arg1, j)),
            final_mem_access: MemoryRecord { value: result@[j], shard: rt.shard, timestamp: rt.clk },
        }) by {
            let a = word_addr(x_ptr, j);
            assert(in_slice(x_ptr, num_words as int, a));
            assert((a - x_ptr) / 4 == j);
            assert(!pending2.contains_key(a));
            assert(record_at(mem1, a) == record_at(mem_r, a));
        }
        let mut x_local = match rt.reconcile_and_drain(x_ptr, num_words) {
            Ok(local) => local,
            Err(e) => {
                return Err(e);
            },
        };
        assert(rt.local_memory_access@ =~= drained(pending2, x_ptr, num_words as int));
        assert(drained(pending2, x_ptr, num_words as int) =~= pending2);
        let ghost y_local = fp_mul_local_mem_access@;
        let ghost x_local0 = x_local@;
        fp_mul_local_mem_access.append(&mut x_local);
        assert(forall|j: int| 0 <= j < num_words ==> fp_mul_local_mem_access@[j] == y_local[j]);
        assert(y_local =~= Seq::new(num_words as nat, |j: int| MemoryLocalEvent {
            addr: word_addr(arg2, j),
            initial_mem_access: record_at(mem0, word_addr(arg2, j)),
            final_mem_access: MemoryRecord { value: y@[j], shard: rt.shard, timestamp: clk },
        }));
        assert(x_local0 =~= Seq::new(num_words as nat, |j: int| MemoryLocalEvent {
            addr: word_addr(arg1, j),
            initial_mem_access: record_after_read(mem0, arg2, num_words as int, rt.shard, clk, word_addr(arg1, j)),
            final_mem_access: MemoryRecord { value: result@[j], shard: rt.shard, timestamp: rt.clk },
        }));
        assert(y_memory_records@ =~= Seq::new(num_words as nat, |j: int| MemoryAccessRecord {
            addr: word_addr(arg2, j),
            prev_value: y@[j],
            value: y@[j],
            shard: rt.shard,
            channel: rt.channel,
            timestamp: clk,
            kind: AccessKind::Read,
        }));
        assert(x_memory_records@ =~= Seq::new(num_words as nat, |j: int| MemoryAccessRecord {
            addr: word_addr(arg1, j),
            prev_value: x@[j],
            value: result@[j],
            shard: rt.shard,
            channel: rt.channel,
            timestamp: rt.clk,
            kind: AccessKind::Write,
        }));

        let event = Fp2MulEvent {
            lookup_id: rt.syscall_lookup_id,
            shard: rt.shard,
            channel: rt.channel,
            clk,
            x_ptr,
            x,
            y_ptr,
            y,
            x_memory_records,
            y_memory_records,
            local_mem_access: fp_mul_local_mem_access,
        };
        match self.field_type {
            FieldType::Bn254 => rt.record.bn254_fp2_mul_events.push(event),
            FieldType::Bls12381 => rt.record.bls12381_fp2_mul_events.push(event),
        }
        assert(fp2_events(&rt.record, self.field_type).drop_last() =~= events0);
        Ok(None)
    }
}

/// Two multiplications by the same precompile, of the same memory at the
/// same clock, shard, channel and lookup identifier, record the same event
/// and leave the same words.
pub proof fn lemma_fp2_mul_deterministic(
    p: &Fp2MulSyscall,
    before1: &SyscallContext,
    after1: &SyscallContext,
    before2: &SyscallContext,
    after2: &SyscallContext,
    arg1: u32,
    arg2: u32,
)
    requires
        p.mul_done(before1, after1, arg1, arg2),
        p.mul_done(before2, after2, arg1, arg2),
        before1.memory@ == before2.memory@,
        before1.clk == before2.clk,
        before1.shard == before2.shard,
        before1.channel == before2.channel,
        before1.syscall_lookup_id == before2.syscall_lookup_id,
    ensures
        ({
            let ev1 = fp2_events(&after1.record, p.field_type).last();
            let ev2 = fp2_events(&after2.record, p.field_type).last();
            &&& after1.clk - before1.clk == after2.clk - before2.clk
            &&& ev1.lookup_id == ev2.lookup_id
            &&& ev1.shard == ev2.shard
            &&& ev1.channel == ev2.channel
            &&& ev1.clk == ev2.clk
            &&& ev1.x_ptr == ev2.x_ptr
            &&& ev1.y_ptr == ev2.y_ptr
            &&& ev1.x@ == ev2.x@
            &&& ev1.y@ == ev2.y@
            &&& ev1.x_memory_records@ == ev2.x_memory_records@
            &&& ev1.y_memory_records@ == ev2.y_memory_records@
            &&& ev1.local_mem_access@ == ev2.local_mem_access@
        }),
        forall|a: u32| #[trigger] value_at(after1.memory@, a) == value_at(after2.memory@, a),
        before1.local_memory_access@ == before2.local_memory_access@ && before1.record.local_memory_access@
            == before2.record.local_memory_access@ ==> after1.local_memory_access@
            == after2.local_memory_access@ && after1.record.local_memory_access@
            == after2.record.local_memory_access@,
{
}

/// The field other than `field`.
pub open spec fn other_field(field: FieldType) -> FieldType {
    match field {
        FieldType::Bn254 => FieldType::Bls12381,
        FieldType::Bls12381 => FieldType::Bn254,
    }
}

} // verus!
