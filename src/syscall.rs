use crate::events::ExecutionError;
use crate::fp2_mul::{fp2_check, fp2_events, Fp2MulSyscall};
use crate::keccak_permute::{permute_check, permute_done, Keccak256PermuteSyscall};
use crate::memory::SyscallContext;
use vstd::prelude::*;

verus! {

/// A syscall precompile.
pub enum Precompile {
    KeccakPermute(Keccak256PermuteSyscall),
    Fp2Mul(Fp2MulSyscall),
}

impl Precompile {
    /// The precompile can run: a multiplication needs a positive modulus.
    pub open spec fn wf(&self) -> bool {
        match self {
            Precompile::KeccakPermute(_) => true,
            Precompile::Fp2Mul(p) => p.modulus_value() > 0,
        }
    }

    /// The outcome of the precompile's checks on its arguments.
    pub open spec fn check(&self, arg1: u32, arg2: u32) -> Result<(), ExecutionError> {
        match self {
            Precompile::KeccakPermute(_) => permute_check(arg1, arg2),
            Precompile::Fp2Mul(p) => fp2_check(arg1, arg2, p.num_words as int),
        }
    }

    /// `after` is `before` once the precompile has run on `arg1` and `arg2`.
    pub open spec fn done(&self, before: &SyscallContext, after: &SyscallContext, arg1: u32, arg2: u32) -> bool {
        match self {
            Precompile::KeccakPermute(_) => permute_done(before, after, arg1),
            Precompile::Fp2Mul(p) => p.mul_done(before, after, arg1, arg2),
        }
    }

    /// The number of events of the precompile's kind in `rt`'s record.
    pub open spec fn event_count(&self, rt: &SyscallContext) -> int {
        match self {
            Precompile::KeccakPermute(_) => rt.record.keccak_permute_events@.len() as int,
            Precompile::Fp2Mul(p) => fp2_events(&rt.record, p.field_type).len() as int,
        }
    }

    /// The clock cycles that the precompile takes beyond its instruction.
    pub fn num_extra_cycles(&self) -> (r: u32)
        ensures
            r == 1,
    {
        match self {
            Precompile::KeccakPermute(p) => p.num_extra_cycles(),
            Precompile::Fp2Mul(p) => p.num_extra_cycles(),
        }
    }

    /// Runs the precompile.
    pub fn execute(&self, rt: &mut SyscallContext, arg1: u32, arg2: u32) -> (r: Result<Option<u32>, ExecutionError>)
        requires
            old(rt).clk < u32::MAX,
            self.wf(),
        ensures
            r.is_err() <==> self.check(arg1, arg2).is_err(),
            match r {
                Err(e) => {
                    &&& Err::<(), ExecutionError>(e) == self.check(arg1, arg2)
                    &&& final(rt).same_events(old(rt))
                    &&& final(rt).memory@ == old(rt).memory@
                    &&& final(rt).local_memory_access@ == old(rt).local_memory_access@
                },
                Ok(v) => {
                    &&& v is None
                    &&& final(rt).clk == old(rt).clk + 1
                    &&& self.event_count(final(rt)) == self.event_count(old(rt)) + 1
                    &&& self.done(old(rt), final(rt), arg1, arg2)
                },
            },
    {
        match self {
            Precompile::KeccakPermute(p) => p.execute(rt, arg1, arg2),
            Precompile::Fp2Mul(p) => p.execute(rt, arg1, arg2),
        }
    }
}

/// The position of the first entry registered under `id`, if any.
pub open spec fn lookup_position(ids: Seq<u32>, id: u32) -> Option<int>
    decreases ids.len(),
{
    if ids.len() == 0 {
        None
    } else if ids.last() == id {
        match lookup_position(ids.drop_last(), id) {
            Some(k) => Some(k),
            None => Some(ids.len() - 1),
        }
    } else {
        lookup_position(ids.drop_last(), id)
    }
}

/// The precompiles, each under its syscall identifier.
pub struct SyscallRegistry {
    pub ids: Vec<u32>,
    pub precompiles: Vec<Precompile>,
}

impl SyscallRegistry {
    /// The identifiers and precompiles pair up, and every precompile can run.
    pub open spec fn wf(&self) -> bool {
        &&& self.ids@.len() == self.precompiles@.len()
        &&& forall|k: int| 0 <= k < self.precompiles@.len() ==> #[trigger] self.precompiles@[k].wf()
    }

    /// A registry with no precompile.
    pub fn new() -> (r: SyscallRegistry)
        ensures
            r.wf(),
            r.ids@.len() == 0,
    {
        SyscallRegistry { ids: Vec::new(), precompiles: Vec::new() }
    }

    /// Registers `precompile` under `id`; an earlier registration under the
    /// same identifier keeps precedence.
    pub fn register(&mut self, id: u32, precompile: Precompile)
        requires
            old(self).wf(),
            precompile.wf(),
        ensures
            final(self).wf(),
            final(self).ids@ == old(self).ids@.push(id),
            final(self).precompiles@ == old(self).precompiles@.push(precompile),
    {
        self.ids.push(id);
        self.precompiles.push(precompile);
    }

    /// The position of the first precompile under `id`.
    pub fn lookup(&self, id: u32) -> (r: Option<usize>)
        requires
            self.wf(),
        ensures
            r matches Some(k) ==> lookup_position(self.ids@, id) == Some(k as int),
            r is None ==> lookup_position(self.ids@, id) is None,
    {
        let mut i: usize = 0;
        while i < self.ids.len()
            invariant
                i <= self.ids@.len(),
                lookup_position(self.ids@.take(i as int), id) is None,
            decreases self.ids@.len() - i,
        {
            if self.ids[i] == id {
                proof {
                    lemma_lookup_first(self.ids@, id, i as int);
                }
                return Some(i);
            }
            proof {
                assert(self.ids@.take(i + 1).drop_last() =~= self.ids@.take(i as int));
            }
            i = i + 1;
        }
        assert(self.ids@.take(i as int) =~= self.ids@);
        None
    }

    /// Runs the precompile registered under `id` on `arg1` and `arg2` and
    /// advances the clock by its extra cycles. Returns the value for the
    /// return register, if the precompile gives one.
    pub fn dispatch(&self, rt: &mut SyscallContext, id: u32, arg1: u32, arg2: u32) -> (r: Result<Option<u32>, ExecutionError>)
        requires
            self.wf(),
            old(rt).clk < u32::MAX,
        ensures
            lookup_position(self.ids@, id) is None ==> r == Err::<Option<u32>, ExecutionError>(
                ExecutionError::UnknownSyscall { id },
            ) && final(rt).same_events(old(rt)) && final(rt).memory@ == old(rt).memory@,
            lookup_position(self.ids@, id) matches Some(k) ==> {
                let p = self.precompiles@[k];
                &&& r.is_err() <==> p.check(arg1, arg2).is_err()
                &&& r matches Err(e) ==> Err::<(), ExecutionError>(e) == p.check(arg1, arg2)
                    && final(rt).same_events(old(rt)) && final(rt).memory@ == old(rt).memory@
                &&& r matches Ok(v) ==> v is None && final(rt).clk == old(rt).clk + 1
                    && p.event_count(final(rt)) == p.event_count(old(rt)) + 1
                    && p.done(old(rt), final(rt), arg1, arg2)
            },
    {
        match self.lookup(id) {
            None => Err(ExecutionError::UnknownSyscall { id }),
            Some(k) => {
                proof {
                    lemma_lookup_in_range(self.ids@, id);
                }
                let precompile = &self.precompiles[k];
                let start = rt.clk;
                let res = precompile.execute(rt, arg1, arg2);
                if res.is_ok() {
                    rt.clk = start + precompile.num_extra_cycles();
                }
                res
            },
        }
    }
}

proof fn lemma_lookup_in_range(ids: Seq<u32>, id: u32)
    ensures
        lookup_position(ids, id) matches Some(k) ==> 0 <= k < ids.len(),
    decreases ids.len(),
{
    if ids.len() > 0 {
        lemma_lookup_in_range(ids.drop_last(), id);
    }
}

proof fn lemma_lookup_first(ids: Seq<u32>, id: u32, i: int)
    requires
        0 <= i < ids.len(),
        ids[i] == id,
        lookup_position(ids.take(i), id) is None,
    ensures
        lookup_position(ids, id) == Some(i),
    decreases ids.len(),
{
    if i == ids.len() - 1 {
        assert(ids.drop_last() =~= ids.take(i));
    } else {
        assert(ids.drop_last().take(i) =~= ids.take(i));
        lemma_lookup_first(ids.drop_last(), id, i);
    }
}

} // verus!
