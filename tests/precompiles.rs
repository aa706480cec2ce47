use sp1_trace::events::{ExecutionError, FieldType};
use sp1_trace::fp2_mul::{fp2_mul_words, Fp2MulSyscall};
use sp1_trace::keccak_permute::{lanes_from_words, words_from_lanes, Keccak256PermuteSyscall};
use sp1_trace::memory::SyscallContext;
use sp1_trace::syscall::{Precompile, SyscallRegistry};

const BN254_MODULUS: [u8; 32] = [
    0x47, 0xfd, 0x7c, 0xd8, 0x16, 0x8c, 0x20, 0x3c, 0x8d, 0xca, 0x71, 0x68, 0x91, 0x6a, 0x81,
    0x97, 0x5d, 0x58, 0x81, 0x81, 0xb6, 0x45, 0x50, 0xb8, 0x29, 0xa0, 0x31, 0xe1, 0x72, 0x4e,
    0x64, 0x30,
];

fn small_field() -> Fp2MulSyscall {
    Fp2MulSyscall::new(vec![7], 2, FieldType::Bn254)
}

#[test]
fn keccak_permutes_the_zero_state() {
    let mut rt = SyscallContext::new(1, 3, 100, 9);
    let p = Keccak256PermuteSyscall;
    assert_eq!(p.execute(&mut rt, 0x1000, 0), Ok(None));
    assert_eq!(rt.clk, 101);
    let words = rt.peek_slice(0x1000, 50);
    let lanes = lanes_from_words(&words);
    assert_eq!(lanes[0], 0xF1258F7940E1DDE7);
    assert_eq!(lanes[1], 0x84D5CCF933C0478A);
    assert_eq!(lanes[2], 0xD598261EA65AA9EE);
    assert_eq!(words[0], 0x40E1DDE7);
    assert_eq!(words[1], 0xF1258F79);
    let ev = rt.record.keccak_permute_events[0].clone();
    assert_eq!(ev.pre_state, vec![0u64; 25]);
    assert_eq!(ev.post_state, lanes);
    assert_eq!(ev.clk, 100);
    assert_eq!((ev.shard, ev.channel, ev.lookup_id), (1, 3, 9));
    assert_eq!(ev.local_mem_access.len(), 50);
    assert_eq!(ev.local_mem_access[49].addr, 0x1000 + 49 * 4);
    assert_eq!(ev.local_mem_access[0].initial_mem_access.timestamp, 0);
    assert_eq!(ev.local_mem_access[0].final_mem_access.timestamp, 101);
    assert_eq!(ev.state_write_records[0].value, words[0]);
    assert_eq!(rt.local_memory_access.len(), 0);
    // a second permutation starts from the first one's result
    assert_eq!(p.execute(&mut rt, 0x1000, 0), Ok(None));
    let ev2 = &rt.record.keccak_permute_events[1];
    assert_eq!(ev2.pre_state, lanes);
    assert_ne!(ev2.post_state[0], 0xF1258F7940E1DDE7);
    assert_eq!(ev.state_read_records[0].timestamp, 100);
    assert_eq!(ev.state_write_records[0].timestamp, 101);
}

#[test]
fn keccak_permutes_a_counting_state() {
    let mut rt = SyscallContext::new(0, 0, 0, 0);
    let lanes: Vec<u64> = (0..25).collect();
    rt.write_slice(0x200, &words_from_lanes(&lanes)).unwrap();
    assert_eq!(Keccak256PermuteSyscall.execute(&mut rt, 0x200, 0), Ok(None));
    let out = lanes_from_words(&rt.peek_slice(0x200, 50));
    assert_eq!(out[0], 0x8374B05252ED8115);
    assert_eq!(out[1], 0x1DF7A676B6569400);
    assert_eq!(rt.record.keccak_permute_events[0].pre_state, lanes);
    // the earlier write's pending accesses went to the record
    assert_eq!(rt.record.local_memory_access.len(), 50);
}

#[test]
fn keccak_rejects_a_second_argument_and_misalignment() {
    let mut rt = SyscallContext::new(0, 0, 0, 0);
    let p = Keccak256PermuteSyscall;
    assert_eq!(
        p.execute(&mut rt, 0x1000, 4),
        Err(ExecutionError::InvalidArgument { arg: 4 })
    );
    assert_eq!(
        p.execute(&mut rt, 0x1002, 0),
        Err(ExecutionError::AlignmentFault { addr: 0x1002 })
    );
    assert_eq!(
        p.execute(&mut rt, 0xFFFF_FFC0, 0),
        Err(ExecutionError::AddressOverflow { addr: 0xFFFF_FFC0 })
    );
    assert_eq!(rt.clk, 0);
    assert!(rt.record.keccak_permute_events.is_empty());
    assert_eq!(p.num_extra_cycles(), 1);
}

#[test]
fn lane_words_round_trip() {
    let lanes = vec![0x0123_4567_89AB_CDEFu64, u64::MAX, 0];
    let words = words_from_lanes(&lanes);
    assert_eq!(words, vec![0x89AB_CDEF, 0x0123_4567, u32::MAX, u32::MAX, 0, 0]);
    assert_eq!(lanes_from_words(&words), lanes);
}

#[test]
fn fp2_mul_small_field() {
    let m = vec![7u32];
    // (3 + i)(2 + 5i) = 6 - 5 + (15 + 2)i = 1 + 3i mod 7
    assert_eq!(fp2_mul_words(&vec![3, 1], &vec![2, 5], &m, 2), vec![1, 3]);
    // (1 + 2i)(1 + 3i) = 1 - 6 + 5i = 2 + 5i mod 7
    assert_eq!(fp2_mul_words(&vec![1, 2], &vec![1, 3], &m, 2), vec![2, 5]);
    // (3 + 5i)(2 + 4i) = 6 - 20 + (12 + 10)i = 0 + 1i mod 7: a zero real
    // part keeps its half
    assert_eq!(fp2_mul_words(&vec![3, 5], &vec![2, 4], &m, 2), vec![0, 1]);
    // 1 + 0i is the identity: 1 * i = i
    assert_eq!(fp2_mul_words(&vec![1, 0], &vec![0, 1], &m, 2), vec![0, 1]);
    // zero absorbs
    assert_eq!(fp2_mul_words(&vec![0, 0], &vec![2, 5], &m, 2), vec![0, 0]);
    // each part padded with zeros to its half
    assert_eq!(
        fp2_mul_words(&vec![3, 0, 1, 0], &vec![2, 0, 5, 0], &m, 4),
        vec![1, 0, 3, 0]
    );
}

#[test]
fn fp2_mul_bn254() {
    let m = sp1_trace_modulus_words();
    let x = vec![
        0x90abcdef, 0x12345678, 0x90abcdef, 0x12345678, 0x90abcdef, 0x12345678, 0x90abcdef,
        0x12345678, 0x98765432, 0x10fedcba, 0x98765432, 0x10fedcba, 0x98765432, 0x10fedcba,
        0x98765432, 0xfedcba,
    ];
    let y = vec![
        0x99999999, 0x88888888, 0x77777777, 0x66666666, 0x55555555, 0x44444444, 0x33333333,
        0x22222222, 0xabcdef12, 0xefabcdef, 0xcdefabcd, 0xabcdefab, 0xefabcdef, 0xcdefabcd,
        0xabcdefab, 0xabcdef,
    ];
    let expected = vec![
        0x2f1938d6, 0xac4ac11c, 0x41b043e8, 0x83ba0506, 0xfced3719, 0xdf1c3f9a, 0x8ccda2db,
        0xac1fd50, 0x44cb019c, 0x73aef0e4, 0x2dcd492, 0xecb5542e, 0xc831b919, 0xb978880d,
        0x9e3c19a1, 0x1fdbc5aa,
    ];
    assert_eq!(fp2_mul_words(&x, &y, &m, 16), expected);

    let mut rt = SyscallContext::new(2, 1, 50, 4);
    rt.write_slice(0x100, &x).unwrap();
    rt.write_slice(0x200, &y).unwrap();
    let p = Fp2MulSyscall::new(BN254_MODULUS.to_vec(), 16, FieldType::Bn254);
    assert_eq!(p.execute(&mut rt, 0x100, 0x200), Ok(None));
    assert_eq!(rt.peek_slice(0x100, 16), expected);
    assert_eq!(rt.peek_slice(0x200, 16), y);
    assert_eq!(rt.clk, 51);
    assert!(rt.record.bls12381_fp2_mul_events.is_empty());
    let ev = &rt.record.bn254_fp2_mul_events[0];
    assert_eq!(ev.x, x);
    assert_eq!(ev.y, y);
    assert_eq!((ev.x_ptr, ev.y_ptr, ev.clk), (0x100, 0x200, 50));
    assert_eq!(ev.local_mem_access.len(), 32);
    assert_eq!(ev.local_mem_access[0].addr, 0x200);
    assert_eq!(ev.local_mem_access[16].addr, 0x100);
    assert_eq!(ev.x_memory_records[0].timestamp, 51);
    assert_eq!(ev.y_memory_records[0].timestamp, 50);
    assert_eq!(ev.local_mem_access[16].final_mem_access.value, expected[0]);
    assert_eq!(ev.local_mem_access[16].initial_mem_access.value, x[0]);
    assert_eq!(rt.local_memory_access.len(), 0);
}

fn sp1_trace_modulus_words() -> Vec<u32> {
    BN254_MODULUS
        .chunks(4)
        .map(|c| u32::from_le_bytes([c[0], c[1], c[2], c[3]]))
        .collect()
}

#[test]
fn fp2_mul_routes_by_field() {
    let mut rt = SyscallContext::new(0, 0, 0, 0);
    rt.write_slice(0x10, &vec![3, 1]).unwrap();
    rt.write_slice(0x20, &vec![2, 5]).unwrap();
    let p = Fp2MulSyscall::new(vec![7], 2, FieldType::Bls12381);
    assert_eq!(p.execute(&mut rt, 0x10, 0x20), Ok(None));
    assert_eq!(rt.peek_slice(0x10, 2), vec![1, 3]);
    assert_eq!(rt.record.bls12381_fp2_mul_events.len(), 1);
    assert!(rt.record.bn254_fp2_mul_events.is_empty());
}

#[test]
fn fp2_mul_faults() {
    let mut rt = SyscallContext::new(0, 0, 0, 0);
    let p = small_field();
    assert_eq!(
        p.execute(&mut rt, 0x11, 0x20),
        Err(ExecutionError::AlignmentFault { addr: 0x11 })
    );
    assert_eq!(
        p.execute(&mut rt, 0x10, 0x22),
        Err(ExecutionError::AlignmentFault { addr: 0x22 })
    );
    assert_eq!(
        p.execute(&mut rt, 0xFFFF_FFFC, 0x20),
        Err(ExecutionError::AddressOverflow { addr: 0xFFFF_FFFC })
    );
    assert!(rt.record.bn254_fp2_mul_events.is_empty());
}

#[test]
fn same_input_gives_same_events() {
    let run = || {
        let mut rt = SyscallContext::new(3, 7, 20, 1);
        rt.write_slice(0x10, &vec![3, 1]).unwrap();
        rt.write_slice(0x20, &vec![2, 5]).unwrap();
        small_field().execute(&mut rt, 0x10, 0x20).unwrap();
        Keccak256PermuteSyscall.execute(&mut rt, 0x400, 0).unwrap();
        (
            rt.clk,
            rt.record.bn254_fp2_mul_events.clone(),
            rt.record.keccak_permute_events.clone(),
            rt.peek_slice(0x10, 2),
        )
    };
    assert_eq!(run(), run());
}

#[test]
fn dispatch_runs_the_registered_precompile() {
    let mut reg = SyscallRegistry::new();
    reg.register(0x0001_0109, Precompile::KeccakPermute(Keccak256PermuteSyscall));
    reg.register(0x0001_0122, Precompile::Fp2Mul(small_field()));
    let mut rt = SyscallContext::new(0, 0, 10, 0);
    rt.write_slice(0x10, &vec![1, 2]).unwrap();
    rt.write_slice(0x20, &vec![1, 3]).unwrap();
    assert_eq!(reg.dispatch(&mut rt, 0x0001_0122, 0x10, 0x20), Ok(None));
    assert_eq!(rt.clk, 11);
    assert_eq!(rt.peek_slice(0x10, 2), vec![2, 5]);
    assert_eq!(reg.dispatch(&mut rt, 0x0001_0109, 0x800, 0), Ok(None));
    assert_eq!(rt.clk, 12);
    assert_eq!(rt.record.keccak_permute_events.len(), 1);
    assert_eq!(
        reg.dispatch(&mut rt, 0x77, 0x800, 0),
        Err(ExecutionError::UnknownSyscall { id: 0x77 })
    );
    assert_eq!(reg.lookup(0x0001_0122), Some(1));
    assert_eq!(rt.clk, 12);
}
