use sp1_trace::events::{AccessKind, ExecutionError};
use sp1_trace::memory::SyscallContext;

#[test]
fn write_then_read_gives_the_words_back() {
    let mut rt = SyscallContext::new(1, 2, 10, 0);
    let vals = vec![7u32, 0, 0xFFFF_FFFF, 42];
    let w = rt.write_slice(0x100, &vals).unwrap();
    assert_eq!(w.len(), 4);
    assert_eq!(w[2].addr, 0x108);
    assert_eq!(w[2].prev_value, 0);
    assert_eq!(w[2].value, 0xFFFF_FFFF);
    assert_eq!(w[2].kind, AccessKind::Write);
    assert_eq!(w[2].timestamp, 10);
    assert_eq!(w[2].shard, 1);
    assert_eq!(w[2].channel, 2);
    let (values, records) = rt.read_slice(0x100, 4).unwrap();
    assert_eq!(values, vals);
    assert_eq!(records[3].addr, 0x10C);
    assert_eq!(records[3].value, 42);
    assert_eq!(records[3].kind, AccessKind::Read);
}

#[test]
fn untouched_words_read_as_zero() {
    let mut rt = SyscallContext::new(0, 0, 0, 0);
    let (values, _) = rt.read_slice(0x2000, 3).unwrap();
    assert_eq!(values, vec![0, 0, 0]);
    assert_eq!(rt.peek_slice(0x2000, 2), vec![0, 0]);
}

#[test]
fn misaligned_slices_fault() {
    let mut rt = SyscallContext::new(0, 0, 0, 0);
    assert_eq!(
        rt.read_slice(0x102, 1),
        Err(ExecutionError::AlignmentFault { addr: 0x102 })
    );
    assert_eq!(
        rt.write_slice(0x101, &vec![1]),
        Err(ExecutionError::AlignmentFault { addr: 0x101 })
    );
    assert_eq!(rt.word(0x100), 0);
}

#[test]
fn slices_past_the_address_space_fault() {
    let mut rt = SyscallContext::new(0, 0, 0, 0);
    assert_eq!(
        rt.read_slice(0xFFFF_FFFC, 2),
        Err(ExecutionError::AddressOverflow { addr: 0xFFFF_FFFC })
    );
    assert!(rt.read_slice(0xFFFF_FFFC, 1).is_ok());
}

#[test]
fn reconcile_takes_out_each_pending_access_once() {
    let mut rt = SyscallContext::new(0, 0, 5, 0);
    rt.write_slice(0x40, &vec![3, 4]).unwrap();
    rt.clk += 1;
    rt.read_slice(0x40, 2).unwrap();
    let local = rt.reconcile_and_drain(0x40, 2).unwrap();
    assert_eq!(local.len(), 2);
    assert_eq!(local[0].addr, 0x40);
    assert_eq!(local[0].initial_mem_access.value, 0);
    assert_eq!(local[0].initial_mem_access.timestamp, 0);
    assert_eq!(local[0].final_mem_access.value, 3);
    assert_eq!(local[0].final_mem_access.timestamp, 6);
    assert_eq!(local[1].final_mem_access.value, 4);
    assert_eq!(
        rt.reconcile_and_drain(0x40, 2),
        Err(ExecutionError::MissingAccessRecord { addr: 0x40 })
    );
}

#[test]
fn missing_pending_access_changes_nothing() {
    let mut rt = SyscallContext::new(0, 0, 0, 0);
    rt.write_slice(0x40, &vec![3]).unwrap();
    assert_eq!(
        rt.reconcile_and_drain(0x40, 2),
        Err(ExecutionError::MissingAccessRecord { addr: 0x44 })
    );
    assert_eq!(rt.reconcile_and_drain(0x40, 1).unwrap().len(), 1);
}

#[test]
fn flush_moves_pending_accesses_to_the_record() {
    let mut rt = SyscallContext::new(0, 0, 0, 0);
    rt.write_slice(0x40, &vec![3, 4]).unwrap();
    rt.flush_pending(0x40, 4);
    assert_eq!(rt.record.local_memory_access.len(), 2);
    assert_eq!(rt.record.local_memory_access[1].addr, 0x44);
    assert!(rt.reconcile_and_drain(0x40, 1).is_err());
}
