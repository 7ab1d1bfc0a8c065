use scalar_frontend::DispatchQueue;
use scalar_frontend::Instruction;
use scalar_frontend::InstructionBuffer;
use scalar_frontend::RawInstruction;

#[test]
fn instruction_buffer_never_exceeds_capacity() {
    let mut buf = InstructionBuffer::new(4);
    for n in 0..5u32 {
        buf.push(RawInstruction { data: n });
        assert!(buf.queue.len() <= 4);
    }
    // The push beyond capacity had no effect: only the first four stayed.
    let out = buf.pop_batch(10);
    assert_eq!(out.len(), 4);
    for (idx, raw) in out.iter().enumerate() {
        assert_eq!(raw.data, idx as u32);
    }
}

#[test]
fn pop_batch_is_bounded_and_ordered() {
    let mut buf = InstructionBuffer::new(8);
    for n in 0..6u32 {
        buf.push(RawInstruction { data: n });
    }
    let first = buf.pop_batch(4);
    assert_eq!(first.len(), 4);
    assert_eq!(first[0].data, 0);
    assert_eq!(first[3].data, 3);
    let rest = buf.pop_batch(4);
    assert_eq!(rest.len(), 2);
    assert_eq!(rest[0].data, 4);
    assert_eq!(rest[1].data, 5);
    assert!(buf.pop_batch(4).is_empty());
}

#[test]
fn dispatch_queue_never_exceeds_capacity() {
    let mut q = DispatchQueue::new(2);
    let i0 = Instruction::decode(RawInstruction { data: 0x002082B3 });
    let i1 = Instruction::decode(RawInstruction { data: 0x00328333 });
    let i2 = Instruction::decode(RawInstruction { data: 0x004303B3 });
    assert!(q.push(i0));
    assert!(q.push(i1));
    // The push past capacity is rejected and has no effect.
    assert!(!q.push(i2));
    assert_eq!(q.inner.len(), 2);
    assert_eq!(q.inner[0].rd, 5);
    assert_eq!(q.inner[1].rd, 6);
}
