use brahmaputra::codec::{ByteBuff, Endianness};
use brahmaputra::runtime::{DispatchCursor, FrameAssembler};

#[test]
fn round_robin_routes_pool_plus_two_frames() {
    // pool of size 4, cursor starting at 0, six frames: the cursor is
    // advanced before each write, wrapping at pool_size - 1
    let mut cursor = DispatchCursor::new(4);
    let mut slots = Vec::new();
    for _ in 0..6 {
        slots.push(cursor.next_slot());
    }
    assert_eq!(slots, vec![1, 2, 3, 0, 1, 2]);
}

#[test]
fn round_robin_with_pool_of_one_stays_on_slot_zero() {
    let mut cursor = DispatchCursor::new(1);
    for _ in 0..5 {
        assert_eq!(cursor.next_slot(), 0);
    }
}

fn frame_for(payload: &[u8]) -> Vec<u8> {
    let mut bb = ByteBuff::new(Endianness::Big, 10000);
    bb.put(payload.to_vec());
    bb.to_array()
}

#[test]
fn fragmented_delivery_reassembles_to_declared_length() {
    // a frame delivered across several fragmented reads is handed out as
    // exactly the body the 8-byte prefix declares
    let wire = frame_for(&[10, 20, 30, 40, 50]);
    for split in [1, 3, 7, 8, 9, 12] {
        let mut assembler = FrameAssembler::new();
        assembler.feed(&wire[..split].to_vec());
        if split < wire.len() {
            assert_eq!(assembler.try_take_frame(), None);
            assembler.feed(&wire[split..].to_vec());
        }
        assert_eq!(assembler.try_take_frame(), Some(vec![10, 20, 30, 40, 50]));
        assert_eq!(assembler.try_take_frame(), None);
    }
}

#[test]
fn one_read_can_carry_two_frames() {
    let mut wire = frame_for(&[1]);
    wire.extend_from_slice(&frame_for(&[2, 3]));
    let mut assembler = FrameAssembler::new();
    assembler.feed(&wire);
    assert_eq!(assembler.try_take_frame(), Some(vec![1]));
    assert_eq!(assembler.try_take_frame(), Some(vec![2, 3]));
    assert_eq!(assembler.try_take_frame(), None);
}

#[test]
fn byte_by_byte_delivery_still_reassembles() {
    let wire = frame_for(b"payload");
    let mut assembler = FrameAssembler::new();
    for b in &wire[..wire.len() - 1] {
        assembler.feed(&vec![*b]);
        assert_eq!(assembler.try_take_frame(), None);
    }
    assembler.feed(&vec![wire[wire.len() - 1]]);
    assert_eq!(assembler.try_take_frame(), Some(b"payload".to_vec()));
}

#[test]
fn backpressure_suspends_sender_until_a_frame_is_drained() {
    // a bounded queue of capacity 1: a second send suspends the caller and
    // only completes once the dispatcher side drains a frame
    let rt = tokio::runtime::Builder::new_multi_thread()
        .worker_threads(2)
        .enable_all()
        .build()
        .unwrap();
    rt.block_on(async {
        let (tx, mut rx) = tokio::sync::mpsc::channel::<Vec<u8>>(1);
        tx.send(vec![1]).await.unwrap();
        assert!(tx.try_send(vec![2]).is_err());
        let sender = tx.clone();
        let suspended = tokio::spawn(async move {
            sender.send(vec![3]).await.unwrap();
        });
        tokio::time::sleep(std::time::Duration::from_millis(100)).await;
        assert!(!suspended.is_finished());
        assert_eq!(rx.recv().await.unwrap(), vec![1]);
        suspended.await.unwrap();
        assert_eq!(rx.recv().await.unwrap(), vec![3]);
    });
}
