use spectrum_bars::frame::FrameAssembler;

#[test]
fn assembler_starts_empty() {
    let assembler: FrameAssembler<f32> = FrameAssembler::new(4);
    assert_eq!(assembler.pending(), 0);
    assert_eq!(assembler.fft_size(), 4);
}

#[test]
fn short_chunks_are_kept_until_a_frame_is_full() {
    let mut assembler: FrameAssembler<f32> = FrameAssembler::new(4);
    assert!(assembler.accept(&[1.0, 2.0, 3.0]).is_empty());
    assert_eq!(assembler.pending(), 3);
    let frames = assembler.accept(&[4.0]);
    assert_eq!(frames, vec![vec![1.0, 2.0, 3.0, 4.0]]);
    assert_eq!(assembler.pending(), 0);
}

#[test]
fn long_chunks_give_several_frames_in_order() {
    let mut assembler: FrameAssembler<i32> = FrameAssembler::new(4);
    assert!(assembler.accept(&[1, 2, 3]).is_empty());
    let frames = assembler.accept(&[4, 5, 6, 7, 8, 9]);
    assert_eq!(frames, vec![vec![1, 2, 3, 4], vec![5, 6, 7, 8]]);
    assert_eq!(assembler.pending(), 1);
    let frames = assembler.accept(&[10, 11, 12]);
    assert_eq!(frames, vec![vec![9, 10, 11, 12]]);
    assert_eq!(assembler.pending(), 0);
}

#[test]
fn empty_chunk_changes_nothing() {
    let mut assembler: FrameAssembler<i32> = FrameAssembler::new(3);
    assert!(assembler.accept(&[]).is_empty());
    assert_eq!(assembler.pending(), 0);
    assert!(assembler.accept(&[1, 2]).is_empty());
    assert!(assembler.accept(&[]).is_empty());
    assert_eq!(assembler.pending(), 2);
}

#[test]
fn no_sample_is_lost_or_doubled() {
    let mut assembler: FrameAssembler<u32> = FrameAssembler::new(5);
    let mut sent: Vec<u32> = Vec::new();
    let mut received: Vec<u32> = Vec::new();
    let mut next: u32 = 0;
    for len in [0usize, 1, 7, 3, 5, 12, 2, 4, 9, 1] {
        let chunk: Vec<u32> = (0..len as u32).map(|i| next + i).collect();
        next += len as u32;
        sent.extend_from_slice(&chunk);
        for frame in assembler.accept(&chunk) {
            assert_eq!(frame.len(), 5);
            received.extend_from_slice(&frame);
        }
        assert!(assembler.pending() < 5);
        assert_eq!(received.len() + assembler.pending(), sent.len());
    }
    assert_eq!(received[..], sent[..received.len()]);
}

#[test]
fn frames_can_be_taken_one_by_one() {
    let mut assembler: FrameAssembler<i32> = FrameAssembler::new(2);
    assembler.push_chunk(&[1, 2, 3, 4, 5]);
    assert_eq!(assembler.pending(), 5);
    assert_eq!(assembler.next_frame(), Some(vec![1, 2]));
    assert_eq!(assembler.next_frame(), Some(vec![3, 4]));
    assert_eq!(assembler.next_frame(), None);
    assert_eq!(assembler.pending(), 1);
    assembler.push_chunk(&[6]);
    assert_eq!(assembler.next_frame(), Some(vec![5, 6]));
    assert_eq!(assembler.next_frame(), None);
}

#[test]
fn frame_of_one_sample() {
    let mut assembler: FrameAssembler<i32> = FrameAssembler::new(1);
    assert_eq!(assembler.accept(&[7, 8]), vec![vec![7], vec![8]]);
    assert_eq!(assembler.pending(), 0);
}

#[test]
fn frame_is_held_back_until_the_margin_is_full() {
    let mut assembler: FrameAssembler<i32> = FrameAssembler::new(4);
    assembler.push_chunk(&[1, 2, 3, 4, 5, 6]);
    assert_eq!(assembler.next_frame_leaving(2), None);
    assert_eq!(assembler.pending(), 6);
    assembler.push_chunk(&[7]);
    assert_eq!(assembler.next_frame_leaving(2), Some(vec![1, 2, 3, 4]));
    assert_eq!(assembler.pending(), 3);
    assert_eq!(assembler.next_frame_leaving(usize::MAX), None);
    assert_eq!(assembler.next_frame_leaving(0), None);
}
