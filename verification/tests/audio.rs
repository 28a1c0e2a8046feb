use tuner_core::audio::push_newest;

const RING_BUFFER_SIZE: usize = 65_536;

#[test]
fn test_ring_buffer_keeps_newest_samples() {
    let mut ring = vec![0.0_f32; RING_BUFFER_SIZE];
    let data: Vec<f32> = (0..1000).map(|i| i as f32).collect();
    push_newest(&mut ring, &data);
    assert_eq!(ring.len(), RING_BUFFER_SIZE);
    assert_eq!(ring[RING_BUFFER_SIZE - 1], 999.0);
    assert_eq!(ring[RING_BUFFER_SIZE - 1000], 0.0);
}

#[test]
fn ring_buffer_handles_oversized_and_empty_buffers() {
    let mut ring = vec![0u32; 8];
    push_newest(&mut ring, &[]);
    assert_eq!(ring, vec![0; 8]);
    let data: Vec<u32> = (1..=20).collect();
    push_newest(&mut ring, &data);
    assert_eq!(ring, (13..=20).collect::<Vec<u32>>());
    push_newest(&mut ring, &[100, 101, 102]);
    assert_eq!(ring, vec![16, 17, 18, 19, 20, 100, 101, 102]);
    push_newest(&mut ring, &[7; 8]);
    assert_eq!(ring, vec![7; 8]);
}

#[test]
fn empty_ring_buffer_stays_empty() {
    let mut ring: Vec<u8> = Vec::new();
    push_newest(&mut ring, &[1, 2, 3]);
    assert!(ring.is_empty());
}

#[test]
fn test_push_samples_handles_oversized_and_empty_buffers() {
    let mut ring = vec![0.0_f32; RING_BUFFER_SIZE];
    push_newest(&mut ring, &[]);
    assert!(ring.iter().all(|&s| s == 0.0));
    let data: Vec<f32> = (0..RING_BUFFER_SIZE * 2).map(|i| i as f32).collect();
    push_newest(&mut ring, &data);
    assert_eq!(ring.len(), RING_BUFFER_SIZE);
    assert_eq!(ring[0], RING_BUFFER_SIZE as f32);
    assert_eq!(ring[RING_BUFFER_SIZE - 1], (RING_BUFFER_SIZE * 2 - 1) as f32);
}
