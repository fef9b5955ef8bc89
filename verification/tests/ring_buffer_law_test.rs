use hotspot_hub::ring_buffer::RingBuffer;

#[test]
fn keeps_newest_of_any_sequence() {
    for capacity in 0..5usize {
        let mut buffer = RingBuffer::new(capacity);
        let mut pushed = Vec::new();
        for item in 0..12u32 {
            buffer.push(item);
            pushed.push(item);
            let start = pushed.len().saturating_sub(capacity);
            assert_eq!(buffer.to_vec(), pushed[start..].to_vec());
            assert!(buffer.to_vec().len() <= capacity);
        }
    }
}

#[test]
fn clone_keeps_contents() {
    let mut buffer = RingBuffer::new(2);
    buffer.push("a".to_string());
    buffer.push("b".to_string());
    buffer.push("c".to_string());
    let copy = buffer.clone();
    assert_eq!(copy.to_vec(), vec!["b".to_string(), "c".to_string()]);
}
