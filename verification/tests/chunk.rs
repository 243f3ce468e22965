use lovem::chunk::Chunk;

#[test]
fn new() {
    let ch = Chunk::new(3);
    assert_eq!(ch.pos, 0);
    assert_eq!(ch.data.capacity(), 3);
    assert_eq!(ch.data.len(), 3);
    for n in 0..ch.data.len() {
        assert_eq!(ch.data[n], 0)
    }
}
