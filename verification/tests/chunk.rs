use liboverviewer::chunk::{chunk_mtime, Chunk, CHUNK_WIDTH, HEIGHTMAP_LEN};

fn ramp() -> Vec<u32> {
    (0..256u32).map(|i| 1000 + i).collect()
}

#[test]
fn a_heightmap_has_256_heights() {
    assert_eq!(HEIGHTMAP_LEN, 256);
    assert_eq!(CHUNK_WIDTH, 16);
    let chunk = Chunk::new(Some(ramp()));
    assert!(chunk.is_valid());
    let heights = chunk.get_heightmap();
    assert_eq!(heights.len(), 256);
    assert_eq!(heights, ramp());
    assert_eq!(chunk.heightmap(), Some(ramp()));
}

#[test]
fn heights_stand_at_x_plus_16_z() {
    let chunk = Chunk::new(Some(ramp()));
    let heights = chunk.get_heightmap();
    for x in 0..16u8 {
        for z in 0..16u8 {
            assert_eq!(chunk.height_at(x, z), heights[x as usize + z as usize * 16]);
        }
    }
    assert_eq!(chunk.height_at(0, 0), 1000);
    assert_eq!(chunk.height_at(3, 12), 1000 + 3 + 12 * 16);
    assert_eq!(chunk.height_at(15, 0), 1015);
    assert_eq!(chunk.height_at(0, 1), 1016);
    assert_eq!(chunk.height_at(15, 15), 1255);
}

#[test]
fn a_chunk_without_256_heights_has_no_heightmap() {
    assert!(!Chunk::new(None).is_valid());
    assert_eq!(Chunk::new(None).heightmap(), None);
    assert!(!Chunk::new(Some(Vec::new())).is_valid());
    assert!(!Chunk::new(Some(vec![0; 255])).is_valid());
    assert_eq!(Chunk::new(Some(vec![0; 257])).heightmap(), None);
    assert!(Chunk::new(Some(vec![0; 256])).is_valid());
}

#[test]
fn an_entry_that_cannot_be_read_is_no_chunk() {
    assert!(Chunk::from_entry::<&str>(Err("corrupt")).is_none());
    let chunk = Chunk::from_entry::<&str>(Ok(Some(ramp()))).unwrap();
    assert_eq!(chunk.heightmap(), Some(ramp()));
    // A chunk that was read stays a chunk where its document holds no heights.
    let bare = Chunk::from_entry::<&str>(Ok(None)).unwrap();
    assert!(!bare.is_valid());
}

#[test]
fn a_probe_that_failed_gives_no_time() {
    assert_eq!(chunk_mtime::<&str>(Ok(Some(1454034069))), Some(1454034069));
    assert_eq!(chunk_mtime::<&str>(Ok(Some(0))), Some(0));
    assert_eq!(chunk_mtime::<&str>(Ok(None)), None);
    assert_eq!(chunk_mtime::<&str>(Err("no such file")), None);
}
