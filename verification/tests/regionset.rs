use liboverviewer::chunk::{chunk_mtime, Chunk};
use liboverviewer::coords::Coord;
use liboverviewer::regionset::{Access, Regionset, HANDLE_CAPACITY};

fn names(list: &[&str]) -> Vec<String> {
    list.iter().map(|s| s.to_string()).collect()
}

fn world_189() -> Regionset {
    let files = names(&[
        "r.-1.-1.mca",
        "r.-1.0.mca",
        "r.0.-1.mca",
        "r.0.0.mca",
        "r.1.-1.mca",
        "r.1.0.mca",
    ]);
    Regionset::new("tests/data/OTD/world_189/region".to_string(), &files)
}

/// Does what `get_chunk` asks for, with `next` as the handle of a container that has
/// to be opened, and returns the handle to read from and the one to close.
fn reach(rset: &mut Regionset, x: i64, z: i64, next: u64) -> (Option<u64>, Option<u64>) {
    match rset.get_chunk(Coord::new(x, 0, z)) {
        Access::NotFound => (None, None),
        Access::Cached { handle, .. } => (Some(handle), None),
        Access::Open { region, .. } => (Some(next), rset.insert_handle(region, next)),
    }
}

#[test]
fn test_regionset() {
    let rset = world_189();
    assert_eq!(rset.region_coords().len(), 6);
    assert_eq!(rset.region_dir(), "tests/data/OTD/world_189/region");
    assert_eq!(rset.open_count(), 0);
}

#[test]
fn test_regionset_get_chunk() {
    {
        let mut rset = world_189();
        match rset.get_chunk(Coord::new(0, 0, 0)) {
            Access::Open { region, file, x, z } => {
                assert_eq!(region, (0, 0));
                assert_eq!(file, "r.0.0.mca");
                assert_eq!(x, 0);
                assert_eq!(z, 0);
            },
            other => panic!("{:?}", other),
        }
    }
    {
        let mut rset = world_189();
        match rset.get_chunk(Coord::new(4, 0, 8)) {
            Access::Open { region, file, x, z } => {
                assert_eq!(region, (0, 0));
                assert_eq!(file, "r.0.0.mca");
                assert_eq!(x, 4);
                assert_eq!(z, 8);
            },
            other => panic!("{:?}", other),
        }
    }
}

#[test]
fn test_regionset_get_chunk_mtime() {
    let rset = world_189();
    match rset.get_chunk_mtime(Coord::new(4, 0, 8)) {
        Access::Open { region, file, x, z } => {
            assert_eq!((region, file.as_str(), x, z), ((0, 0), "r.0.0.mca", 4, 8));
        },
        other => panic!("{:?}", other),
    }
    assert_eq!(chunk_mtime::<()>(Ok(Some(1454034069))), Some(1454034069));
    match rset.get_chunk_mtime(Coord::new(12, 0, 3)) {
        Access::Open { region, file, x, z } => {
            assert_eq!((region, file.as_str(), x, z), ((0, 0), "r.0.0.mca", 12, 3));
        },
        other => panic!("{:?}", other),
    }
    assert_eq!(chunk_mtime::<()>(Ok(Some(1454033798))), Some(1454033798));
    assert_eq!(rset.open_count(), 0);
}

#[test]
fn test_chunk_heightmap() {
    let mut rset = world_189();
    match rset.get_chunk(Coord::new(6, 0, -1)) {
        Access::Open { region, file, x, z } => {
            assert_eq!((region, file.as_str(), x, z), ((0, -1), "r.0.-1.mca", 6, 31));
        },
        other => panic!("{:?}", other),
    }
    let heights: Vec<u32> = (0..256).collect();
    let chunk = Chunk::from_entry::<()>(Ok(Some(heights.clone()))).unwrap();
    assert_eq!(chunk.get_heightmap(), heights);
}

#[test]
fn a_container_that_is_not_on_disk_is_not_opened() {
    let mut rset = world_189();
    // Chunk (64, 5) lies in region (2, 0), chunk (-33, -33) in region (-2, -2).
    assert!(matches!(rset.get_chunk(Coord::new(64, 0, 5)), Access::NotFound));
    assert!(matches!(rset.get_chunk(Coord::new(-33, 0, -33)), Access::NotFound));
    assert!(matches!(rset.get_chunk(Coord::new(0, 0, 32)), Access::NotFound));
    assert!(matches!(rset.get_chunk_mtime(Coord::new(64, 0, 5)), Access::NotFound));
    assert_eq!(rset.open_count(), 0);
    // Not even where the same container was asked for before and is open.
    let empty = names(&["level.dat", "r.0.0.mcr"]);
    let mut none = Regionset::new("region".to_string(), &empty);
    assert_eq!(none.insert_handle((0, 0), 7), None);
    assert!(matches!(none.get_chunk(Coord::new(0, 0, 0)), Access::NotFound));
    assert_eq!(none.open_handles(), vec![((0, 0), 7)]);
}

#[test]
fn the_height_of_a_chunk_does_not_choose_its_container() {
    let mut rset = world_189();
    for y in [i64::MIN, -1, 0, 15, i64::MAX] {
        match rset.get_chunk(Coord::new(-1, y, 31)) {
            Access::Open { region, file, x, z } => {
                assert_eq!((region, file.as_str(), x, z), ((-1, 0), "r.-1.0.mca", 31, 31));
            },
            other => panic!("{:?}", other),
        }
    }
}

#[test]
fn an_open_container_is_read_from_its_handle() {
    let mut rset = world_189();
    assert_eq!(reach(&mut rset, 4, 8, 100), (Some(100), None));
    assert_eq!(rset.open_count(), 1);
    match rset.get_chunk(Coord::new(31, 0, 0)) {
        Access::Cached { handle, x, z } => assert_eq!((handle, x, z), (100, 31, 0)),
        other => panic!("{:?}", other),
    }
    // Region (0, -1) is another container.
    assert_eq!(reach(&mut rset, 4, -8, 101), (Some(101), None));
    assert_eq!(rset.open_handles(), vec![((0, -1), 101), ((0, 0), 100)]);
    // Asking for the time of a chunk opens anew and leaves the handles alone.
    assert!(matches!(rset.get_chunk_mtime(Coord::new(4, 0, 8)), Access::Open { .. }));
    assert_eq!(rset.open_handles(), vec![((0, -1), 101), ((0, 0), 100)]);
    // A lookup is a use.
    assert_eq!(reach(&mut rset, 0, 0, 102), (Some(100), None));
    assert_eq!(rset.open_handles(), vec![((0, 0), 100), ((0, -1), 101)]);
}

#[test]
fn the_cache_never_holds_more_than_it_may() {
    let files: Vec<String> = (0..40).map(|i| format!("r.{}.{}.mca", i, -i)).collect();
    let mut rset = Regionset::new("region".to_string(), &files);
    assert_eq!(HANDLE_CAPACITY, 16);
    for i in 0..40i64 {
        let (handle, closed) = reach(&mut rset, i * 32, -i * 32, i as u64);
        assert_eq!(handle, Some(i as u64));
        // The least recently used container is the one that leaves.
        if i < 16 {
            assert_eq!(closed, None);
        } else {
            assert_eq!(closed, Some((i - 16) as u64));
        }
        assert!(rset.open_count() <= 16);
        assert_eq!(rset.open_count(), if i < 16 { i as usize + 1 } else { 16 });
    }
    let open = rset.open_handles();
    assert_eq!(open.len(), 16);
    for (k, slot) in open.iter().enumerate() {
        let i = 39 - k as i64;
        assert_eq!(*slot, ((i, -i), i as u64));
    }
}

#[test]
fn the_least_recently_used_container_is_closed() {
    let files = names(&["r.0.0.mca", "r.1.0.mca", "r.2.0.mca", "r.3.0.mca"]);
    let mut rset = Regionset::with_capacity("region".to_string(), &files, 3);
    assert_eq!(reach(&mut rset, 0, 0, 10), (Some(10), None));
    assert_eq!(reach(&mut rset, 32, 0, 11), (Some(11), None));
    assert_eq!(reach(&mut rset, 64, 0, 12), (Some(12), None));
    // Region (0, 0) is used again, so region (1, 0) is now the least recently used.
    assert_eq!(reach(&mut rset, 5, 5, 13), (Some(10), None));
    assert_eq!(reach(&mut rset, 96, 0, 14), (Some(14), Some(11)));
    assert_eq!(rset.open_handles(), vec![((3, 0), 14), ((0, 0), 10), ((2, 0), 12)]);
    assert_eq!(rset.open_count(), 3);
    // Region (1, 0) has to be opened again, and region (2, 0) leaves for it.
    assert_eq!(reach(&mut rset, 32, 0, 15), (Some(15), Some(12)));
    assert_eq!(rset.open_handles(), vec![((1, 0), 15), ((3, 0), 14), ((0, 0), 10)]);
}

#[test]
fn a_container_is_open_under_one_handle_only() {
    let files = names(&["r.0.0.mca", "r.1.0.mca"]);
    let mut rset = Regionset::with_capacity("region".to_string(), &files, 2);
    assert_eq!(rset.insert_handle((0, 0), 1), None);
    assert_eq!(rset.insert_handle((1, 0), 2), None);
    // A second handle for an open container takes the place of the first.
    assert_eq!(rset.insert_handle((0, 0), 3), Some(1));
    assert_eq!(rset.open_handles(), vec![((0, 0), 3), ((1, 0), 2)]);
    assert_eq!(rset.open_count(), 2);
}

#[test]
fn a_cache_of_one_holds_the_last_container() {
    let files = names(&["r.0.0.mca", "r.1.0.mca"]);
    let mut rset = Regionset::with_capacity("region".to_string(), &files, 1);
    assert_eq!(reach(&mut rset, 0, 0, 1), (Some(1), None));
    assert_eq!(reach(&mut rset, 32, 0, 2), (Some(2), Some(1)));
    assert_eq!(reach(&mut rset, 33, 1, 3), (Some(2), None));
    assert_eq!(reach(&mut rset, 0, 0, 4), (Some(4), Some(2)));
    assert_eq!(rset.open_handles(), vec![((0, 0), 4)]);
}

#[test]
fn regions_are_looked_up() {
    let rset = world_189();
    assert!(rset.has_region(0, 0));
    assert!(rset.has_region(-1, -1));
    assert!(rset.has_region(1, 0));
    assert!(!rset.has_region(2, 0));
    assert!(!rset.has_region(0, 1));
    assert_eq!(
        rset.region_coords(),
        &vec![(-1, -1), (-1, 0), (0, -1), (0, 0), (1, -1), (1, 0)]
    );
}

#[test]
fn only_containers_on_disk_are_ever_opened() {
    let files = names(&["r.0.0.mca", "r.2.-1.mca", "thumbs.db"]);
    let mut rset = Regionset::new("region".to_string(), &files);
    let mut opened: Vec<(i64, i64)> = Vec::new();
    let mut next = 0;
    for x in -70..100i64 {
        for z in -70..70i64 {
            match rset.get_chunk(Coord::new(x, 7, z)) {
                Access::NotFound => assert!(!rset.has_region(x >> 5, z >> 5)),
                Access::Cached { x: ex, z: ez, .. } => {
                    assert!(rset.has_region(x >> 5, z >> 5));
                    assert_eq!((ex as i64, ez as i64), (x & 31, z & 31));
                },
                Access::Open { region, file, x: ex, z: ez } => {
                    assert_eq!(region, (x >> 5, z >> 5));
                    assert_eq!(file, format!("r.{}.{}.mca", region.0, region.1));
                    assert_eq!((ex as i64, ez as i64), (x & 31, z & 31));
                    opened.push(region);
                    assert_eq!(rset.insert_handle(region, next), None);
                    next += 1;
                },
            }
        }
    }
    // Two containers are on disk and both fit in the cache: each was opened once.
    assert_eq!(opened, vec![(0, 0), (2, -1)]);
    assert_eq!(rset.open_count(), 2);
}

#[test]
fn the_containers_of_a_regionset_are_a_set() {
    let files = names(&["r.3.5.mca", "r.03.5.mca", "r.+3.5.mca"]);
    let rset = Regionset::new("region".to_string(), &files);
    assert_eq!(rset.region_coords(), &vec![(3, 5)]);
    assert_eq!(rset.region_coords().len(), 1);
    assert!(rset.has_region(3, 5));
    let files = names(&["r.1.0.mca", "r.0.0.mca", "r.01.0.mca", "r.0.00.mca", "r.2.0.mca"]);
    let rset = Regionset::new("region".to_string(), &files);
    assert_eq!(rset.region_coords(), &vec![(1, 0), (0, 0), (2, 0)]);
}
