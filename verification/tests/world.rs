use flate2::write::GzEncoder;
use flate2::Compression;
use liboverviewer::error::OverviewerError;
use liboverviewer::world::{descriptor_of, regionsets_of, unpack_descriptor, DirEntry, World};
use std::io::Write;

fn gz(bytes: &[u8]) -> Vec<u8> {
    let mut encoder = GzEncoder::new(Vec::new(), Compression::default());
    encoder.write_all(bytes).unwrap();
    encoder.finish().unwrap()
}

fn entry(path: &str, is_dir: bool, files: &[&str]) -> DirEntry {
    DirEntry {
        path: path.to_string(),
        is_dir,
        files: files.iter().map(|s| s.to_string()).collect(),
    }
}

fn world_189_entries() -> Vec<DirEntry> {
    vec![
        entry("tests/data/OTD/world_189/data", true, &["villages.dat"]),
        entry("tests/data/OTD/world_189/level.dat", false, &[]),
        entry("tests/data/OTD/world_189/players", true, &[]),
        entry(
            "tests/data/OTD/world_189/region",
            true,
            &["r.-1.-1.mca", "r.-1.0.mca", "r.0.-1.mca", "r.0.0.mca", "r.1.-1.mca", "r.1.0.mca"],
        ),
        entry("tests/data/OTD/world_189/session.lock", false, &[]),
    ]
}

#[test]
fn test_world_open() {
    let descriptor = b"\x0a\x00\x00\x0a\x00\x04Data\x00\x00";
    let world =
        World::new("tests/data/OTD/world_189/".to_string(), &gz(descriptor), &world_189_entries()).unwrap();
    assert_eq!(world.regionsets.len(), 1);
    assert_eq!(world.world_dir, "tests/data/OTD/world_189/");
    assert_eq!(world.level_dat, descriptor.to_vec());
    assert_eq!(world.regionsets[0].region_dir(), "tests/data/OTD/world_189/region");
    assert_eq!(world.regionsets[0].region_coords().len(), 6);
    assert_eq!(world.regionsets[0].open_count(), 0);
}

#[test]
#[should_panic(expected = "IOError")]
fn test_world_open_error() {
    let _world = World::new("/".to_string(), &[], &Vec::new()).unwrap();
}

#[test]
fn a_descriptor_that_is_not_gzip_is_an_error() {
    let cases: [&[u8]; 4] = [b"", b"level", b"\x1f\x8b", b"\x1f\x8b\x08\x00\x00\x00\x00\x00\x00\x03\xff\xff"];
    for case in cases.iter() {
        match World::new("w".to_string(), case, &world_189_entries()) {
            Ok(_) => panic!("{:?}", case),
            Err(e) => {
                assert!(e.description().starts_with("IOError: "), "{}", e.description());
                assert!(e.to_text().starts_with("OverviewerError: IOError: "));
            },
        }
    }
    let mut cut = gz(b"a descriptor that is cut short before its end");
    cut.truncate(cut.len() - 6);
    assert!(World::new("w".to_string(), &cut, &world_189_entries()).is_err());
    let mut flipped = gz(b"a descriptor with a wrong checksum");
    let at = flipped.len() - 8;
    flipped[at] ^= 0xff;
    assert!(World::new("w".to_string(), &flipped, &world_189_entries()).is_err());
}

#[test]
fn the_descriptor_is_unpacked() {
    let plain: Vec<u8> = (0..2000u32).map(|i| (i * 7 % 251) as u8).collect();
    let world = World::new("w".to_string(), &gz(&plain), &Vec::new()).unwrap();
    assert_eq!(world.level_dat, plain);
    assert_ne!(gz(&plain), plain);
    let empty = World::new("w".to_string(), &gz(b""), &Vec::new()).unwrap();
    assert_eq!(empty.level_dat, Vec::<u8>::new());
    assert_eq!(empty.regionsets.len(), 0);
}

#[test]
fn directories_with_containers_become_regionsets() {
    let entries = vec![
        entry("w/region", true, &["r.0.0.mca", "notes.txt"]),
        entry("w/DIM-1", true, &["region"]),
        entry("w/r.0.0.mca", false, &["r.0.0.mca"]),
        entry("w/empty", true, &[]),
        entry("w/backup", true, &["r.0.0.mca.bak", "foo.mca", "r.1.mca"]),
        entry("w/DIM1", true, &["readme", "r.-3.4.mca", "r.5.-6.mca"]),
    ];
    let world = World::new("w".to_string(), &gz(b"x"), &entries).unwrap();
    assert_eq!(world.regionsets.len(), 2);
    assert_eq!(world.regionsets[0].region_dir(), "w/region");
    assert_eq!(world.regionsets[0].region_coords(), &vec![(0, 0)]);
    assert_eq!(world.regionsets[1].region_dir(), "w/DIM1");
    assert_eq!(world.regionsets[1].region_coords(), &vec![(-3, 4), (5, -6)]);
}

#[test]
fn errors_carry_their_message() {
    let e = OverviewerError::from("Path \"/nowhere\" does not exist".to_string());
    assert_eq!(e.description(), "Path \"/nowhere\" does not exist");
    assert_eq!(e.to_text(), "OverviewerError: Path \"/nowhere\" does not exist");
    let e = OverviewerError::from("no level.dat");
    assert_eq!(e.description(), "no level.dat");
    let e = OverviewerError::from_io(std::io::Error::new(std::io::ErrorKind::Other, "broken"));
    assert_eq!(e.description(), "IOError: broken");
}

#[test]
fn a_world_is_put_together_from_what_unpacking_gave() {
    let world =
        World::assemble("w".to_string(), Ok(vec![1, 2, 3]), &world_189_entries()).unwrap();
    assert_eq!(world.level_dat, vec![1, 2, 3]);
    assert_eq!(world.world_dir, "w");
    assert_eq!(world.regionsets.len(), 1);
    let failed = std::io::Error::new(std::io::ErrorKind::InvalidData, "corrupt gzip stream");
    match World::assemble("w".to_string(), Err(failed), &world_189_entries()) {
        Ok(_) => panic!("a world without a descriptor"),
        Err(e) => assert_eq!(e.description(), "IOError: corrupt gzip stream"),
    }
}

#[test]
fn errors_of_reading_are_marked() {
    let e = OverviewerError::from_io_text("unexpected end of file");
    assert_eq!(e.description(), "IOError: unexpected end of file");
    assert_eq!(e.to_text(), "OverviewerError: IOError: unexpected end of file");
    assert_eq!(OverviewerError::from_io_text("").description(), "IOError: ");
}

#[test]
fn a_descriptor_is_unpacked_by_itself() {
    assert_eq!(unpack_descriptor(&gz(b"Data")).unwrap(), b"Data".to_vec());
    assert_eq!(unpack_descriptor(&gz(b"")).unwrap(), Vec::<u8>::new());
    match unpack_descriptor(b"Data") {
        Ok(_) => panic!("no gzip stream"),
        Err(e) => assert!(e.description().starts_with("IOError: ")),
    }
    assert_eq!(descriptor_of(Ok(vec![9, 8])).unwrap(), vec![9, 8]);
    let failed = std::io::Error::new(std::io::ErrorKind::InvalidInput, "invalid gzip header");
    assert_eq!(descriptor_of(Err(failed)).unwrap_err().description(), "IOError: invalid gzip header");
}

#[test]
fn a_world_is_put_together_from_its_parts() {
    let world = World::from_parts("w".to_string(), vec![4, 5, 6], &world_189_entries());
    assert_eq!(world.world_dir, "w");
    assert_eq!(world.level_dat, vec![4, 5, 6]);
    assert_eq!(world.regionsets.len(), 1);
    assert_eq!(world.regionsets[0].region_coords().len(), 6);
    let twice = vec![entry("w/region", true, &["r.1.2.mca", "r.01.2.mca", "r.+1.+2.mca"])];
    let regionsets = regionsets_of(&twice);
    assert_eq!(regionsets.len(), 1);
    assert_eq!(regionsets[0].region_coords(), &vec![(1, 2)]);
    assert_eq!(regionsets_of(&Vec::new()).len(), 0);
}
