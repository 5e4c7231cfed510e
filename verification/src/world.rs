//! Worlds.
//!
//! A world is a directory with a descriptor, the gzip-packed file `level.dat`, and a
//! directory for each dimension, in which the containers of that dimension lie. This
//! library reads no directory itself: a world is put together from what was found
//! in one.
use crate::cache::Slot;
use crate::container::{discovered, name_texts};
use crate::error::{io_prefix, OverviewerError};
use crate::gzip::{gunzip, unpack};
use crate::regionset::{Regionset, HANDLE_CAPACITY};
use vstd::prelude::*;

verus! {

/// What was found under one name in the directory of a world.
pub struct DirEntry {
    /// The path of the entry.
    pub path: String,
    /// Whether the entry is a directory.
    pub is_dir: bool,
    /// The names of the files in it, where it is a directory.
    pub files: Vec<String>,
}

/// A world: its directory, its descriptor and the regionsets of its dimensions.
pub struct World {
    /// The directory of the world.
    pub world_dir: String,
    /// The regionsets found in it, in the order of the entries of the directory.
    pub regionsets: Vec<Regionset>,
    /// The descriptor of the world, unpacked.
    pub level_dat: Vec<u8>,
}

/// Whether `entry` is the directory of a regionset: a directory with at least one
/// container in it.
pub open spec fn is_regionset_dir(entry: DirEntry) -> bool {
    entry.is_dir && discovered(name_texts(entry.files@)).len() > 0
}

/// Those of `entries` that are directories of regionsets, in their order.
pub open spec fn regionset_dirs(entries: Seq<DirEntry>) -> Seq<DirEntry>
    decreases entries.len(),
{
    if entries.len() == 0 {
        Seq::empty()
    } else if is_regionset_dir(entries.last()) {
        regionset_dirs(entries.drop_last()).push(entries.last())
    } else {
        regionset_dirs(entries.drop_last())
    }
}

/// Whether `regionset` is the regionset of the directory `entry` as it is when
/// nothing has been opened yet.
pub open spec fn is_regionset_of(regionset: Regionset, entry: DirEntry) -> bool {
    &&& regionset.wf()
    &&& regionset.dir() == entry.path@
    &&& regionset.regions() == discovered(name_texts(entry.files@))
    &&& regionset.open() == Seq::<Slot>::empty()
    &&& regionset.capacity() == HANDLE_CAPACITY
}

/// Whether `regionsets` are the regionsets of the directories `dirs`, one for one.
pub open spec fn are_regionsets_of(regionsets: Seq<Regionset>, dirs: Seq<DirEntry>) -> bool {
    &&& regionsets.len() == dirs.len()
    &&& forall|k: int|
        0 <= k < regionsets.len() ==> is_regionset_of(#[trigger] regionsets[k], dirs[k])
}

/// The regionsets among the entries of a directory: one for every entry that is a
/// directory with at least one container in it, in the order of the entries.
pub fn regionsets_of(entries: &Vec<DirEntry>) -> (regionsets: Vec<Regionset>)
    ensures
        are_regionsets_of(regionsets@, regionset_dirs(entries@)),
{
    let mut regionsets: Vec<Regionset> = Vec::new();
    let mut i: usize = 0;
    while i < entries.len()
        invariant
            i <= entries.len(),
            are_regionsets_of(regionsets@, regionset_dirs(entries@.take(i as int))),
        decreases entries.len() - i,
    {
        let entry = &entries[i];
        proof {
            assert(entries@.take(i + 1).drop_last() == entries@.take(i as int));
            assert(entries@.take(i + 1).last() == *entry);
        }
        if entry.is_dir {
            let regionset = Regionset::new(entry.path.clone(), &entry.files);
            if regionset.region_coords().len() > 0 {
                regionsets.push(regionset);
            }
        }
        i += 1;
    }
    proof {
        assert(entries@.take(entries.len() as int) == entries@);
    }
    regionsets
}

/// The bytes that unpacking gave, if it gave any.
pub open spec fn unpacked_bytes(unpacked: Result<Vec<u8>, std::io::Error>) -> Option<Seq<u8>> {
    match unpacked {
        Ok(bytes) => Some(bytes@),
        Err(_) => None,
    }
}

/// What unpacking a descriptor comes to. `unpacked` is what the unpacking gave: the
/// bytes, or the failure, which becomes an error of reading.
pub fn descriptor_of(unpacked: Result<Vec<u8>, std::io::Error>) -> (r: Result<
    Vec<u8>,
    OverviewerError,
>)
    ensures
        r is Ok <==> unpacked is Ok,
        r matches Ok(bytes) ==> Some(bytes@) == unpacked_bytes(unpacked),
        r matches Err(e) ==> io_prefix().is_prefix_of(e@),
{
    match unpacked {
        Ok(bytes) => Ok(bytes),
        Err(e) => Err(OverviewerError::from_io(e)),
    }
}

/// Unpacks the descriptor of a world from the bytes of its file. A file that is no
/// gzip stream, or a broken one, is an error.
pub fn unpack_descriptor(level_dat: &[u8]) -> (r: Result<Vec<u8>, OverviewerError>)
    ensures
        r is Ok <==> gunzip(level_dat@) is Some,
        r matches Ok(bytes) ==> Some(bytes@) == gunzip(level_dat@),
        r matches Err(e) ==> io_prefix().is_prefix_of(e@),
{
    descriptor_of(unpack(level_dat))
}

impl World {
    /// The world of the directory `world_dir` with the unpacked descriptor
    /// `level_dat`, from what the directory holds.
    ///
    /// Every entry that is a directory with at least one container in it becomes a
    /// regionset; the other entries are passed over.
    pub fn from_parts(world_dir: String, level_dat: Vec<u8>, entries: &Vec<DirEntry>) -> (world:
        World)
        ensures
            world.world_dir@ == world_dir@,
            world.level_dat@ == level_dat@,
            are_regionsets_of(world.regionsets@, regionset_dirs(entries@)),
    {
        World { world_dir, regionsets: regionsets_of(entries), level_dat }
    }

    /// The world of the directory `world_dir`, from what was found there: `unpacked`
    /// is what unpacking the descriptor came to, `entries` what the directory holds.
    ///
    /// A descriptor that could not be unpacked is an error. Otherwise the world is
    /// put together as [`World::from_parts`] does.
    pub fn assemble(
        world_dir: String,
        unpacked: Result<Vec<u8>, std::io::Error>,
        entries: &Vec<DirEntry>,
    ) -> (r: Result<World, OverviewerError>)
        ensures
            r is Ok <==> unpacked is Ok,
            r matches Ok(world) ==> {
                &&& world.world_dir@ == world_dir@
                &&& Some(world.level_dat@) == unpacked_bytes(unpacked)
                &&& are_regionsets_of(world.regionsets@, regionset_dirs(entries@))
            },
            r matches Err(e) ==> io_prefix().is_prefix_of(e@),
    {
        match descriptor_of(unpacked) {
            Ok(level_dat) => Ok(World::from_parts(world_dir, level_dat, entries)),
            Err(e) => Err(e),
        }
    }

    /// The world of the directory `world_dir`, from what was found there: `level_dat`
    /// holds the bytes of the descriptor as they lie on disk, `entries` what the
    /// directory holds.
    ///
    /// The descriptor is unpacked, and the world is put together as
    /// [`World::assemble`] does.
    pub fn new(world_dir: String, level_dat: &[u8], entries: &Vec<DirEntry>) -> (r: Result<
        World,
        OverviewerError,
    >)
        ensures
            r is Ok <==> gunzip(level_dat@) is Some,
            r matches Ok(world) ==> {
                &&& world.world_dir@ == world_dir@
                &&& Some(world.level_dat@) == gunzip(level_dat@)
                &&& are_regionsets_of(world.regionsets@, regionset_dirs(entries@))
            },
            r matches Err(e) ==> io_prefix().is_prefix_of(e@),
    {
        World::assemble(world_dir, unpack(level_dat), entries)
    }
}

} // verus!
