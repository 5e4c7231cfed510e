//! Regionsets: the containers of one dimension.
//!
//! A regionset knows which containers lie in its directory and keeps a bounded cache
//! of the ones that are open. It opens nothing itself. Asked for a chunk, it says
//! what has to be done: nothing, where the container is not on disk; read from a
//! handle that is open; or open a file first. Whoever does the opening hands the new
//! handle over with [`Regionset::insert_handle`] and is told which handle to close
//! in its place.
use crate::cache::{
    admitted, cache_capacity, cache_entries, cache_get, cache_insert, cache_keeps, cache_len,
    cache_peek, cache_with_capacity, holds, index_of, keys_distinct, lemma_admitted, lemma_used,
    released_by, used, Slot, CAPACITY_LIMIT,
};
use crate::container::{
    container_file_name, container_name, contains_coord, discover, discovered, name_texts,
    names_container,
};
use crate::coords::{cells, offsets, shift, Chunk, Coord, Point, Region, World};
use lru_time_cache::LruCache;
use vstd::arithmetic::power2::lemma2_to64;
use vstd::prelude::*;

verus! {

/// How many containers a regionset keeps open at most.
pub const HANDLE_CAPACITY: usize = 16;

/// What has to be done to reach an entry of a container.
#[derive(Debug)]
pub enum Access {
    /// The container is not on disk: there is nothing to open and nothing to read.
    NotFound,
    /// The container is open under `handle`: read its entry at `(x, z)`.
    Cached { handle: u64, x: u8, z: u8 },
    /// The container at `region` is on disk and not open: open `file`, which lies in
    /// the regionset's directory, and read its entry at `(x, z)`.
    Open { region: (i64, i64), file: String, x: u8, z: u8 },
}

/// The containers of one dimension: which of them are on disk, and which are open.
pub struct Regionset {
    region_dir: String,
    regions: Vec<(i64, i64)>,
    cache: LruCache<(i64, i64), u64>,
    capacity: usize,
}

/// The container that holds the chunk at `xz`: the chunk's coordinate in the world,
/// split at the level of regions, without its height.
pub open spec fn region_of(xz: Point) -> (i64, i64) {
    let region = cells(xz, shift::<Chunk, Region>());
    (region.0 as i64, region.2 as i64)
}

/// Where in its container the entry of the chunk at `xz` stands.
pub open spec fn entry_of(xz: Point) -> (u8, u8) {
    let chunk = offsets(xz, shift::<Chunk, Region>());
    (chunk.0 as u8, chunk.2 as u8)
}

impl Regionset {
    /// The directory of this regionset.
    pub closed spec fn dir(&self) -> Seq<char> {
        self.region_dir@
    }

    /// The containers that are on disk, each of them once.
    pub closed spec fn regions(&self) -> Seq<(i64, i64)> {
        self.regions@
    }

    /// The containers that are open, each with its handle, from the least recently
    /// used to the most recently used.
    pub closed spec fn open(&self) -> Seq<Slot> {
        cache_entries(self.cache)
    }

    /// How many containers may be open at a time.
    pub closed spec fn capacity(&self) -> nat {
        self.capacity as nat
    }

    /// What holds of every regionset: no container is counted twice, at least one
    /// container may be open, no more are open than may be, and none is open twice.
    pub closed spec fn wf(&self) -> bool {
        &&& self.regions@.no_duplicates()
        &&& cache_keeps(self.cache)
        &&& cache_capacity(self.cache) == self.capacity
        &&& self.capacity >= 1
        &&& self.open().len() <= self.capacity()
        &&& keys_distinct(self.open())
    }

    /// No regionset has more containers open than it may, and none has a container
    /// open under two handles.
    pub proof fn lemma_cache_bound(&self)
        requires
            self.wf(),
        ensures
            self.capacity() >= 1,
            self.open().len() <= self.capacity(),
            keys_distinct(self.open()),
    {
    }

    /// The containers of a regionset are a set: none is counted twice.
    pub proof fn lemma_regions_are_set(&self)
        requires
            self.wf(),
        ensures
            self.regions().no_duplicates(),
    {
    }

    /// The regionset of the directory `region_dir`, in which the files `names` lie.
    /// Its containers are those that the names name, each once. Nothing is open yet,
    /// and up to 16 containers may be.
    pub fn new(region_dir: String, names: &Vec<String>) -> (r: Regionset)
        ensures
            r.wf(),
            r.dir() == region_dir@,
            r.regions() == discovered(name_texts(names@)),
            r.regions().no_duplicates(),
            forall|c: (i64, i64)|
                #[trigger] r.regions().contains(c) <==> names_container(name_texts(names@), c),
            r.open() == Seq::<Slot>::empty(),
            r.capacity() == HANDLE_CAPACITY,
    {
        Regionset::with_capacity(region_dir, names, HANDLE_CAPACITY)
    }

    /// The regionset of the directory `region_dir`, in which the files `names` lie,
    /// with room for `capacity` open containers. Its containers are those that the
    /// names name, each once. Nothing is open yet.
    ///
    /// Room for the handles is set aside at once: `capacity` is at least 1 and at
    /// most `CAPACITY_LIMIT`.
    pub fn with_capacity(region_dir: String, names: &Vec<String>, capacity: usize) -> (r: Regionset)
        requires
            1 <= capacity <= CAPACITY_LIMIT,
        ensures
            r.wf(),
            r.dir() == region_dir@,
            r.regions() == discovered(name_texts(names@)),
            r.regions().no_duplicates(),
            forall|c: (i64, i64)|
                #[trigger] r.regions().contains(c) <==> names_container(name_texts(names@), c),
            r.open() == Seq::<Slot>::empty(),
            r.capacity() == capacity,
    {
        Regionset {
            region_dir,
            regions: discover(names),
            cache: cache_with_capacity(capacity),
            capacity,
        }
    }

    /// The directory of this regionset.
    pub fn region_dir(&self) -> (r: &str)
        ensures
            r@ == self.dir(),
    {
        self.region_dir.as_str()
    }

    /// The containers that are on disk.
    pub fn region_coords(&self) -> (r: &Vec<(i64, i64)>)
        ensures
            r@ == self.regions(),
    {
        &self.regions
    }

    /// Whether the container at `(x, z)` is on disk.
    pub fn has_region(&self, x: i64, z: i64) -> (r: bool)
        ensures
            r == self.regions().contains((x, z)),
    {
        contains_coord(&self.regions, x, z)
    }

    /// How many containers are open.
    pub fn open_count(&self) -> (n: usize)
        requires
            self.wf(),
        ensures
            n == self.open().len(),
            n <= self.capacity(),
    {
        cache_len(&self.cache)
    }

    /// The containers that are open, each with its handle, the most recently used
    /// first.
    pub fn open_handles(&self) -> (r: Vec<Slot>)
        requires
            self.wf(),
        ensures
            r@ == self.open().reverse(),
    {
        cache_peek(&self.cache)
    }

    /// What has to be done to read the chunk at `xz`.
    ///
    /// The container of the chunk is found by splitting `xz` at the level of
    /// regions. Where that container is not on disk the answer is `NotFound`, and
    /// nothing is to be opened. Where it is open, the answer names its handle, and
    /// the container becomes the most recently used. Otherwise the answer names the
    /// file to open.
    pub fn get_chunk(&mut self, xz: Coord<Chunk, World>) -> (r: Access)
        requires
            old(self).wf(),
        ensures
            final(self).wf(),
            final(self).dir() == old(self).dir(),
            final(self).regions() == old(self).regions(),
            final(self).capacity() == old(self).capacity(),
            match r {
                Access::NotFound => {
                    &&& !old(self).regions().contains(region_of(xz@))
                    &&& final(self).open() == old(self).open()
                },
                Access::Cached { handle, x, z } => {
                    &&& old(self).regions().contains(region_of(xz@))
                    &&& holds(old(self).open(), region_of(xz@))
                    &&& handle == old(self).open()[index_of(old(self).open(), region_of(xz@))].1
                    &&& (x, z) == entry_of(xz@)
                    &&& final(self).open() == used(old(self).open(), region_of(xz@))
                },
                Access::Open { region, file, x, z } => {
                    &&& old(self).regions().contains(region_of(xz@))
                    &&& !holds(old(self).open(), region_of(xz@))
                    &&& region == region_of(xz@)
                    &&& file@ == container_name(region.0, region.1)
                    &&& (x, z) == entry_of(xz@)
                    &&& final(self).open() == old(self).open()
                },
            },
    {
        let (c, r) = xz.split::<Region>();
        if !contains_coord(&self.regions, r.x, r.z) {
            return Access::NotFound;
        }
        proof {
            lemma2_to64();
            lemma_used(self.open(), (r.x, r.z));
        }
        let x = c.x as u8;
        let z = c.z as u8;
        match cache_get(&mut self.cache, (r.x, r.z)) {
            Some(handle) => Access::Cached { handle, x, z },
            None => Access::Open { region: (r.x, r.z), file: container_file_name(r.x, r.z), x, z },
        }
    }

    /// What has to be done to read the time at which the chunk at `xz` was last
    /// written.
    ///
    /// The container is found as in [`Regionset::get_chunk`]. The handles that are
    /// open are neither used nor changed: the answer is never `Cached`, and the
    /// container is to be opened for this one look.
    pub fn get_chunk_mtime(&self, xz: Coord<Chunk, World>) -> (r: Access)
        ensures
            match r {
                Access::NotFound => !self.regions().contains(region_of(xz@)),
                Access::Cached { .. } => false,
                Access::Open { region, file, x, z } => {
                    &&& self.regions().contains(region_of(xz@))
                    &&& region == region_of(xz@)
                    &&& file@ == container_name(region.0, region.1)
                    &&& (x, z) == entry_of(xz@)
                },
            },
    {
        let (c, r) = xz.split::<Region>();
        if !contains_coord(&self.regions, r.x, r.z) {
            return Access::NotFound;
        }
        proof {
            lemma2_to64();
        }
        Access::Open {
            region: (r.x, r.z),
            file: container_file_name(r.x, r.z),
            x: c.x as u8,
            z: c.z as u8,
        }
    }

    /// Takes in the handle under which the container at `region` was opened, as the
    /// most recently used, and returns the handle that is to be closed for it, if
    /// there is one.
    ///
    /// Where `region` was open already, its earlier handle is returned. Where it was
    /// not and as many containers were open as may be, the handle of the least
    /// recently used container is returned, and that container is open no longer.
    pub fn insert_handle(&mut self, region: (i64, i64), handle: u64) -> (released: Option<u64>)
        requires
            old(self).wf(),
        ensures
            final(self).wf(),
            final(self).dir() == old(self).dir(),
            final(self).regions() == old(self).regions(),
            final(self).capacity() == old(self).capacity(),
            final(self).open() == admitted(old(self).open(), old(self).capacity(), region, handle),
            final(self).open().len() <= final(self).capacity(),
            released == released_by(old(self).open(), old(self).capacity(), region),
    {
        proof {
            lemma_admitted(self.open(), self.capacity(), region, handle);
        }
        let before = cache_peek(&self.cache);
        let full = before.len() >= self.capacity;
        let replaced = cache_insert(&mut self.cache, region, handle);
        match replaced {
            Some(earlier) => Some(earlier),
            None => {
                if full {
                    proof {
                        assert(before@[before@.len() - 1] == old(self).open()[0]);
                    }
                    Some(before[before.len() - 1].1)
                } else {
                    None
                }
            },
        }
    }
}

} // verus!
