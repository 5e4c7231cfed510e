//! Chunks.
//!
//! A chunk is a column of blocks, 16 by 16 wide. Of the document that describes it
//! this library reads the heightmap: for each of the 256 places of the column, how
//! high the ground stands there.
use vstd::prelude::*;

verus! {

/// How many blocks wide a chunk is on the x and z axes.
pub const CHUNK_WIDTH: usize = 16;

/// How many heights a heightmap holds: one for each place of a chunk.
pub const HEIGHTMAP_LEN: usize = 256;

/// A chunk, as read from its container.
#[derive(Debug)]
pub struct Chunk {
    heightmap: Option<Vec<u32>>,
}

impl View for Chunk {
    type V = Option<Seq<u32>>;

    /// The heights that the chunk's document holds, if it holds any.
    closed spec fn view(&self) -> Option<Seq<u32>> {
        match self.heightmap {
            Some(heights) => Some(heights@),
            None => None,
        }
    }
}

/// Where the height of place `(x, z)` stands in a heightmap.
pub open spec fn height_index(x: int, z: int) -> int {
    x + z * 16
}

/// What probing the time of an entry comes to: the time, where the container could
/// be opened and has an entry there.
pub open spec fn mtime_of<E>(probe: Result<Option<u32>, E>) -> Option<u32> {
    match probe {
        Ok(time) => time,
        Err(_) => None,
    }
}

/// The heights `heights` as a sequence.
pub open spec fn heights_view(heights: Option<Vec<u32>>) -> Option<Seq<u32>> {
    match heights {
        Some(h) => Some(h@),
        None => None,
    }
}

impl Chunk {
    /// A chunk whose document holds the heightmap `heightmap`, or none.
    pub fn new(heightmap: Option<Vec<u32>>) -> (chunk: Chunk)
        ensures
            chunk@ == heights_view(heightmap),
    {
        Chunk { heightmap }
    }

    /// The chunk that the entry read from a container gives. `entry` is what reading
    /// and decoding came to: the heightmap of the document, or the failure.
    ///
    /// A failure gives no chunk: an entry that cannot be read is not told apart from
    /// one that is not there.
    pub fn from_entry<E>(entry: Result<Option<Vec<u32>>, E>) -> (chunk: Option<Chunk>)
        ensures
            entry is Err ==> chunk is None,
            entry matches Ok(heights) ==> chunk matches Some(c) && c@ == heights_view(heights),
    {
        match entry {
            Ok(heightmap) => Some(Chunk { heightmap }),
            Err(_) => None,
        }
    }

    /// Whether the chunk has a heightmap of 256 heights.
    pub open spec fn has_heightmap(&self) -> bool {
        self@ matches Some(heights) && heights.len() == HEIGHTMAP_LEN
    }

    /// Whether the chunk has a heightmap of 256 heights.
    pub fn is_valid(&self) -> (r: bool)
        ensures
            r == self.has_heightmap(),
    {
        match &self.heightmap {
            Some(heights) => heights.len() == HEIGHTMAP_LEN,
            None => false,
        }
    }

    /// The heightmap of this chunk: 256 heights, that of place `(x, z)` at
    /// `x + z * 16`.
    pub fn get_heightmap(&self) -> (heights: Vec<u32>)
        requires
            self.has_heightmap(),
        ensures
            Some(heights@) == self@,
            heights@.len() == 256,
    {
        match &self.heightmap {
            Some(heights) => heights.clone(),
            None => Vec::new(),
        }
    }

    /// The heightmap of this chunk where it has one of 256 heights, and `None` where
    /// it has not.
    pub fn heightmap(&self) -> (heights: Option<Vec<u32>>)
        ensures
            heights is Some <==> self.has_heightmap(),
            heights matches Some(h) ==> Some(h@) == self@,
    {
        if self.is_valid() {
            Some(self.get_heightmap())
        } else {
            None
        }
    }

    /// The height at place `(x, z)` of the chunk.
    pub fn height_at(&self, x: u8, z: u8) -> (height: u32)
        requires
            self.has_heightmap(),
            x < CHUNK_WIDTH,
            z < CHUNK_WIDTH,
        ensures
            height == self@->0[height_index(x as int, z as int)],
    {
        match &self.heightmap {
            Some(heights) => heights[x as usize + (z as usize) * CHUNK_WIDTH],
            None => 0,
        }
    }
}

/// The time of an entry as probing it gave it. `probe` is what opening the container
/// and looking up the entry came to.
///
/// A container that could not be opened has no times to give.
pub fn chunk_mtime<E>(probe: Result<Option<u32>, E>) -> (time: Option<u32>)
    ensures
        time == mtime_of(probe),
{
    match probe {
        Ok(time) => time,
        Err(_) => None,
    }
}

} // verus!
