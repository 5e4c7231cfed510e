//! Coordinates in nested systems.
//!
//! A world is built from nested cells: a `World` holds `Region`s, a `Region` holds
//! `Chunk`s, a `Chunk` holds `Section`s and a `Section` holds `Block`s. A [`Coord`]
//! carries two level markers: `Coord<El, In>` is the position of one `El`-sized cell,
//! counted in `El`-sized cells, inside a cell of level `In`.
//!
//! Every level below `World` spans a power of two of the next smaller cells on each
//! axis, so changing the level a coordinate is measured against is a matter of
//! shifting bits. [`Coord::split`] cuts a coordinate in two at some level in between,
//! [`Coord::join`] puts two such parts together again. The level markers keep a
//! coordinate of one kind from being used as another: only levels that lie inside
//! one another, as [`Contained`] records, can be combined.
use core::marker::PhantomData;
use vstd::arithmetic::div_mod::{
    lemma_div_is_ordered, lemma_fundamental_div_mod, lemma_fundamental_div_mod_converse,
    lemma_mod_bound,
};
use vstd::arithmetic::mul::lemma_mul_is_commutative;
use vstd::arithmetic::power2::{
    lemma2_to64, lemma2_to64_rest, lemma_pow2_adds, lemma_pow2_pos, lemma_pow2_unfold, pow2,
};
use crate::decimal::{int_text, push_i64};
use vstd::prelude::*;
use vstd::string::StringExecFns;

verus! {

/// The widest a bounded level may be on any axis, in bits, counted from `Block`.
///
/// With at most this many bits, every shift and mask that [`Coord::split`] and
/// [`Coord::join`] compute stays inside an `i64`.
pub const MAX_BITS: u8 = 62;

/// The smallest level: a single block.
pub struct Block;

/// The level made of cells of level `N`.
pub struct Succ<N>(PhantomData<N>);

/// A `Section` is 16 blocks wide on every axis.
pub type Section = Succ<Block>;

/// A `Chunk` is 16 sections stacked on the y axis.
pub type Chunk = Succ<Section>;

/// A `Region` is 32 chunks wide on the x and z axes.
pub type Region = Succ<Chunk>;

/// The `World` holds regions without end on the x and z axes.
pub type World = Succ<Region>;

/// Per-axis bit widths `(x, y, z)`.
pub type Bits = (nat, nat, nat);

/// The widths of a level that is `step` wider than a level of widths `base`.
/// A level built on an unbounded one is unbounded too.
pub open spec fn widen(base: Option<Bits>, step: Bits) -> Option<Bits> {
    match base {
        Some(b) => Some((b.0 + step.0, b.1 + step.1, b.2 + step.2)),
        None => None,
    }
}

/// Whether a level of widths `inner` fits, axis by axis, in one of widths `outer`.
/// Only a bounded level fits anywhere, and it fits in every unbounded one.
pub open spec fn fits_in(inner: Option<Bits>, outer: Option<Bits>) -> bool {
    match (inner, outer) {
        (Some(i), Some(o)) => i.0 <= o.0 && i.1 <= o.1 && i.2 <= o.2,
        (Some(_), None) => true,
        (None, _) => false,
    }
}

/// A level of the hierarchy.
pub trait System {
    /// How many levels lie below this one; `Block` has rank 0.
    spec fn rank() -> nat;

    /// The bits that address one block inside a cell of this level, on each axis,
    /// or `None` for a level without bounds.
    spec fn extent() -> Option<Bits>;

    /// The name of this level, as a text.
    spec fn name_text() -> Seq<char>;

    /// The name of this level.
    fn name() -> (r: &'static str)
        ensures
            r@ == Self::name_text(),
    ;
}

/// Whether `extent` is that of a level with bounds, at most `MAX_BITS` wide.
pub open spec fn is_bounded(extent: Option<Bits>) -> bool {
    match extent {
        Some(e) => e.0 <= MAX_BITS && e.1 <= MAX_BITS && e.2 <= MAX_BITS,
        None => false,
    }
}

/// A level whose cells have a size.
///
/// The unbounded level at the top is no `Bounded`, so nothing can ask for its size.
pub trait Bounded: System {
    /// A level with a size has bounds on every axis.
    proof fn lemma_bounded()
        ensures
            is_bounded(Self::extent()),
    ;

    /// The size of a cell of this level on each axis, as a number of bits.
    fn size() -> (r: (u8, u8, u8))
        ensures
            Self::extent() == Some((r.0 as nat, r.1 as nat, r.2 as nat)),
    ;
}

/// `A: Contained<M>` says that cells of level `A` lie inside cells of level `M`,
/// directly or through levels in between.
pub trait Contained<M: System>: System {
    /// A contained level ranks below its container and is nowhere wider.
    proof fn lemma_contained()
        ensures
            Self::rank() < M::rank(),
            fits_in(Self::extent(), M::extent()),
    ;
}

impl System for Block {
    open spec fn rank() -> nat {
        0
    }

    open spec fn extent() -> Option<Bits> {
        Some((0, 0, 0))
    }

    open spec fn name_text() -> Seq<char> {
        "Block"@
    }

    fn name() -> (r: &'static str) {
        "Block"
    }
}

impl Bounded for Block {
    proof fn lemma_bounded() {
    }

    fn size() -> (r: (u8, u8, u8)) {
        (0, 0, 0)
    }
}

impl System for Section {
    open spec fn rank() -> nat {
        Block::rank() + 1
    }

    open spec fn extent() -> Option<Bits> {
        widen(Block::extent(), (4, 4, 4))
    }

    open spec fn name_text() -> Seq<char> {
        "Section"@
    }

    fn name() -> (r: &'static str) {
        "Section"
    }
}

impl Bounded for Section {
    proof fn lemma_bounded() {
    }

    fn size() -> (r: (u8, u8, u8)) {
        let (px, py, pz) = <Block as Bounded>::size();
        (4 + px, 4 + py, 4 + pz)
    }
}

impl System for Chunk {
    open spec fn rank() -> nat {
        Section::rank() + 1
    }

    open spec fn extent() -> Option<Bits> {
        widen(Section::extent(), (0, 4, 0))
    }

    open spec fn name_text() -> Seq<char> {
        "Chunk"@
    }

    fn name() -> (r: &'static str) {
        "Chunk"
    }
}

impl Bounded for Chunk {
    proof fn lemma_bounded() {
    }

    fn size() -> (r: (u8, u8, u8)) {
        let (px, py, pz) = <Section as Bounded>::size();
        (0 + px, 4 + py, 0 + pz)
    }
}

impl System for Region {
    open spec fn rank() -> nat {
        Chunk::rank() + 1
    }

    open spec fn extent() -> Option<Bits> {
        widen(Chunk::extent(), (5, 0, 5))
    }

    open spec fn name_text() -> Seq<char> {
        "Region"@
    }

    fn name() -> (r: &'static str) {
        "Region"
    }
}

impl Bounded for Region {
    proof fn lemma_bounded() {
    }

    fn size() -> (r: (u8, u8, u8)) {
        let (px, py, pz) = <Chunk as Bounded>::size();
        (5 + px, 0 + py, 5 + pz)
    }
}

impl System for World {
    open spec fn rank() -> nat {
        Region::rank() + 1
    }

    open spec fn extent() -> Option<Bits> {
        None
    }

    open spec fn name_text() -> Seq<char> {
        "World"@
    }

    fn name() -> (r: &'static str) {
        "World"
    }
}

impl Contained<Section> for Block {
    proof fn lemma_contained() {
    }
}

impl Contained<Chunk> for Block {
    proof fn lemma_contained() {
    }
}

impl Contained<Region> for Block {
    proof fn lemma_contained() {
    }
}

impl Contained<World> for Block {
    proof fn lemma_contained() {
    }
}

impl Contained<Chunk> for Section {
    proof fn lemma_contained() {
    }
}

impl Contained<Region> for Section {
    proof fn lemma_contained() {
    }
}

impl Contained<World> for Section {
    proof fn lemma_contained() {
    }
}

impl Contained<Region> for Chunk {
    proof fn lemma_contained() {
    }
}

impl Contained<World> for Chunk {
    proof fn lemma_contained() {
    }
}

impl Contained<World> for Region {
    proof fn lemma_contained() {
    }
}

/// A point as three integers `(x, y, z)`.
pub type Point = (int, int, int);

/// The bits by which a coordinate counted in `El`-sized cells moves when it is
/// counted in `Mid`-sized cells instead: the widths of `Mid` less those of `El`.
pub open spec fn shift<El: System, Mid: System>() -> Bits {
    match (El::extent(), Mid::extent()) {
        (Some(e), Some(m)) => ((m.0 - e.0) as nat, (m.1 - e.1) as nat, (m.2 - e.2) as nat),
        _ => (0, 0, 0),
    }
}

/// Where `c` lies inside its cell of `2^bits` positions: the remainder of the
/// flooring division, never negative.
pub open spec fn offset_in(c: int, bits: nat) -> int {
    c % (pow2(bits) as int)
}

/// The cell of `2^bits` positions that holds `c`: the quotient rounded down.
pub open spec fn cell_of(c: int, bits: nat) -> int {
    c / (pow2(bits) as int)
}

/// The position at offset `lo` in cell `hi`, with cells of `2^bits` positions.
pub open spec fn compose(lo: int, hi: int, bits: nat) -> int {
    lo + hi * pow2(bits)
}

/// The offsets of `p` within its cells, axis by axis.
pub open spec fn offsets(p: Point, bits: Bits) -> Point {
    (offset_in(p.0, bits.0), offset_in(p.1, bits.1), offset_in(p.2, bits.2))
}

/// The cells that hold `p`, axis by axis.
pub open spec fn cells(p: Point, bits: Bits) -> Point {
    (cell_of(p.0, bits.0), cell_of(p.1, bits.1), cell_of(p.2, bits.2))
}

/// The point at offsets `lo` in the cells `hi`, axis by axis.
pub open spec fn composed(lo: Point, hi: Point, bits: Bits) -> Point {
    (compose(lo.0, hi.0, bits.0), compose(lo.1, hi.1, bits.1), compose(lo.2, hi.2, bits.2))
}

/// Whether `v` is a value of `i64`.
pub open spec fn in_i64(v: int) -> bool {
    i64::MIN <= v <= i64::MAX
}

/// Whether putting `lo` and `hi` together on one axis stays within `i64`, both the
/// shifted cell and the sum.
pub open spec fn compose_fits(lo: int, hi: int, bits: nat) -> bool {
    in_i64(hi * pow2(bits)) && in_i64(compose(lo, hi, bits))
}

/// `v` as an `i64` holds it when the bits beyond the 64th are left out: the one
/// value of `i64` that differs from `v` by a multiple of `2^64`. A value of `i64` is
/// left as it is.
pub open spec fn wrap_i64(v: int) -> int {
    let low = v % 0x1_0000_0000_0000_0000;
    if low > i64::MAX {
        low - 0x1_0000_0000_0000_0000
    } else {
        low
    }
}

/// The point `p` with each axis brought into `i64` by `wrap_i64`.
pub open spec fn wrapped(p: Point) -> Point {
    (wrap_i64(p.0), wrap_i64(p.1), wrap_i64(p.2))
}

/// Whether `lo` is an offset inside a cell on every axis.
pub open spec fn is_offset(lo: Point, bits: Bits) -> bool {
    &&& 0 <= lo.0 < pow2(bits.0)
    &&& 0 <= lo.1 < pow2(bits.1)
    &&& 0 <= lo.2 < pow2(bits.2)
}

/// How a coordinate is shown: `coord!(Block, World, 45, 64, -20)` is the block at
/// `(45, 64, -20)` of the world.
pub open spec fn coord_text(el: Seq<char>, within: Seq<char>, p: Point) -> Seq<char> {
    "coord!("@ + el + ", "@ + within + ", "@ + int_text(p.0) + ", "@ + int_text(p.1) + ", "@
        + int_text(p.2) + ")"@
}

/// The position of a cell of level `El` inside a cell of level `In`, counted in
/// cells of level `El`.
pub struct Coord<El, In> {
    /// Positive x faces east.
    pub x: i64,
    /// Positive y faces up.
    pub y: i64,
    /// Positive z faces south.
    pub z: i64,
    pub phantom: PhantomData<(El, In)>,
}

impl<El, In> Clone for Coord<El, In> {
    fn clone(&self) -> (r: Self)
        ensures
            r == *self,
    {
        *self
    }
}

impl<El, In> Copy for Coord<El, In> {

}

impl<El, In> View for Coord<El, In> {
    type V = Point;

    open spec fn view(&self) -> Point {
        (self.x as int, self.y as int, self.z as int)
    }
}

/// `1 << s` is the `s`-th power of two.
proof fn lemma_one_shl(s: u8)
    requires
        s <= MAX_BITS,
    ensures
        (1i64 << s) == pow2(s as nat),
        0 < (1i64 << s),
    decreases s,
{
    if s == 0 {
        assert(1i64 << 0u8 == 1) by (bit_vector);
        lemma2_to64();
    } else {
        let t = (s - 1) as u8;
        lemma_one_shl(t);
        assert((1i64 << ((t + 1) as u8)) == 2 * (1i64 << t)) by (bit_vector)
            requires
                t < 62,
        ;
        lemma_pow2_unfold(s as nat);
    }
}

/// On `i64`, masking with `2^s - 1` and shifting right by `s` are the remainder and
/// the quotient of the flooring division by `2^s`.
proof fn lemma_split_axis(c: i64, s: u8, mask: i64)
    requires
        s <= MAX_BITS,
        mask == (1i64 << s) - 1,
    ensures
        (c & mask) == offset_in(c as int, s as nat),
        (c >> s) == cell_of(c as int, s as nat),
{
    lemma_one_shl(s);
    let d = 1i64 << s;
    let q = c >> s;
    let r = c & mask;
    assert(c == q * d + r && 0 <= r < d) by (bit_vector)
        requires
            s <= 62,
            mask == (1i64 << s) - 1,
            d == 1i64 << s,
            q == c >> s,
            r == c & mask,
    ;
    lemma_fundamental_div_mod_converse(c as int, d as int, q as int, r as int);
}

/// On `i64`, adding to `lo` what `hi` shifted left by `s` gives, with the wrapping
/// addition, is `lo + hi * 2^s` brought into `i64`.
proof fn lemma_join_axis(lo: i64, hi: i64, s: u8)
    requires
        s <= MAX_BITS,
    ensures
        vstd::wrapping::i64_specs::wrapping_add(lo, hi << s) == wrap_i64(
            compose(lo as int, hi as int, s as nat),
        ),
{
    lemma_one_shl(s);
    let d = 1i64 << s;
    let shifted = hi << s;
    assert(shifted == (if (hi * d) % 0x1_0000_0000_0000_0000 > 0x7fff_ffff_ffff_ffff {
        (hi * d) % 0x1_0000_0000_0000_0000 - 0x1_0000_0000_0000_0000
    } else {
        (hi * d) % 0x1_0000_0000_0000_0000
    })) by (bit_vector)
        requires
            s <= 62,
            d == 1i64 << s,
            shifted == hi << s,
    ;
    let product = hi * d;
    assert(shifted == wrap_i64(product));
    assert(wrap_i64(lo + wrap_i64(product)) == wrap_i64(lo + product));
}

/// The offset and the cell of a position put together give the position back.
pub proof fn lemma_compose_parts(c: int, bits: nat)
    ensures
        compose(offset_in(c, bits), cell_of(c, bits), bits) == c,
        0 <= offset_in(c, bits) < pow2(bits),
{
    lemma_pow2_pos(bits);
    let d = pow2(bits) as int;
    lemma_fundamental_div_mod(c, d);
    lemma_mod_bound(c, d);
    lemma_mul_is_commutative(d, c / d);
}

/// An offset inside a cell and a cell, put together and taken apart again, are the
/// same offset and the same cell.
pub proof fn lemma_parts_of_compose(lo: int, hi: int, bits: nat)
    requires
        0 <= lo < pow2(bits),
    ensures
        offset_in(compose(lo, hi, bits), bits) == lo,
        cell_of(compose(lo, hi, bits), bits) == hi,
{
    lemma_pow2_pos(bits);
    lemma_fundamental_div_mod_converse(compose(lo, hi, bits), pow2(bits) as int, hi, lo);
}

/// The parts of an `i64` position at up to `MAX_BITS` bits are values of `i64`, and
/// they can be put together without leaving `i64`.
pub proof fn lemma_parts_fit(c: i64, bits: nat)
    requires
        bits <= MAX_BITS,
    ensures
        in_i64(offset_in(c as int, bits)),
        in_i64(cell_of(c as int, bits)),
        compose_fits(offset_in(c as int, bits), cell_of(c as int, bits), bits),
{
    let low = -0x8000_0000_0000_0000int;
    let d = pow2(bits) as int;
    let rest = pow2((63 - bits) as nat) as int;
    let q = cell_of(c as int, bits);
    let r = offset_in(c as int, bits);
    lemma_pow2_pos(bits);
    lemma_pow2_pos((63 - bits) as nat);
    lemma_pow2_adds((63 - bits) as nat, bits);
    lemma2_to64_rest();
    assert(rest * d == -low);
    lemma_compose_parts(c as int, bits);
    assert(c == r + q * d);
    // The lowest `i64` is a multiple of `d`, so no cell of an `i64` starts below it.
    assert(low == (-rest) * d + 0) by (nonlinear_arith)
        requires
            rest * d == -low,
    ;
    lemma_fundamental_div_mod_converse(low, d, -rest, 0);
    lemma_div_is_ordered(low, c as int, d);
    assert(low <= q * d) by (nonlinear_arith)
        requires
            -rest <= q,
            0 < d,
            rest * d == -low,
    ;
    assert(d <= -low && rest <= -low) by (nonlinear_arith)
        requires
            1 <= d,
            1 <= rest,
            rest * d == -low,
    ;
    assert(q <= i64::MAX) by (nonlinear_arith)
        requires
            q * d <= c,
            1 <= d,
            c <= i64::MAX,
    ;
}

impl<El: Bounded + Contained<In>, In: System> Coord<El, In> {
    /// The coordinate `(x, y, z)`.
    pub fn new(x: i64, y: i64, z: i64) -> (c: Self)
        ensures
            c@ == (x as int, y as int, z as int),
    {
        Coord { x, y, z, phantom: PhantomData }
    }

    /// The coordinate as it is shown, with the names of its levels.
    pub fn to_text(&self) -> (r: String)
        ensures
            r@ == coord_text(El::name_text(), In::name_text(), self@),
    {
        let mut r = String::from_str("coord!(");
        r.append(El::name());
        r.append(", ");
        r.append(In::name());
        r.append(", ");
        push_i64(&mut r, self.x);
        r.append(", ");
        push_i64(&mut r, self.y);
        r.append(", ");
        push_i64(&mut r, self.z);
        r.append(")");
        r
    }

    /// Whether `self`, a position inside a cell of level `In`, and `other`, the
    /// position of that cell, can be joined without leaving `i64` on any axis.
    pub open spec fn join_fits<End: System>(self, other: Coord<In, End>) -> bool {
        let s = shift::<El, In>();
        &&& compose_fits(self.x as int, other.x as int, s.0)
        &&& compose_fits(self.y as int, other.y as int, s.1)
        &&& compose_fits(self.z as int, other.z as int, s.2)
    }

    /// Puts the position of a cell inside a container and the position of that
    /// container together: given `El` in `In` and `In` in `End`, the position of the
    /// `El`-sized cell in `End`.
    ///
    /// On each axis the result is `self + (other << shift)`, where `shift` is the
    /// width of `In` less the width of `El`. Where that is no value of `i64` the
    /// result is what is left of it in 64 bits; [`Coord::checked_join`] tells the
    /// two apart.
    pub fn join<End>(self, other: Coord<In, End>) -> (r: Coord<El, End>) where
        El: Contained<End>,
        In: Bounded + Contained<End>,
        End: System,

        ensures
            r@ == wrapped(composed(self@, other@, shift::<El, In>())),
            self.join_fits(other) ==> r@ == composed(self@, other@, shift::<El, In>()),
    {
        let (ox, oy, oz) = (other.x, other.y, other.z);
        let (x, y, z) = (self.x, self.y, self.z);
        let (osizex, osizey, osizez) = <In as Bounded>::size();
        let (sizex, sizey, sizez) = <El as Bounded>::size();
        proof {
            <El as Contained<In>>::lemma_contained();
            <In as Bounded>::lemma_bounded();
            lemma_join_axis(x, ox, (osizex - sizex) as u8);
            lemma_join_axis(y, oy, (osizey - sizey) as u8);
            lemma_join_axis(z, oz, (osizez - sizez) as u8);
        }
        Coord {
            x: x.wrapping_add(ox << (osizex - sizex)),
            y: y.wrapping_add(oy << (osizey - sizey)),
            z: z.wrapping_add(oz << (osizez - sizez)),
            phantom: PhantomData,
        }
    }

    /// Cuts a coordinate in two at the level `Mid` between `El` and `In`: the
    /// position of the `El`-sized cell inside its `Mid`-sized cell, and the position
    /// of that `Mid`-sized cell in `In`.
    ///
    /// The division rounds down, so the first part is never negative: block -1 is
    /// block 15 of chunk -1. The two parts can always be joined again, and the join
    /// is the coordinate that was split.
    pub fn split<Mid>(self) -> (r: (Coord<El, Mid>, Coord<Mid, In>)) where
        El: Contained<Mid>,
        Mid: Bounded + Contained<In>,

        ensures
            r.0@ == offsets(self@, shift::<El, Mid>()),
            r.1@ == cells(self@, shift::<El, Mid>()),
            is_offset(r.0@, shift::<El, Mid>()),
            r.0.join_fits(r.1),
            composed(r.0@, r.1@, shift::<El, Mid>()) == self@,
    {
        let (x, y, z) = (self.x, self.y, self.z);
        let (osizex, osizey, osizez) = <Mid as Bounded>::size();
        let (sizex, sizey, sizez) = <El as Bounded>::size();
        proof {
            <El as Contained<Mid>>::lemma_contained();
            <Mid as Bounded>::lemma_bounded();
            lemma_one_shl((osizex - sizex) as u8);
            lemma_one_shl((osizey - sizey) as u8);
            lemma_one_shl((osizez - sizez) as u8);
        }
        let mx: i64 = (1i64 << (osizex - sizex)) - 1;
        let my: i64 = (1i64 << (osizey - sizey)) - 1;
        let mz: i64 = (1i64 << (osizez - sizez)) - 1;
        proof {
            lemma_split_axis(x, (osizex - sizex) as u8, mx);
            lemma_split_axis(y, (osizey - sizey) as u8, my);
            lemma_split_axis(z, (osizez - sizez) as u8, mz);
            lemma_split_then_join::<El, Mid, In>(self);
            lemma_compose_parts(x as int, (osizex - sizex) as nat);
            lemma_compose_parts(y as int, (osizey - sizey) as nat);
            lemma_compose_parts(z as int, (osizez - sizez) as nat);
        }
        let a = Coord { x: x & mx, y: y & my, z: z & mz, phantom: PhantomData };
        let b = Coord {
            x: x >> (osizex - sizex),
            y: y >> (osizey - sizey),
            z: z >> (osizez - sizez),
            phantom: PhantomData,
        };
        (a, b)
    }

    /// Joins like [`Coord::join`] where the result is a coordinate of `i64`s, and
    /// says so where it is not.
    pub fn checked_join<End>(self, other: Coord<In, End>) -> (r: Option<Coord<El, End>>) where
        El: Contained<End>,
        In: Bounded + Contained<End>,
        End: System,

        ensures
            r is Some <==> self.join_fits(other),
            r matches Some(c) ==> c@ == composed(self@, other@, shift::<El, In>()),
    {
        let (osizex, osizey, osizez) = <In as Bounded>::size();
        let (sizex, sizey, sizez) = <El as Bounded>::size();
        proof {
            <El as Contained<In>>::lemma_contained();
            <In as Bounded>::lemma_bounded();
        }
        let x = checked_compose(self.x, other.x, osizex - sizex);
        let y = checked_compose(self.y, other.y, osizey - sizey);
        let z = checked_compose(self.z, other.z, osizez - sizez);
        match (x, y, z) {
            (Some(x), Some(y), Some(z)) => Some(Coord { x, y, z, phantom: PhantomData }),
            _ => None,
        }
    }
}

/// `lo + hi * 2^bits` where that and the product are values of `i64`.
fn checked_compose(lo: i64, hi: i64, bits: u8) -> (r: Option<i64>)
    requires
        bits <= MAX_BITS,
    ensures
        r is Some <==> compose_fits(lo as int, hi as int, bits as nat),
        r matches Some(v) ==> v == compose(lo as int, hi as int, bits as nat),
{
    proof {
        lemma_one_shl(bits);
    }
    match hi.checked_mul(1i64 << bits) {
        Some(shifted) => lo.checked_add(shifted),
        None => None,
    }
}

/// Splitting a coordinate at a level between its own and its container's, and
/// joining the two parts, gives the coordinate back, whatever its sign: the parts are
/// coordinates of `i64`s, they can be joined, and the join is the coordinate.
pub proof fn lemma_split_then_join<El, Mid, In>(c: Coord<El, In>) where
    El: Bounded + Contained<Mid> + Contained<In>,
    Mid: Bounded + Contained<In>,
    In: System,

    ensures
        ({
            let s = shift::<El, Mid>();
            let lo = offsets(c@, s);
            let hi = cells(c@, s);
            &&& in_i64(lo.0) && in_i64(lo.1) && in_i64(lo.2)
            &&& in_i64(hi.0) && in_i64(hi.1) && in_i64(hi.2)
            &&& compose_fits(lo.0, hi.0, s.0)
            &&& compose_fits(lo.1, hi.1, s.1)
            &&& compose_fits(lo.2, hi.2, s.2)
            &&& composed(lo, hi, s) == c@
        }),
{
    <El as Contained<Mid>>::lemma_contained();
    <Mid as Bounded>::lemma_bounded();
    let s = shift::<El, Mid>();
    lemma_parts_fit(c.x, s.0);
    lemma_parts_fit(c.y, s.1);
    lemma_parts_fit(c.z, s.2);
    lemma_compose_parts(c.x as int, s.0);
    lemma_compose_parts(c.y as int, s.1);
    lemma_compose_parts(c.z as int, s.2);
}

/// Joining a position inside a container with the position of that container, and
/// splitting the result at the container's level, gives the two back.
///
/// This holds of a position that lies inside its container: on each axis it is at
/// least 0 and below the number of cells the container has there. On an axis where
/// the container is one cell wide the position is 0.
pub proof fn lemma_join_then_split<El, In, End>(a: Coord<El, In>, b: Coord<In, End>) where
    El: Bounded + Contained<In> + Contained<End>,
    In: Bounded + Contained<End>,
    End: System,

    requires
        is_offset(a@, shift::<El, In>()),
    ensures
        ({
            let s = shift::<El, In>();
            &&& offsets(composed(a@, b@, s), s) == a@
            &&& cells(composed(a@, b@, s), s) == b@
        }),
{
    let s = shift::<El, In>();
    lemma_parts_of_compose(a.x as int, b.x as int, s.0);
    lemma_parts_of_compose(a.y as int, b.y as int, s.1);
    lemma_parts_of_compose(a.z as int, b.z as int, s.2);
}

} // verus!
