//! Block identification and sub-block composition: block ids with variation
//! and color, their text form "base[:variation][:Ccolor]", facings,
//! connections and the sub-blocks that make up a block.
use vstd::prelude::*;
use vstd::string::*;
use crate::number::{all_digits, decimal, decimal_chars, lemma_decimal, parse_u64, parse_unsigned, unsigned_digits};
use crate::text::{chars_of, string_of};

verus! {

/// The faces of a block.
#[derive(Debug, Clone, Copy, PartialEq, Eq, Structural)]
pub enum BlockFacing {
    NoFacing,
    North,
    South,
    East,
    West,
    Up,
    Down,
}

/// How a block sits.
#[derive(Debug, Clone, Copy, PartialEq, Eq, Structural)]
pub enum BlockOrientation {
    Wall,
    Floor,
    Ceiling,
    Corner,
    Edge,
    Custom(u8),
}

/// Errors of block ids and block definitions.
#[derive(Debug, PartialEq, Eq)]
pub enum BlockError {
    InvalidIdFormat,
    BlockNotFound(String),
    ConnectionError(String),
    MaterialError(String),
    ColorVariantError(String),
}

/// Kinds of block.
#[derive(Debug, Clone, Copy, PartialEq, Eq, Structural)]
pub enum BlockCategory {
    Solid,
    Liquid,
    Gas,
    Flora,
    Transparent,
    Ore,
    Decorative,
    Mechanical,
}

/// The opposite face.
pub open spec fn spec_opposite(f: BlockFacing) -> BlockFacing {
    match f {
        BlockFacing::North => BlockFacing::South,
        BlockFacing::South => BlockFacing::North,
        BlockFacing::East => BlockFacing::West,
        BlockFacing::West => BlockFacing::East,
        BlockFacing::Up => BlockFacing::Down,
        BlockFacing::Down => BlockFacing::Up,
        BlockFacing::NoFacing => BlockFacing::NoFacing,
    }
}

/// The lowercase name of a face.
pub open spec fn facing_name(f: BlockFacing) -> Seq<char> {
    match f {
        BlockFacing::NoFacing => "none"@,
        BlockFacing::North => "north"@,
        BlockFacing::South => "south"@,
        BlockFacing::East => "east"@,
        BlockFacing::West => "west"@,
        BlockFacing::Up => "up"@,
        BlockFacing::Down => "down"@,
    }
}

impl BlockFacing {
    /// The opposite face; `NoFacing` has no opposite.
    pub fn opposite(&self) -> (r: Self)
        ensures
            r == spec_opposite(*self),
    {
        match self {
            BlockFacing::North => BlockFacing::South,
            BlockFacing::South => BlockFacing::North,
            BlockFacing::East => BlockFacing::West,
            BlockFacing::West => BlockFacing::East,
            BlockFacing::Up => BlockFacing::Down,
            BlockFacing::Down => BlockFacing::Up,
            BlockFacing::NoFacing => BlockFacing::NoFacing,
        }
    }

    /// The lowercase name of the face.
    pub fn lowercase_name(&self) -> (r: String)
        ensures
            r@ == facing_name(*self),
    {
        match self {
            BlockFacing::NoFacing => String::from_str("none"),
            BlockFacing::North => String::from_str("north"),
            BlockFacing::South => String::from_str("south"),
            BlockFacing::East => String::from_str("east"),
            BlockFacing::West => String::from_str("west"),
            BlockFacing::Up => String::from_str("up"),
            BlockFacing::Down => String::from_str("down"),
        }
    }
}

/// Facing each face and back is the identity.
pub proof fn lemma_opposite_involution(f: BlockFacing)
    ensures
        spec_opposite(spec_opposite(f)) == f,
{
}

impl Default for BlockFacing {
    fn default() -> (r: Self)
        ensures
            r == BlockFacing::NoFacing,
    {
        BlockFacing::NoFacing
    }
}

impl Default for BlockOrientation {
    fn default() -> (r: Self)
        ensures
            r == BlockOrientation::Wall,
    {
        BlockOrientation::Wall
    }
}

/// The name of the texture of a block's face: "<id>_<face>.png".
pub fn generate_texture_name(block_id: u32, facing: BlockFacing) -> (r: String)
    ensures
        r@ == decimal(block_id as nat) + "_"@ + facing_name(facing) + ".png"@,
{
    let digits = decimal_chars(block_id as u64);
    let mut name = string_of(&digits);
    name.append("_");
    let f = facing.lowercase_name();
    name.append(f.as_str());
    name.append(".png");
    name
}

/// A set of directions in which a block connects, as bits: north 1, south 2,
/// east 4, west 8, up 16, down 32.
#[derive(Debug, Clone, Copy)]
pub struct ConnectedDirections {
    bits: u8,
}

impl ConnectedDirections {
    pub closed spec fn spec_bits(&self) -> u8 {
        self.bits
    }

    /// No direction.
    pub fn empty() -> (r: Self)
        ensures
            r.spec_bits() == 0,
    {
        ConnectedDirections { bits: 0 }
    }

    /// The directions of the known bits of `bits`.
    pub fn from_bits_truncate(bits: u8) -> (r: Self)
        ensures
            r.spec_bits() == bits & 0x3f,
    {
        ConnectedDirections { bits: bits & 0x3f }
    }

    pub fn north() -> (r: Self)
        ensures
            r.spec_bits() == 1,
    {
        ConnectedDirections { bits: 1 }
    }

    pub fn south() -> (r: Self)
        ensures
            r.spec_bits() == 2,
    {
        ConnectedDirections { bits: 2 }
    }

    pub fn east() -> (r: Self)
        ensures
            r.spec_bits() == 4,
    {
        ConnectedDirections { bits: 4 }
    }

    pub fn west() -> (r: Self)
        ensures
            r.spec_bits() == 8,
    {
        ConnectedDirections { bits: 8 }
    }

    pub fn up() -> (r: Self)
        ensures
            r.spec_bits() == 16,
    {
        ConnectedDirections { bits: 16 }
    }

    pub fn down() -> (r: Self)
        ensures
            r.spec_bits() == 32,
    {
        ConnectedDirections { bits: 32 }
    }

    /// The bits of the set.
    pub fn bits(&self) -> (r: u8)
        ensures
            r == self.spec_bits(),
    {
        self.bits
    }

    /// Whether every direction of `other` is in the set.
    pub fn contains(&self, other: ConnectedDirections) -> (r: bool)
        ensures
            r == (self.spec_bits() & other.spec_bits() == other.spec_bits()),
    {
        self.bits & other.bits == other.bits
    }

    /// The directions of either set.
    pub fn union(&self, other: ConnectedDirections) -> (r: Self)
        ensures
            r.spec_bits() == self.spec_bits() | other.spec_bits(),
    {
        ConnectedDirections { bits: self.bits | other.bits }
    }
}

/// A block id: base id, variation and color.
#[derive(Debug, Clone, Copy, PartialEq, Eq, Structural)]
pub struct BlockId {
    pub base_id: u32,
    pub variation: u16,
    pub color_id: u16,
}

/// The text of a block id: the base id, then ":" and the variation when the
/// variation or the color is not 0, then ":C" and the color when the color is
/// not 0.
pub open spec fn block_id_text(id: BlockId) -> Seq<char> {
    decimal(id.base_id as nat) + (if id.variation != 0 || id.color_id != 0 {
        seq![':'] + decimal(id.variation as nat)
    } else {
        Seq::empty()
    }) + (if id.color_id != 0 {
        seq![':', 'C'] + decimal(id.color_id as nat)
    } else {
        Seq::empty()
    })
}

/// The parts of a text between ':' separators (one part when there is none).
pub open spec fn split_colon(s: Seq<char>) -> Seq<Seq<char>>
    decreases s.len(),
{
    if s.len() == 0 {
        seq![Seq::empty()]
    } else {
        let p = split_colon(s.drop_last());
        if s.last() == ':' {
            p.push(Seq::empty())
        } else {
            p.update(p.len() - 1, p.last().push(s.last()))
        }
    }
}

/// Reads the parts after the base id in order: a part that starts with 'C'
/// sets the color to the number after the 'C', any other part sets the
/// variation; a later part replaces what an earlier one set.
pub open spec fn apply_parts(parts: Seq<Seq<char>>, acc: (int, int)) -> Option<(int, int)>
    decreases parts.len(),
{
    if parts.len() == 0 {
        Some(acc)
    } else {
        let p = parts[0];
        let next = if p.len() > 0 && p[0] == 'C' {
            match parse_unsigned(p.skip(1), u16::MAX as int) {
                Some(c) => Some((acc.0, c)),
                None => None,
            }
        } else {
            match parse_unsigned(p, u16::MAX as int) {
                Some(v) => Some((v, acc.1)),
                None => None,
            }
        };
        match next {
            Some(a) => apply_parts(parts.skip(1), a),
            None => None,
        }
    }
}

/// The block id a text writes: the base id before the first ':', then the
/// parts after it (see `apply_parts`).
pub open spec fn parse_block_id(s: Seq<char>) -> Option<BlockId> {
    let parts = split_colon(s);
    match parse_unsigned(parts[0], u32::MAX as int) {
        Some(b) => match apply_parts(parts.skip(1), (0, 0)) {
            Some(vc) => Some(BlockId { base_id: b as u32, variation: vc.0 as u16, color_id: vc.1 as u16 }),
            None => None,
        },
        None => None,
    }
}

/// A text has at least one part.
proof fn lemma_split_len(s: Seq<char>)
    ensures
        split_colon(s).len() >= 1,
    decreases s.len(),
{
    if s.len() > 0 {
        lemma_split_len(s.drop_last());
    }
}

/// A text without ':' is one part.
proof fn lemma_split_no_colon(t: Seq<char>)
    requires
        forall|i: int| 0 <= i < t.len() ==> t[i] != ':',
    ensures
        split_colon(t) == seq![t],
    decreases t.len(),
{
    if t.len() > 0 {
        lemma_split_no_colon(t.drop_last());
        assert(t.drop_last().push(t.last()) =~= t);
        assert(seq![t.drop_last()].update(0, t.drop_last().push(t.last())) =~= seq![t]);
    } else {
        assert(t =~= Seq::<char>::empty());
    }
}

/// A ':' and a text without ':' after `x` add that text as a part.
proof fn lemma_split_colon_then(x: Seq<char>, y: Seq<char>)
    requires
        forall|i: int| 0 <= i < y.len() ==> y[i] != ':',
    ensures
        split_colon(x + seq![':'] + y) == split_colon(x).push(y),
    decreases y.len(),
{
    if y.len() == 0 {
        assert((x + seq![':'] + y).drop_last() =~= x);
        assert(y =~= Seq::<char>::empty());
    } else {
        let y1 = y.drop_last();
        lemma_split_colon_then(x, y1);
        let s = x + seq![':'] + y;
        assert(s.drop_last() =~= x + seq![':'] + y1);
        assert(s.last() == y[y.len() - 1]);
        assert(y1.push(y.last()) =~= y);
        let p = split_colon(x).push(y1);
        assert(p.update(p.len() - 1, p.last().push(s.last())) =~= split_colon(x).push(y));
    }
}

/// A number's digits read back as the number, within its range.
proof fn lemma_parse_decimal(n: nat, max: int)
    requires
        n <= max,
    ensures
        parse_unsigned(decimal(n), max) == Some(n as int),
{
    lemma_decimal(n);
    assert(unsigned_digits(decimal(n)) == decimal(n));
}

/// Writing a block id and reading the text back gives the same id.
pub proof fn lemma_block_id_round_trip(id: BlockId)
    ensures
        parse_block_id(block_id_text(id)) == Some(id),
{
    let b = decimal(id.base_id as nat);
    let v = decimal(id.variation as nat);
    let c = decimal(id.color_id as nat);
    lemma_decimal(id.base_id as nat);
    lemma_decimal(id.variation as nat);
    lemma_decimal(id.color_id as nat);
    lemma_parse_decimal(id.base_id as nat, u32::MAX as int);
    lemma_parse_decimal(id.variation as nat, u16::MAX as int);
    lemma_parse_decimal(id.color_id as nat, u16::MAX as int);
    lemma_split_no_colon(b);
    let cc = seq!['C'] + c;
    assert forall|i: int| 0 <= i < cc.len() implies cc[i] != ':' by {
        if i > 0 {
            assert(cc[i] == c[i - 1]);
        }
    }
    assert(cc.skip(1) =~= c);
    let base = id.base_id as int;
    let var = id.variation as int;
    let col = id.color_id as int;
    let none = Seq::<Seq<char>>::empty();
    assert(apply_parts(none, (var, col)) == Some((var, col)));
    if id.variation == 0 && id.color_id == 0 {
        assert(block_id_text(id) =~= b);
        assert(split_colon(b).skip(1) =~= none);
        assert(apply_parts(none, (0, 0)) == Some((0int, 0int)));
    } else if id.color_id == 0 {
        assert(block_id_text(id) =~= b + seq![':'] + v);
        lemma_split_colon_then(b, v);
        let parts = split_colon(b).push(v);
        assert(parts.skip(1) =~= seq![v]);
        assert(seq![v].skip(1) =~= none);
        assert(seq![v][0] == v);
        assert(apply_parts(seq![v], (0, 0)) == apply_parts(seq![v].skip(1), (var, 0)));
    } else {
        assert(block_id_text(id) =~= b + seq![':'] + v + seq![':'] + cc);
        lemma_split_colon_then(b, v);
        lemma_split_colon_then(b + seq![':'] + v, cc);
        let parts = split_colon(b).push(v).push(cc);
        assert(parts.skip(1) =~= seq![v, cc]);
        assert(seq![v, cc].skip(1) =~= seq![cc]);
        assert(seq![cc].skip(1) =~= none);
        assert(seq![v, cc][0] == v);
        assert(seq![cc][0] == cc);
        assert(apply_parts(seq![cc], (var, 0)) == apply_parts(seq![cc].skip(1), (var, col)));
        assert(apply_parts(seq![v, cc], (0, 0)) == apply_parts(seq![v, cc].skip(1), (var, 0)));
    }
}

impl BlockId {
    /// The id of a base block, with no variation and no color.
    pub open spec fn new_spec(base_id: u32) -> BlockId {
        BlockId { base_id, variation: 0, color_id: 0 }
    }

    /// The id of a base block, with no variation and no color.
    pub fn new(base_id: u32) -> (r: Self)
        ensures
            r == Self::new_spec(base_id),
    {
        BlockId { base_id, variation: 0, color_id: 0 }
    }

    /// The id of air.
    pub fn air() -> (r: Self)
        ensures
            r == (BlockId { base_id: 0, variation: 0, color_id: 0 }),
    {
        BlockId { base_id: 0, variation: 0, color_id: 0 }
    }

    pub fn with_variation(base_id: u32, variation: u16) -> (r: Self)
        ensures
            r == (BlockId { base_id, variation, color_id: 0 }),
    {
        BlockId { base_id, variation, color_id: 0 }
    }

    pub fn with_color(base_id: u32, color_id: u16) -> (r: Self)
        ensures
            r == (BlockId { base_id, variation: 0, color_id }),
    {
        BlockId { base_id, variation: 0, color_id }
    }

    /// Whether the id has a color.
    pub fn is_colored(&self) -> (r: bool)
        ensures
            r == (self.color_id != 0),
    {
        self.color_id != 0
    }

    /// The id as one number: base id in the high 32 bits, variation in the
    /// next 16, color in the low 16.
    pub fn to_combined(&self) -> (r: u64)
        ensures
            r == self.base_id as int * 0x1_0000_0000 + self.variation as int * 0x1_0000
                + self.color_id as int,
    {
        let b = self.base_id as u64;
        let v = self.variation as u64;
        let c = self.color_id as u64;
        assert((b << 32u64) | (v << 16u64) | c == b * 0x1_0000_0000 + v * 0x1_0000 + c) by (bit_vector)
            requires
                b <= 0xffff_ffff,
                v <= 0xffff,
                c <= 0xffff,
        ;
        (b << 32u64) | (v << 16u64) | c
    }

    /// The text of the id (see `block_id_text`).
    pub fn to_string(&self) -> (r: String)
        ensures
            r@ == block_id_text(*self),
    {
        let mut out = string_of(&decimal_chars(self.base_id as u64));
        if self.variation != 0 || self.color_id != 0 {
            out.append(":");
            out.append(string_of(&decimal_chars(self.variation as u64)).as_str());
        }
        if self.color_id != 0 {
            out.append(":C");
            out.append(string_of(&decimal_chars(self.color_id as u64)).as_str());
        }
        proof {
            reveal_strlit(":");
            reveal_strlit(":C");
            assert(":"@ =~= seq![':']);
            assert(":C"@ =~= seq![':', 'C']);
        }
        out
    }

    /// The block id a text writes (see `parse_block_id`); fails with
    /// `InvalidIdFormat` when a number is missing, malformed or out of range.
    pub fn from_str(s: &str) -> (r: Result<Self, BlockError>)
        ensures
            match parse_block_id(s@) {
                Some(id) => r == Ok::<BlockId, BlockError>(id),
                None => r == Err::<BlockId, BlockError>(BlockError::InvalidIdFormat),
            },
    {
        let cs = chars_of(s);
        let mut done: Vec<Vec<char>> = Vec::new();
        let mut current: Vec<char> = Vec::new();
        let mut i: usize = 0;
        while i < cs.len()
            invariant
                i <= cs@.len(),
                split_colon(cs@.take(i as int)) == done@.map_values(|v: Vec<char>| v@).push(current@),
            decreases cs@.len() - i,
        {
            proof {
                assert(cs@.take(i + 1).drop_last() =~= cs@.take(i as int));
                assert(cs@.take(i + 1).last() == cs@[i as int]);
            }
            if cs[i] == ':' {
                let ghost d0 = done@;
                done.push(current);
                current = Vec::new();
                proof {
                    assert(done@.map_values(|v: Vec<char>| v@) =~= d0.map_values(|v: Vec<char>| v@).push(
                        done@.last()@,
                    ));
                }
            } else {
                let ghost c0 = current@;
                current.push(cs[i]);
                proof {
                    let p = done@.map_values(|v: Vec<char>| v@).push(c0);
                    assert(p.update(p.len() - 1, c0.push(cs@[i as int])) =~= done@.map_values(
                        |v: Vec<char>| v@,
                    ).push(current@));
                }
            }
            i = i + 1;
        }
        proof {
            assert(cs@.take(cs@.len() as int) =~= cs@);
        }
        let ghost d0 = done@;
        done.push(current);
        let parts = done;
        let ghost pv = parts@.map_values(|v: Vec<char>| v@);
        proof {
            assert(pv =~= d0.map_values(|v: Vec<char>| v@).push(parts@.last()@));
            assert(pv == split_colon(s@));
            assert(pv[0] == parts@[0]@);
        }
        let base = match parse_u64(&parts[0]) {
            Some(b) => {
                if b > 0xffff_ffff {
                    proof {
                        assert(parse_unsigned(pv[0], u32::MAX as int) is None);
                        assert(parse_block_id(s@) is None);
                    }
                    return Err(BlockError::InvalidIdFormat);
                }
                proof {
                    assert(parse_unsigned(pv[0], u32::MAX as int) == Some(b as int));
                }
                b as u32
            },
            None => {
                proof {
                    assert(parse_unsigned(pv[0], u32::MAX as int) is None);
                    assert(parse_block_id(s@) is None);
                }
                return Err(BlockError::InvalidIdFormat);
            },
        };
        let mut variation: u16 = 0;
        let mut color_id: u16 = 0;
        let mut k: usize = 1;
        while k < parts.len()
            invariant
                1 <= k <= parts@.len(),
                pv == parts@.map_values(|v: Vec<char>| v@),
                pv == split_colon(s@),
                parse_unsigned(pv[0], u32::MAX as int) == Some(base as int),
                apply_parts(pv.skip(1), (0, 0)) == apply_parts(
                    pv.skip(k as int),
                    (variation as int, color_id as int),
                ),
            decreases parts@.len() - k,
        {
            let part = &parts[k];
            proof {
                assert(pv.skip(k as int)[0] == part@);
                assert(pv.skip(k as int).skip(1) =~= pv.skip(k + 1));
            }
            if part.len() > 0 && part[0] == 'C' {
                let mut rest: Vec<char> = Vec::new();
                let mut j: usize = 1;
                while j < part.len()
                    invariant
                        1 <= j <= part@.len(),
                        rest@ == part@.subrange(1, j as int),
                    decreases part@.len() - j,
                {
                    rest.push(part[j]);
                    j = j + 1;
                }
                proof {
                    assert(rest@ =~= part@.skip(1));
                }
                match parse_u64(&rest) {
                    Some(c) => {
                        if c > 0xffff {
                            return Err(BlockError::InvalidIdFormat);
                        }
                        color_id = c as u16;
                    },
                    None => {
                        return Err(BlockError::InvalidIdFormat);
                    },
                }
            } else {
                match parse_u64(part) {
                    Some(v) => {
                        if v > 0xffff {
                            return Err(BlockError::InvalidIdFormat);
                        }
                        variation = v as u16;
                    },
                    None => {
                        return Err(BlockError::InvalidIdFormat);
                    },
                }
            }
            k = k + 1;
        }
        proof {
            assert(pv.skip(parts@.len() as int) =~= Seq::<Seq<char>>::empty());
        }
        Ok(BlockId { base_id: base, variation, color_id })
    }
}

/// A sub-block: one cell of the inner grid of a block.
#[derive(Debug, Clone, Copy)]
pub struct SubBlock {
    pub id: BlockId,
    pub metadata: u8,
    pub facing: BlockFacing,
    pub orientation: BlockOrientation,
    pub connections: ConnectedDirections,
}

impl SubBlock {
    /// A sub-block of `id` with no metadata, no facing, the wall orientation
    /// and no connection.
    pub fn new(id: BlockId) -> (r: Self)
        ensures
            r.id == id,
            r.metadata == 0,
            r.facing == BlockFacing::NoFacing,
            r.orientation == BlockOrientation::Wall,
            r.connections.spec_bits() == 0,
    {
        SubBlock {
            id,
            metadata: 0,
            facing: BlockFacing::NoFacing,
            orientation: BlockOrientation::Wall,
            connections: ConnectedDirections::empty(),
        }
    }

    /// Replaces the connections.
    pub fn update_connections(&mut self, directions: ConnectedDirections)
        ensures
            final(self).connections == directions,
            final(self).id == old(self).id,
            final(self).metadata == old(self).metadata,
            final(self).facing == old(self).facing,
            final(self).orientation == old(self).orientation,
    {
        self.connections = directions;
    }

    /// Whether every direction of `direction` is among the connections.
    pub fn has_connection(&self, direction: ConnectedDirections) -> (r: bool)
        ensures
            r == (self.connections.spec_bits() & direction.spec_bits() == direction.spec_bits()),
    {
        self.connections.contains(direction)
    }

    pub fn set_facing(&mut self, facing: BlockFacing)
        ensures
            final(self).facing == facing,
            final(self).id == old(self).id,
            final(self).metadata == old(self).metadata,
            final(self).orientation == old(self).orientation,
            final(self).connections == old(self).connections,
    {
        self.facing = facing;
    }

    pub fn set_orientation(&mut self, orientation: BlockOrientation)
        ensures
            final(self).orientation == orientation,
            final(self).id == old(self).id,
            final(self).metadata == old(self).metadata,
            final(self).facing == old(self).facing,
            final(self).connections == old(self).connections,
    {
        self.orientation = orientation;
    }
}

/// A position in the inner grid of a block.
pub type GridPos = (u8, u8, u8);

/// The grid that a list of placements describes: a later placement at a
/// position replaces an earlier one.
pub open spec fn grid_of(s: Seq<(GridPos, SubBlock)>) -> Map<GridPos, SubBlock>
    decreases s.len(),
{
    if s.len() == 0 {
        Map::empty()
    } else {
        grid_of(s.drop_last()).insert(s.last().0, s.last().1)
    }
}

/// Whether no position is placed twice.
pub open spec fn positions_unique(s: Seq<(GridPos, SubBlock)>) -> bool {
    forall|i: int, j: int| 0 <= i < j < s.len() ==> #[trigger] s[i].0 != #[trigger] s[j].0
}

/// With distinct positions, each placement is what the grid holds there.
proof fn lemma_grid_at(s: Seq<(GridPos, SubBlock)>, i: int)
    requires
        positions_unique(s),
        0 <= i < s.len(),
    ensures
        grid_of(s).dom().contains(s[i].0),
        grid_of(s)[s[i].0] == s[i].1,
    decreases s.len(),
{
    if i < s.len() - 1 {
        let d = s.drop_last();
        assert(d[i] == s[i]);
        assert(positions_unique(d)) by {
            assert forall|a: int, b: int| 0 <= a < b < d.len() implies #[trigger] d[a].0 != #[trigger] d[b].0 by {
                assert(d[a] == s[a] && d[b] == s[b]);
            }
        }
        lemma_grid_at(d, i);
        assert(s[i].0 != s[s.len() - 1].0);
    }
}

/// Replacing the sub-block at a placed position replaces it in the grid.
proof fn lemma_grid_update(s: Seq<(GridPos, SubBlock)>, i: int, v: SubBlock)
    requires
        positions_unique(s),
        0 <= i < s.len(),
    ensures
        grid_of(s.update(i, (s[i].0, v))) == grid_of(s).insert(s[i].0, v),
    decreases s.len(),
{
    let t = s.update(i, (s[i].0, v));
    let d = s.drop_last();
    if i == s.len() - 1 {
        assert(t.drop_last() =~= d);
        assert(grid_of(t) =~= grid_of(s).insert(s[i].0, v));
    } else {
        assert(positions_unique(d)) by {
            assert forall|a: int, b: int| 0 <= a < b < d.len() implies #[trigger] d[a].0 != #[trigger] d[b].0 by {
                assert(d[a] == s[a] && d[b] == s[b]);
            }
        }
        assert(d[i] == s[i]);
        lemma_grid_update(d, i, v);
        assert(t.drop_last() =~= d.update(i, (s[i].0, v)));
        assert(s[i].0 != s.last().0);
        assert(grid_of(t) =~= grid_of(s).insert(s[i].0, v));
    }
}

/// A block: a grid of sub-blocks at a resolution, and its connections.
#[derive(Debug, Clone)]
pub struct Block {
    pub sub_blocks: Vec<(GridPos, SubBlock)>,
    pub resolution: u8,
    pub current_connections: ConnectedDirections,
}

impl Block {
    /// The sub-blocks by grid position.
    pub open spec fn grid(&self) -> Map<GridPos, SubBlock> {
        grid_of(self.sub_blocks@)
    }

    /// The placements hold each position once.
    pub open spec fn wf(&self) -> bool {
        positions_unique(self.sub_blocks@)
    }

    /// An empty block at a resolution (the id is not recorded: the block's
    /// identity comes from the sub-blocks placed in it).
    pub fn new(id: BlockId, resolution: u8) -> (r: Self)
        ensures
            r.wf(),
            r.sub_blocks@.len() == 0,
            r.grid() == Map::<GridPos, SubBlock>::empty(),
            r.resolution == resolution,
            r.current_connections.spec_bits() == 0,
    {
        Block {
            sub_blocks: Vec::new(),
            resolution,
            current_connections: ConnectedDirections::empty(),
        }
    }

    /// Puts `sub` at grid position (x, y, z), replacing what was there.
    pub fn place_sub_block(&mut self, x: u8, y: u8, z: u8, sub: SubBlock)
        requires
            old(self).wf(),
        ensures
            final(self).wf(),
            final(self).grid() == old(self).grid().insert((x, y, z), sub),
            final(self).resolution == old(self).resolution,
            final(self).current_connections == old(self).current_connections,
    {
        let key: GridPos = (x, y, z);
        let mut i: usize = 0;
        while i < self.sub_blocks.len()
            invariant
                i <= self.sub_blocks@.len(),
                key == (x, y, z),
                self.sub_blocks@ == old(self).sub_blocks@,
                self.resolution == old(self).resolution,
                self.current_connections == old(self).current_connections,
                positions_unique(old(self).sub_blocks@),
                forall|j: int| 0 <= j < i ==> #[trigger] self.sub_blocks@[j].0 != key,
            decreases self.sub_blocks@.len() - i,
        {
            let p: GridPos = self.sub_blocks[i].0;
            if p.0 == x && p.1 == y && p.2 == z {
                proof {
                    assert(p == key);
                    lemma_grid_update(self.sub_blocks@, i as int, sub);
                }
                self.sub_blocks.set(i, (key, sub));
                proof {
                    assert forall|a: int, b: int|
                        0 <= a < b < self.sub_blocks@.len() implies #[trigger] self.sub_blocks@[a].0
                        != #[trigger] self.sub_blocks@[b].0 by {
                        assert(self.sub_blocks@[a].0 == old(self).sub_blocks@[a].0);
                        assert(self.sub_blocks@[b].0 == old(self).sub_blocks@[b].0);
                    }
                }
                return;
            }
            i = i + 1;
        }
        let ghost s0 = self.sub_blocks@;
        self.sub_blocks.push((key, sub));
        proof {
            assert(self.sub_blocks@.drop_last() =~= s0);
            assert forall|a: int, b: int|
                0 <= a < b < self.sub_blocks@.len() implies #[trigger] self.sub_blocks@[a].0
                != #[trigger] self.sub_blocks@[b].0 by {
                if b < s0.len() {
                    assert(self.sub_blocks@[a] == s0[a] && self.sub_blocks@[b] == s0[b]);
                } else {
                    assert(self.sub_blocks@[a] == s0[a]);
                }
            }
        }
    }

    /// The id of one of the sub-blocks, or the id of base 0 when there is
    /// none.
    pub fn get_primary_id(&self) -> (r: BlockId)
        requires
            self.wf(),
        ensures
            self.grid().dom().len() == 0 ==> r == BlockId::new_spec(0),
            self.grid().dom().len() != 0 ==> exists|k: GridPos|
                self.grid().dom().contains(k) && #[trigger] self.grid()[k].id == r,
    {
        if self.sub_blocks.len() == 0 {
            proof {
                assert(self.grid() =~= Map::<GridPos, SubBlock>::empty());
            }
            BlockId::new(0)
        } else {
            proof {
                lemma_grid_at(self.sub_blocks@, 0);
                let k = self.sub_blocks@[0].0;
                assert(self.grid().dom().contains(k));
                lemma_grid_finite(self.sub_blocks@);
                assert(self.grid().dom().len() != 0);
            }
            self.sub_blocks[0].1.id
        }
    }
}

/// A grid of finitely many placements is finite.
proof fn lemma_grid_finite(s: Seq<(GridPos, SubBlock)>)
    ensures
        grid_of(s).dom().finite(),
    decreases s.len(),
{
    if s.len() > 0 {
        lemma_grid_finite(s.drop_last());
    }
}

} // verus!
