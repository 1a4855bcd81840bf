//! The registry of block definitions: definitions by block id, with the
//! definitions of their variations and color variations, ids by name, and
//! the ids registered under each base id. Colors are kept in thousandths.
use vstd::prelude::*;
use crate::assoc::{assoc, find_key};
use crate::block::{facing_name, generate_texture_name, BlockCategory, BlockFacing, BlockId, BlockOrientation};
use crate::number::decimal;
use crate::text::chars_of;

verus! {

/// The properties a block has as a whole.
#[derive(Debug, Clone, Copy, PartialEq, Eq, Structural)]
pub struct BlockFlags {
    pub transparent: bool,
    pub emissive: bool,
    pub flammable: bool,
    pub conductive: bool,
    pub magnetic: bool,
    pub liquid: bool,
    pub climbable: bool,
    pub occludes: bool,
    pub solid: bool,
}

/// A variation of a block: its id, its name, and the face textures it
/// replaces.
pub struct BlockVariant {
    pub id: u16,
    pub name: String,
    pub texture_overrides: Vec<(BlockFacing, String)>,
}

/// A color variation of a block: its id, its name and its color (red,
/// green, blue, alpha in thousandths).
#[derive(Debug, Clone, PartialEq, Eq)]
pub struct ColorVariant {
    pub id: u16,
    pub name: String,
    pub color: [i32; 4],
}

/// A block definition. `texture_faces` lists face textures; a later entry
/// for a face replaces an earlier one.
pub struct BlockDefinition {
    pub id: BlockId,
    pub name: String,
    pub category: BlockCategory,
    pub default_facing: BlockFacing,
    pub default_orientation: BlockOrientation,
    pub connects_to: Vec<BlockCategory>,
    pub texture_faces: Vec<(BlockFacing, String)>,
    pub flags: BlockFlags,
    pub variations: Vec<BlockVariant>,
    pub color_variations: Vec<ColorVariant>,
}

/// Whether two variations are equal.
pub open spec fn variant_same(a: BlockVariant, b: BlockVariant) -> bool {
    a.id == b.id && a.name == b.name && a.texture_overrides@ == b.texture_overrides@
}

/// Whether two lists of variations are equal.
pub open spec fn variants_same(a: Seq<BlockVariant>, b: Seq<BlockVariant>) -> bool {
    a.len() == b.len() && forall|i: int| 0 <= i < a.len() ==> variant_same(#[trigger] a[i], b[i])
}

/// Whether two definitions agree on everything but id, name and faces.
pub open spec fn same_kind(a: BlockDefinition, b: BlockDefinition) -> bool {
    &&& a.category == b.category
    &&& a.default_facing == b.default_facing
    &&& a.default_orientation == b.default_orientation
    &&& a.connects_to@ == b.connects_to@
    &&& a.flags == b.flags
    &&& variants_same(a.variations@, b.variations@)
    &&& a.color_variations@ == b.color_variations@
}

/// Whether two definitions are equal.
pub open spec fn def_same(a: BlockDefinition, b: BlockDefinition) -> bool {
    &&& a.id == b.id
    &&& a.name == b.name
    &&& a.texture_faces@ == b.texture_faces@
    &&& same_kind(a, b)
}

/// The definition of variation `v` of `base`: the variation's id under the
/// base id and its name, the base's faces with the variation's replacements.
pub open spec fn variant_def(base: BlockDefinition, v: BlockVariant, d: BlockDefinition) -> bool {
    &&& d.id == (BlockId { base_id: base.id.base_id, variation: v.id, color_id: 0 })
    &&& d.name == v.name
    &&& d.texture_faces@ == base.texture_faces@ + v.texture_overrides@
    &&& same_kind(d, base)
}

/// The definition of color variation `c` of `base`: the color's id under
/// the base id, named "<base name> <color name>", otherwise the base.
pub open spec fn color_def(base: BlockDefinition, c: ColorVariant, d: BlockDefinition) -> bool {
    &&& d.id == (BlockId { base_id: base.id.base_id, variation: 0, color_id: c.id })
    &&& d.name@ == base.name@ + " "@ + c.name@
    &&& d.texture_faces@ == base.texture_faces@
    &&& same_kind(d, base)
}

/// A copy of a list of face textures.
fn copy_faces(faces: &Vec<(BlockFacing, String)>) -> (r: Vec<(BlockFacing, String)>)
    ensures
        r@ == faces@,
{
    let mut r: Vec<(BlockFacing, String)> = Vec::new();
    let mut i: usize = 0;
    while i < faces.len()
        invariant
            i <= faces@.len(),
            r@ == faces@.take(i as int),
        decreases faces@.len() - i,
    {
        let f = faces[i].0;
        let t = faces[i].1.clone();
        r.push((f, t));
        proof {
            assert(faces@.take(i + 1) =~= faces@.take(i as int).push(faces@[i as int]));
        }
        i = i + 1;
    }
    proof {
        assert(faces@.take(faces@.len() as int) =~= faces@);
    }
    r
}

impl BlockVariant {
    /// An equal copy.
    pub fn duplicate(&self) -> (r: Self)
        ensures
            variant_same(r, *self),
    {
        BlockVariant { id: self.id, name: self.name.clone(), texture_overrides: copy_faces(&self.texture_overrides) }
    }
}

impl ColorVariant {
    /// An equal copy.
    pub fn duplicate(&self) -> (r: Self)
        ensures
            r == *self,
    {
        ColorVariant { id: self.id, name: self.name.clone(), color: self.color }
    }
}

impl BlockDefinition {
    /// An equal copy.
    pub fn duplicate(&self) -> (r: Self)
        ensures
            def_same(r, *self),
    {
        let mut connects_to: Vec<BlockCategory> = Vec::new();
        let mut i: usize = 0;
        while i < self.connects_to.len()
            invariant
                i <= self.connects_to@.len(),
                connects_to@ == self.connects_to@.take(i as int),
            decreases self.connects_to@.len() - i,
        {
            connects_to.push(self.connects_to[i]);
            proof {
                assert(self.connects_to@.take(i + 1) =~= self.connects_to@.take(i as int).push(self.connects_to@[i as int]));
            }
            i = i + 1;
        }
        let mut variations: Vec<BlockVariant> = Vec::new();
        let mut j: usize = 0;
        while j < self.variations.len()
            invariant
                j <= self.variations@.len(),
                variations@.len() == j,
                forall|k: int| 0 <= k < j ==> variant_same(#[trigger] variations@[k], self.variations@[k]),
            decreases self.variations@.len() - j,
        {
            variations.push(self.variations[j].duplicate());
            j = j + 1;
        }
        let mut colors: Vec<ColorVariant> = Vec::new();
        let mut k: usize = 0;
        while k < self.color_variations.len()
            invariant
                k <= self.color_variations@.len(),
                colors@ == self.color_variations@.take(k as int),
            decreases self.color_variations@.len() - k,
        {
            colors.push(self.color_variations[k].duplicate());
            proof {
                assert(self.color_variations@.take(k + 1) =~= self.color_variations@.take(k as int).push(
                    self.color_variations@[k as int],
                ));
            }
            k = k + 1;
        }
        proof {
            assert(self.connects_to@.take(self.connects_to@.len() as int) =~= self.connects_to@);
            assert(self.color_variations@.take(self.color_variations@.len() as int) =~= self.color_variations@);
        }
        BlockDefinition {
            id: self.id,
            name: self.name.clone(),
            category: self.category,
            default_facing: self.default_facing,
            default_orientation: self.default_orientation,
            connects_to,
            texture_faces: copy_faces(&self.texture_faces),
            flags: self.flags,
            variations,
            color_variations: colors,
        }
    }
}

/// The definition registered last under `id` in `s`.
pub open spec fn def_in(s: Seq<(BlockId, BlockDefinition)>, id: BlockId) -> Option<BlockDefinition>
    decreases s.len(),
{
    if s.len() == 0 {
        None
    } else if s.last().0 == id {
        Some(s.last().1)
    } else {
        def_in(s.drop_last(), id)
    }
}

/// The ids registered last under base id `base` in `s`.
pub open spec fn ids_in(s: Seq<(u32, Vec<BlockId>)>, base: u32) -> Seq<BlockId>
    decreases s.len(),
{
    if s.len() == 0 {
        Seq::empty()
    } else if s.last().0 == base {
        s.last().1@
    } else {
        ids_in(s.drop_last(), base)
    }
}

/// The position of the last variation of `vs` whose id under `base` is `k`,
/// or -1.
pub open spec fn last_variant(vs: Seq<BlockVariant>, base: u32, k: BlockId) -> int
    decreases vs.len(),
{
    if vs.len() == 0 {
        -1
    } else if (BlockId { base_id: base, variation: vs.last().id, color_id: 0 }) == k {
        vs.len() - 1
    } else {
        last_variant(vs.drop_last(), base, k)
    }
}

/// The position of the last color variation of `cs` whose id under `base`
/// is `k`, or -1.
pub open spec fn last_color(cs: Seq<ColorVariant>, base: u32, k: BlockId) -> int
    decreases cs.len(),
{
    if cs.len() == 0 {
        -1
    } else if (BlockId { base_id: base, variation: 0, color_id: cs.last().id }) == k {
        cs.len() - 1
    } else {
        last_color(cs.drop_last(), base, k)
    }
}

/// The position of the first variation of `vs` with id `vid`, or -1.
pub open spec fn first_variant(vs: Seq<BlockVariant>, vid: u16) -> int
    decreases vs.len(),
{
    if vs.len() == 0 {
        -1
    } else {
        let f = first_variant(vs.drop_last(), vid);
        if f >= 0 {
            f
        } else if vs.last().id == vid {
            vs.len() - 1
        } else {
            -1
        }
    }
}

/// The position of the first color variation of `cs` with id `cid`, or -1.
pub open spec fn first_color(cs: Seq<ColorVariant>, cid: u16) -> int
    decreases cs.len(),
{
    if cs.len() == 0 {
        -1
    } else {
        let f = first_color(cs.drop_last(), cid);
        if f >= 0 {
            f
        } else if cs.last().id == cid {
            cs.len() - 1
        } else {
            -1
        }
    }
}

/// The first color variation of `d` with id `cid`, if any.
pub open spec fn color_of(d: BlockDefinition, cid: u16) -> Option<ColorVariant> {
    let f = first_color(d.color_variations@, cid);
    if f >= 0 {
        Some(d.color_variations@[f])
    } else {
        None
    }
}

/// Without a match in the first `i` color variations, their first match is
/// none.
proof fn lemma_first_color_none(cs: Seq<ColorVariant>, cid: u16, i: int)
    requires
        0 <= i <= cs.len(),
        forall|j: int| 0 <= j < i ==> (#[trigger] cs[j]).id != cid,
    ensures
        first_color(cs.take(i), cid) == -1,
    decreases i,
{
    if i > 0 {
        lemma_first_color_none(cs, cid, i - 1);
        assert(cs.take(i).drop_last() =~= cs.take(i - 1));
    }
}

/// The first color variation with id `cid` is the first that has it.
proof fn lemma_first_color_found(cs: Seq<ColorVariant>, cid: u16, i: int)
    requires
        0 <= i < cs.len(),
        cs[i].id == cid,
        forall|j: int| 0 <= j < i ==> (#[trigger] cs[j]).id != cid,
    ensures
        first_color(cs, cid) == i,
    decreases cs.len(),
{
    if i < cs.len() - 1 {
        lemma_first_color_found(cs.drop_last(), cid, i);
    } else {
        lemma_first_color_none(cs, cid, i);
        assert(cs.take(i) =~= cs.drop_last());
    }
}

/// The first variation with id `vid` is the first that has it.
proof fn lemma_first_variant_found(vs: Seq<BlockVariant>, vid: u16, i: int)
    requires
        0 <= i < vs.len(),
        vs[i].id == vid,
        forall|j: int| 0 <= j < i ==> (#[trigger] vs[j]).id != vid,
    ensures
        first_variant(vs, vid) == i,
    decreases vs.len(),
{
    if i < vs.len() - 1 {
        lemma_first_variant_found(vs.drop_last(), vid, i);
    } else {
        lemma_first_variant_none(vs, vid, i);
        assert(vs.take(i) =~= vs.drop_last());
    }
}

/// Without a match in the first `i` variations, their first match is none.
proof fn lemma_first_variant_none(vs: Seq<BlockVariant>, vid: u16, i: int)
    requires
        0 <= i <= vs.len(),
        forall|j: int| 0 <= j < i ==> (#[trigger] vs[j]).id != vid,
    ensures
        first_variant(vs.take(i), vid) == -1,
    decreases i,
{
    if i > 0 {
        lemma_first_variant_none(vs, vid, i - 1);
        assert(vs.take(i).drop_last() =~= vs.take(i - 1));
    }
}

/// The colored ids among `ids` whose definition has a color variation of
/// their color id, with that variation's color, in order.
pub open spec fn colors_in(defs: spec_fn(BlockId) -> Option<BlockDefinition>, ids: Seq<BlockId>) -> Seq<(BlockId, [i32; 4])>
    decreases ids.len(),
{
    if ids.len() == 0 {
        Seq::empty()
    } else {
        let id = ids.last();
        let rest = colors_in(defs, ids.drop_last());
        if id.color_id != 0 && defs(id) is Some && color_of(defs(id).unwrap(), id.color_id) is Some {
            rest.push((id, color_of(defs(id).unwrap(), id.color_id).unwrap().color))
        } else {
            rest
        }
    }
}

/// What registering `def` leaves under id `k`: the definition of its last
/// color variation with that id, else of its last variation with that id,
/// else `def` itself when `k` is its id, else what was there.
pub open spec fn after_add(before: Option<BlockDefinition>, def: BlockDefinition, k: BlockId, after: Option<BlockDefinition>) -> bool {
    let base = def.id.base_id;
    let ci = last_color(def.color_variations@, base, k);
    let vi = last_variant(def.variations@, base, k);
    if ci >= 0 {
        after matches Some(d) && color_def(def, def.color_variations@[ci], d)
    } else if vi >= 0 {
        after matches Some(d) && variant_def(def, def.variations@[vi], d)
    } else if k == def.id {
        after matches Some(d) && def_same(d, def)
    } else {
        after == before
    }
}

/// The color id that palette entry `i` gets: i + 1, in 16 bits.
pub open spec fn palette_color_id(i: int) -> u16 {
    ((i + 1) % 0x1_0000) as u16
}

/// The position of the last palette entry whose color id under `base` is
/// `k`, among the first `n`, or -1.
pub open spec fn last_palette(n: int, base: u32, k: BlockId) -> int
    decreases n,
{
    if n <= 0 {
        -1
    } else if (BlockId { base_id: base, variation: 0, color_id: palette_color_id(n - 1) }) == k {
        n - 1
    } else {
        last_palette(n - 1, base, k)
    }
}

/// The definition that palette entry `i` (`color`, `name`) of `base` gets:
/// the entry's color id under the base id, named "<base name> <name>", the
/// base with this color variation added.
pub open spec fn palette_def(base_id: u32, base: BlockDefinition, i: int, color: [i32; 4], name: String, d: BlockDefinition) -> bool {
    let c = ColorVariant { id: palette_color_id(i), name: name, color: color };
    &&& d.id == (BlockId { base_id: base_id, variation: 0, color_id: palette_color_id(i) })
    &&& d.name@ == base.name@ + " "@ + name@
    &&& d.texture_faces@ == base.texture_faces@
    &&& d.category == base.category
    &&& d.default_facing == base.default_facing
    &&& d.default_orientation == base.default_orientation
    &&& d.connects_to@ == base.connects_to@
    &&& d.flags == base.flags
    &&& variants_same(d.variations@, base.variations@)
    &&& d.color_variations@ == base.color_variations@.push(c)
}

/// The definitions by block id, the ids by name, and the ids registered
/// under each base id.
pub struct BlockRegistry {
    blocks: Vec<(BlockId, BlockDefinition)>,
    name_to_id: Vec<(String, BlockId)>,
    base_id_to_variants: Vec<(u32, Vec<BlockId>)>,
}

impl BlockRegistry {
    /// The definition registered under `id`, if any.
    pub closed spec fn def_of(&self, id: BlockId) -> Option<BlockDefinition> {
        def_in(self.blocks@, id)
    }

    /// The ids by block name.
    pub closed spec fn names(&self) -> Map<Seq<char>, BlockId> {
        assoc(self.name_to_id@)
    }

    /// The ids registered under a base id, in order.
    pub closed spec fn ids_of(&self, base: u32) -> Seq<BlockId> {
        ids_in(self.base_id_to_variants@, base)
    }

    /// An empty registry.
    pub fn new() -> (r: Self)
        ensures
            forall|id: BlockId| #[trigger] r.def_of(id) is None,
            r.names() == Map::<Seq<char>, BlockId>::empty(),
            forall|b: u32| #[trigger] r.ids_of(b) == Seq::<BlockId>::empty(),
    {
        BlockRegistry { blocks: Vec::new(), name_to_id: Vec::new(), base_id_to_variants: Vec::new() }
    }

    /// A registry holding the built-in blocks (see `default_blocks`).
    pub fn initialize_default() -> (r: Self)
        ensures
            r.names() == map!["stone"@ => BlockId::new_spec(1), "grass"@ => BlockId::new_spec(2)],
            r.def_of(BlockId::new_spec(1)) matches Some(d) && is_stone(d),
            r.def_of(BlockId::new_spec(2)) matches Some(d) && is_grass(d),
            forall|k: BlockId|
                k != BlockId::new_spec(1) && k != BlockId::new_spec(2) ==> #[trigger] r.def_of(k) is None,
            r.ids_of(1) == seq![BlockId::new_spec(1)],
            r.ids_of(2) == seq![BlockId::new_spec(2)],
            forall|b: u32| b != 1 && b != 2 ==> #[trigger] r.ids_of(b) == Seq::<BlockId>::empty(),
    {
        let mut registry = Self::new();
        let mut blocks = default_blocks();
        let grass = blocks.pop().unwrap();
        let stone = blocks.pop().unwrap();
        let ghost r0 = registry;
        registry.add_block(stone);
        let ghost r1 = registry;
        registry.add_block(grass);
        proof {
            assert(last_color(stone.color_variations@, 1, BlockId::new_spec(1)) == -1);
            assert(last_variant(stone.variations@, 1, BlockId::new_spec(1)) == -1);
            assert forall|k: BlockId|
                k != BlockId::new_spec(1) && k != BlockId::new_spec(2) implies #[trigger] registry.def_of(k) is None by {
                assert(last_color(grass.color_variations@, 2, k) == -1);
                assert(last_variant(grass.variations@, 2, k) == -1);
                assert(last_color(stone.color_variations@, 1, k) == -1);
                assert(last_variant(stone.variations@, 1, k) == -1);
                assert(after_add(r1.def_of(k), grass, k, registry.def_of(k)));
                assert(after_add(r0.def_of(k), stone, k, r1.def_of(k)));
            }
            let k1 = BlockId::new_spec(1);
            assert(last_color(grass.color_variations@, 2, k1) == -1);
            assert(last_variant(grass.variations@, 2, k1) == -1);
            assert(after_add(r1.def_of(k1), grass, k1, registry.def_of(k1)));
            assert(after_add(r0.def_of(k1), stone, k1, r1.def_of(k1)));
            let k2 = BlockId::new_spec(2);
            assert(last_color(grass.color_variations@, 2, k2) == -1);
            assert(last_variant(grass.variations@, 2, k2) == -1);
            assert(after_add(r1.def_of(k2), grass, k2, registry.def_of(k2)));
            assert(registry.names() =~= map!["stone"@ => BlockId::new_spec(1), "grass"@ => BlockId::new_spec(2)]);
            assert(registry.ids_of(1) =~= seq![BlockId::new_spec(1)]);
            assert(registry.ids_of(2) =~= seq![BlockId::new_spec(2)]);
        }
        registry
    }

    /// The ids registered under `base`.
    fn ids_under(&self, base: u32) -> (r: Vec<BlockId>)
        ensures
            r@ == self.ids_of(base),
    {
        let mut i: usize = self.base_id_to_variants.len();
        proof {
            assert(self.base_id_to_variants@.take(i as int) =~= self.base_id_to_variants@);
        }
        while i > 0
            invariant
                i <= self.base_id_to_variants@.len(),
                ids_in(self.base_id_to_variants@, base) == ids_in(self.base_id_to_variants@.take(i as int), base),
            decreases i,
        {
            proof {
                let s = self.base_id_to_variants@.take(i as int);
                assert(s.drop_last() =~= self.base_id_to_variants@.take(i - 1));
                assert(s.last() == self.base_id_to_variants@[i - 1]);
            }
            if self.base_id_to_variants[i - 1].0 == base {
                let v = &self.base_id_to_variants[i - 1].1;
                let mut r: Vec<BlockId> = Vec::new();
                let mut j: usize = 0;
                while j < v.len()
                    invariant
                        j <= v@.len(),
                        r@ == v@.take(j as int),
                    decreases v@.len() - j,
                {
                    r.push(v[j]);
                    proof {
                        assert(v@.take(j + 1) =~= v@.take(j as int).push(v@[j as int]));
                    }
                    j = j + 1;
                }
                proof {
                    assert(v@.take(v@.len() as int) =~= v@);
                }
                return r;
            }
            i = i - 1;
        }
        proof {
            assert(self.base_id_to_variants@.take(0) =~= Seq::<(u32, Vec<BlockId>)>::empty());
        }
        Vec::new()
    }

    /// Adds `id` to the ids registered under `base`.
    fn push_id(&mut self, base: u32, id: BlockId)
        ensures
            forall|b: u32| #[trigger] final(self).ids_of(b) == if b == base {
                old(self).ids_of(base).push(id)
            } else {
                old(self).ids_of(b)
            },
            final(self).blocks@ == old(self).blocks@,
            final(self).name_to_id@ == old(self).name_to_id@,
    {
        let mut ids = self.ids_under(base);
        ids.push(id);
        self.base_id_to_variants.push((base, ids));
        proof {
            assert(self.base_id_to_variants@.drop_last() =~= old(self).base_id_to_variants@);
        }
    }

    /// Registers `def` under `id`.
    fn put(&mut self, id: BlockId, def: BlockDefinition)
        ensures
            forall|k: BlockId| #[trigger] final(self).def_of(k) == if k == id {
                Some(def)
            } else {
                old(self).def_of(k)
            },
            final(self).name_to_id@ == old(self).name_to_id@,
            final(self).base_id_to_variants@ == old(self).base_id_to_variants@,
    {
        self.blocks.push((id, def));
        proof {
            assert(self.blocks@.drop_last() =~= old(self).blocks@);
        }
    }

    /// Registers a definition: the definition under its id, its name, its id
    /// under its base id, then each variation and each color variation under
    /// its own id (see `after_add`).
    pub fn add_block(&mut self, def: BlockDefinition)
        ensures
            forall|k: BlockId| #[trigger] after_add(old(self).def_of(k), def, k, final(self).def_of(k)),
            final(self).names() == old(self).names().insert(def.name@, def.id),
            forall|b: u32| #[trigger] final(self).ids_of(b) == if b == def.id.base_id {
                old(self).ids_of(b).push(def.id)
            } else {
                old(self).ids_of(b)
            },
    {
        let id = def.id;
        let base = id.base_id;
        let first = def.duplicate();
        self.put(id, first);
        let ghost after_put = *self;
        self.name_to_id.push((def.name.clone(), id));
        proof {
            assert(self.name_to_id@.drop_last() =~= old(self).name_to_id@);
        }
        self.push_id(base, id);
        proof {
            assert forall|k: BlockId| {
                let vi = #[trigger] last_variant(def.variations@.take(0), base, k);
                if vi >= 0 {
                    self.def_of(k) matches Some(d) && variant_def(def, def.variations@[vi], d)
                } else if k == id {
                    self.def_of(k) matches Some(d) && def_same(d, def)
                } else {
                    self.def_of(k) == old(self).def_of(k)
                }
            } by {
                assert(def.variations@.take(0) =~= Seq::<BlockVariant>::empty());
                assert(self.blocks@ == after_put.blocks@);
                assert(self.def_of(k) == after_put.def_of(k));
            }
        }
        let mut i: usize = 0;
        while i < def.variations.len()
            invariant
                i <= def.variations@.len(),
                id == def.id,
                base == id.base_id,
                self.names() == old(self).names().insert(def.name@, def.id),
                forall|b: u32| #[trigger] self.ids_of(b) == if b == base {
                    old(self).ids_of(b).push(id)
                } else {
                    old(self).ids_of(b)
                },
                forall|k: BlockId| {
                    let vi = #[trigger] last_variant(def.variations@.take(i as int), base, k);
                    if vi >= 0 {
                        self.def_of(k) matches Some(d) && variant_def(def, def.variations@[vi], d)
                    } else if k == id {
                        self.def_of(k) matches Some(d) && def_same(d, def)
                    } else {
                        self.def_of(k) == old(self).def_of(k)
                    }
                },
            decreases def.variations@.len() - i,
        {
            let v = &def.variations[i];
            let vid = BlockId { base_id: base, variation: v.id, color_id: 0 };
            let mut vdef = def.duplicate();
            vdef.id = vid;
            vdef.name = v.name.clone();
            let mut f: usize = 0;
            let ghost faces0 = vdef.texture_faces@;
            while f < v.texture_overrides.len()
                invariant
                    f <= v.texture_overrides@.len(),
                    vdef.texture_faces@ == faces0 + v.texture_overrides@.take(f as int),
                    vdef.id == vid,
                    vdef.name == v.name,
                    same_kind(vdef, def),
                decreases v.texture_overrides@.len() - f,
            {
                let face = v.texture_overrides[f].0;
                let tex = v.texture_overrides[f].1.clone();
                vdef.texture_faces.push((face, tex));
                proof {
                    assert(v.texture_overrides@.take(f + 1) =~= v.texture_overrides@.take(f as int).push(
                        v.texture_overrides@[f as int],
                    ));
                }
                f = f + 1;
            }
            proof {
                assert(v.texture_overrides@.take(v.texture_overrides@.len() as int) =~= v.texture_overrides@);
                assert(variant_def(def, def.variations@[i as int], vdef));
            }
            let ghost pre = *self;
            self.put(vid, vdef);
            proof {
                let t = def.variations@.take(i + 1);
                assert(t.drop_last() =~= def.variations@.take(i as int));
                assert(t.last() == def.variations@[i as int]);
                assert forall|b: u32| #[trigger] self.ids_of(b) == if b == base {
                    old(self).ids_of(b).push(id)
                } else {
                    old(self).ids_of(b)
                } by {
                    assert(self.ids_of(b) == pre.ids_of(b));
                }
                assert forall|k: BlockId| {
                    let vi = #[trigger] last_variant(t, base, k);
                    if vi >= 0 {
                        self.def_of(k) matches Some(d) && variant_def(def, def.variations@[vi], d)
                    } else if k == id {
                        self.def_of(k) matches Some(d) && def_same(d, def)
                    } else {
                        self.def_of(k) == old(self).def_of(k)
                    }
                } by {
                    let p = last_variant(def.variations@.take(i as int), base, k);
                    if k != vid {
                        assert(self.def_of(k) == pre.def_of(k));
                    }
                }
            }
            i = i + 1;
        }
        proof {
            assert(def.variations@.take(def.variations@.len() as int) =~= def.variations@);
            assert forall|k: BlockId| {
                let ci = #[trigger] last_color(def.color_variations@.take(0), base, k);
                let vi = last_variant(def.variations@, base, k);
                if ci >= 0 {
                    self.def_of(k) matches Some(d) && color_def(def, def.color_variations@[ci], d)
                } else if vi >= 0 {
                    self.def_of(k) matches Some(d) && variant_def(def, def.variations@[vi], d)
                } else if k == id {
                    self.def_of(k) matches Some(d) && def_same(d, def)
                } else {
                    self.def_of(k) == old(self).def_of(k)
                }
            } by {
                assert(def.color_variations@.take(0) =~= Seq::<ColorVariant>::empty());
                assert(last_variant(def.variations@.take(def.variations@.len() as int), base, k) == last_variant(def.variations@, base, k));
            }
        }
        let mut c: usize = 0;
        while c < def.color_variations.len()
            invariant
                c <= def.color_variations@.len(),
                id == def.id,
                base == id.base_id,
                self.names() == old(self).names().insert(def.name@, def.id),
                forall|b: u32| #[trigger] self.ids_of(b) == if b == base {
                    old(self).ids_of(b).push(id)
                } else {
                    old(self).ids_of(b)
                },
                forall|k: BlockId| {
                    let ci = #[trigger] last_color(def.color_variations@.take(c as int), base, k);
                    let vi = last_variant(def.variations@, base, k);
                    if ci >= 0 {
                        self.def_of(k) matches Some(d) && color_def(def, def.color_variations@[ci], d)
                    } else if vi >= 0 {
                        self.def_of(k) matches Some(d) && variant_def(def, def.variations@[vi], d)
                    } else if k == id {
                        self.def_of(k) matches Some(d) && def_same(d, def)
                    } else {
                        self.def_of(k) == old(self).def_of(k)
                    }
                },
            decreases def.color_variations@.len() - c,
        {
            let cv = &def.color_variations[c];
            let cid = BlockId { base_id: base, variation: 0, color_id: cv.id };
            let mut cdef = def.duplicate();
            cdef.id = cid;
            let mut name = def.name.clone();
            name.append(" ");
            name.append(cv.name.as_str());
            cdef.name = name;
            proof {
                reveal_strlit(" ");
                assert(color_def(def, def.color_variations@[c as int], cdef));
            }
            let ghost pre = *self;
            self.put(cid, cdef);
            proof {
                let t = def.color_variations@.take(c + 1);
                assert(t.drop_last() =~= def.color_variations@.take(c as int));
                assert(t.last() == def.color_variations@[c as int]);
                assert forall|b: u32| #[trigger] self.ids_of(b) == if b == base {
                    old(self).ids_of(b).push(id)
                } else {
                    old(self).ids_of(b)
                } by {
                    assert(self.ids_of(b) == pre.ids_of(b));
                }
                assert forall|k: BlockId| {
                    let ci = #[trigger] last_color(t, base, k);
                    let vi = last_variant(def.variations@, base, k);
                    if ci >= 0 {
                        self.def_of(k) matches Some(d) && color_def(def, def.color_variations@[ci], d)
                    } else if vi >= 0 {
                        self.def_of(k) matches Some(d) && variant_def(def, def.variations@[vi], d)
                    } else if k == id {
                        self.def_of(k) matches Some(d) && def_same(d, def)
                    } else {
                        self.def_of(k) == old(self).def_of(k)
                    }
                } by {
                    let p = last_color(def.color_variations@.take(c as int), base, k);
                    if k != cid {
                        assert(self.def_of(k) == pre.def_of(k));
                    }
                }
            }
            c = c + 1;
        }
        proof {
            assert(def.color_variations@.take(def.color_variations@.len() as int) =~= def.color_variations@);
        }
    }

    /// The definition registered under `id`, if any.
    pub fn get(&self, id: BlockId) -> (r: Option<&BlockDefinition>)
        ensures
            match self.def_of(id) {
                Some(d) => r == Some(&d),
                None => r is None,
            },
    {
        let mut i: usize = self.blocks.len();
        proof {
            assert(self.blocks@.take(i as int) =~= self.blocks@);
        }
        while i > 0
            invariant
                i <= self.blocks@.len(),
                def_in(self.blocks@, id) == def_in(self.blocks@.take(i as int), id),
            decreases i,
        {
            proof {
                let s = self.blocks@.take(i as int);
                assert(s.drop_last() =~= self.blocks@.take(i - 1));
                assert(s.last() == self.blocks@[i - 1]);
            }
            if self.blocks[i - 1].0 == id {
                return Some(&self.blocks[i - 1].1);
            }
            i = i - 1;
        }
        None
    }

    /// The definition of a base block (no variation, no color).
    pub fn get_base(&self, base_id: u32) -> (r: Option<&BlockDefinition>)
        ensures
            match self.def_of(BlockId::new_spec(base_id)) {
                Some(d) => r == Some(&d),
                None => r is None,
            },
    {
        self.get(BlockId::new(base_id))
    }

    /// The variation of the definition of `id` that has its variation id.
    pub fn get_variant(&self, id: BlockId) -> (r: Option<&BlockVariant>)
        ensures
            match self.def_of(id) {
                Some(d) => {
                    let f = first_variant(d.variations@, id.variation);
                    if f >= 0 {
                        r == Some(&d.variations@[f])
                    } else {
                        r is None
                    }
                },
                None => r is None,
            },
    {
        let d = match self.get(id) {
            Some(d) => d,
            None => return None,
        };
        let mut i: usize = 0;
        while i < d.variations.len()
            invariant
                i <= d.variations@.len(),
                self.def_of(id) == Some(*d),
                forall|j: int| 0 <= j < i ==> (#[trigger] d.variations@[j]).id != id.variation,
            decreases d.variations@.len() - i,
        {
            if d.variations[i].id == id.variation {
                proof {
                    lemma_first_variant_found(d.variations@, id.variation, i as int);
                }
                return Some(&d.variations[i]);
            }
            i = i + 1;
        }
        proof {
            lemma_first_variant_none(d.variations@, id.variation, d.variations@.len() as int);
            assert(d.variations@.take(d.variations@.len() as int) =~= d.variations@);
        }
        None
    }

    /// The color variation of the definition of `id` that has its color id.
    pub fn get_color_variant(&self, id: BlockId) -> (r: Option<&ColorVariant>)
        ensures
            match self.def_of(id) {
                Some(d) => match color_of(d, id.color_id) {
                    Some(c) => r == Some(&c),
                    None => r is None,
                },
                None => r is None,
            },
    {
        let d = match self.get(id) {
            Some(d) => d,
            None => return None,
        };
        let mut i: usize = 0;
        while i < d.color_variations.len()
            invariant
                i <= d.color_variations@.len(),
                self.def_of(id) == Some(*d),
                forall|j: int| 0 <= j < i ==> (#[trigger] d.color_variations@[j]).id != id.color_id,
            decreases d.color_variations@.len() - i,
        {
            if d.color_variations[i].id == id.color_id {
                proof {
                    lemma_first_color_found(d.color_variations@, id.color_id, i as int);
                }
                return Some(&d.color_variations[i]);
            }
            i = i + 1;
        }
        proof {
            lemma_first_color_none(d.color_variations@, id.color_id, d.color_variations@.len() as int);
            assert(d.color_variations@.take(d.color_variations@.len() as int) =~= d.color_variations@);
        }
        None
    }

    /// The definition of the block named `name`, if any.
    pub fn get_by_name(&self, name: &str) -> (r: Option<&BlockDefinition>)
        ensures
            self.names().contains_key(name@) ==> match self.def_of(self.names()[name@]) {
                Some(d) => r == Some(&d),
                None => r is None,
            },
            !self.names().contains_key(name@) ==> r is None,
    {
        let key = chars_of(name);
        match find_key(&self.name_to_id, &key) {
            Some(i) => self.get(self.name_to_id[i].1),
            None => None,
        }
    }

    /// The colored ids registered under `base` that have their color
    /// variation, with its color.
    pub fn get_all_colors(&self, base_id: u32) -> (r: Vec<(BlockId, [i32; 4])>)
        ensures
            r@ == colors_in(|k: BlockId| self.def_of(k), self.ids_of(base_id)),
    {
        let ids = self.ids_under(base_id);
        let ghost defs = |k: BlockId| self.def_of(k);
        let mut r: Vec<(BlockId, [i32; 4])> = Vec::new();
        let mut i: usize = 0;
        while i < ids.len()
            invariant
                i <= ids@.len(),
                ids@ == self.ids_of(base_id),
                defs == (|k: BlockId| self.def_of(k)),
                r@ == colors_in(defs, ids@.take(i as int)),
            decreases ids@.len() - i,
        {
            let id = ids[i];
            proof {
                assert(ids@.take(i + 1).drop_last() =~= ids@.take(i as int));
                assert(ids@.take(i + 1).last() == id);
            }
            if id.color_id != 0 {
                match self.get_color_variant(id) {
                    Some(v) => {
                        r.push((id, v.color));
                    },
                    None => {},
                }
            }
            i = i + 1;
        }
        proof {
            assert(ids@.take(ids@.len() as int) =~= ids@);
        }
        r
    }

    /// Registers a palette of colors for the base block `base_id`: entry `i`
    /// (`color`, `name`) becomes color id i + 1 (in 16 bits), registered
    /// under that id as the base definition with the color variation added
    /// and named "<base name> <name>", and listed under the base id. Nothing
    /// happens when the base block is not registered.
    pub fn add_color_palette(&mut self, base_id: u32, palette: &Vec<([i32; 4], String)>)
        ensures
            final(self).names() == old(self).names(),
            old(self).def_of(BlockId::new_spec(base_id)) is None ==> {
                &&& forall|k: BlockId| #[trigger] final(self).def_of(k) == old(self).def_of(k)
                &&& forall|b: u32| #[trigger] final(self).ids_of(b) == old(self).ids_of(b)
            },
            old(self).def_of(BlockId::new_spec(base_id)) matches Some(bd) ==> {
                &&& forall|k: BlockId| {
                    let pi = #[trigger] last_palette(palette@.len() as int, base_id, k);
                    if pi >= 0 {
                        final(self).def_of(k) matches Some(d) && palette_def(base_id, bd, pi, palette@[pi].0, palette@[pi].1, d)
                    } else {
                        final(self).def_of(k) == old(self).def_of(k)
                    }
                }
                &&& forall|b: u32| #[trigger] final(self).ids_of(b) == if b == base_id {
                    old(self).ids_of(b) + Seq::new(
                        palette@.len(),
                        |i: int| BlockId { base_id, variation: 0, color_id: palette_color_id(i) },
                    )
                } else {
                    old(self).ids_of(b)
                }
            },
    {
        let base_def = match self.get_base(base_id) {
            Some(d) => d.duplicate(),
            None => return,
        };
        let ghost bd = self.def_of(BlockId::new_spec(base_id)).unwrap();
        let ghost added = Seq::new(
            palette@.len(),
            |i: int| BlockId { base_id, variation: 0, color_id: palette_color_id(i) },
        );
        let mut i: usize = 0;
        while i < palette.len()
            invariant
                i <= palette@.len(),
                def_same(base_def, bd),
                added == Seq::new(
                    palette@.len(),
                    |i: int| BlockId { base_id, variation: 0, color_id: palette_color_id(i) },
                ),
                self.names() == old(self).names(),
                forall|b: u32| #[trigger] self.ids_of(b) == if b == base_id {
                    old(self).ids_of(b) + added.take(i as int)
                } else {
                    old(self).ids_of(b)
                },
                forall|k: BlockId| {
                    let pi = #[trigger] last_palette(i as int, base_id, k);
                    if pi >= 0 {
                        self.def_of(k) matches Some(d) && palette_def(base_id, bd, pi, palette@[pi].0, palette@[pi].1, d)
                    } else {
                        self.def_of(k) == old(self).def_of(k)
                    }
                },
            decreases palette@.len() - i,
        {
            let color_id: u16 = ((i + 1) % 0x1_0000) as u16;
            let cid = BlockId { base_id, variation: 0, color_id };
            let mut cdef = base_def.duplicate();
            cdef.id = cid;
            let mut name = base_def.name.clone();
            name.append(" ");
            name.append(palette[i].1.as_str());
            cdef.name = name;
            cdef.color_variations.push(ColorVariant { id: color_id, name: palette[i].1.clone(), color: palette[i].0 });
            proof {
                reveal_strlit(" ");
                assert(palette_def(base_id, bd, i as int, palette@[i as int].0, palette@[i as int].1, cdef));
            }
            let ghost pre = *self;
            self.put(cid, cdef);
            let ghost mid = *self;
            self.push_id(base_id, cid);
            proof {
                assert(added[i as int] == cid);
                assert(added.take(i + 1) =~= added.take(i as int).push(cid));
                assert forall|b: u32| #[trigger] self.ids_of(b) == if b == base_id {
                    old(self).ids_of(b) + added.take(i + 1)
                } else {
                    old(self).ids_of(b)
                } by {
                    assert(mid.ids_of(b) == pre.ids_of(b));
                    if b == base_id {
                        assert(old(self).ids_of(b) + added.take(i + 1) =~= (old(self).ids_of(b) + added.take(i as int)).push(cid));
                    }
                }
                assert forall|k: BlockId| {
                    let pi = #[trigger] last_palette(i + 1, base_id, k);
                    if pi >= 0 {
                        self.def_of(k) matches Some(d) && palette_def(base_id, bd, pi, palette@[pi].0, palette@[pi].1, d)
                    } else {
                        self.def_of(k) == old(self).def_of(k)
                    }
                } by {
                    let p = last_palette(i as int, base_id, k);
                    assert(self.blocks@ == mid.blocks@);
                    assert(self.def_of(k) == mid.def_of(k));
                    if k != cid {
                        assert(mid.def_of(k) == pre.def_of(k));
                    }
                }
            }
            i = i + 1;
        }
        proof {
            assert(added.take(palette@.len() as int) =~= added);
        }
    }
}

/// The flags of the built-in blocks: solid and occluding.
pub open spec fn builtin_flags() -> BlockFlags {
    BlockFlags {
        transparent: false,
        emissive: false,
        flammable: false,
        conductive: false,
        magnetic: false,
        liquid: false,
        climbable: false,
        occludes: true,
        solid: true,
    }
}

/// Whether `d` is a built-in block: base block `base` named `name`, solid,
/// without facing, connections, variations or colors.
pub open spec fn builtin_def(d: BlockDefinition, base: u32, name: Seq<char>) -> bool {
    &&& d.id == BlockId::new_spec(base)
    &&& d.name@ == name
    &&& d.category == BlockCategory::Solid
    &&& d.default_facing == BlockFacing::NoFacing
    &&& d.default_orientation == BlockOrientation::Wall
    &&& d.connects_to@.len() == 0
    &&& d.flags == builtin_flags()
    &&& d.variations@.len() == 0
    &&& d.color_variations@.len() == 0
}

/// The faces in the order the built-in blocks list their textures.
pub open spec fn builtin_faces() -> Seq<BlockFacing> {
    seq![BlockFacing::North, BlockFacing::South, BlockFacing::East, BlockFacing::West, BlockFacing::Up, BlockFacing::Down]
}

/// Stone: each face has the texture "1_<face>.png".
pub open spec fn is_stone(d: BlockDefinition) -> bool {
    &&& builtin_def(d, 1, "stone"@)
    &&& d.texture_faces@.len() == 6
    &&& forall|i: int| 0 <= i < 6 ==> (#[trigger] d.texture_faces@[i]).0 == builtin_faces()[i]
        && d.texture_faces@[i].1@ == decimal(1) + "_"@ + facing_name(builtin_faces()[i]) + ".png"@
}

/// Grass: grass on top, dirt below, grass sides around.
pub open spec fn is_grass(d: BlockDefinition) -> bool {
    &&& builtin_def(d, 2, "grass"@)
    &&& d.texture_faces@.len() == 6
    &&& d.texture_faces@[0].0 == BlockFacing::Up && d.texture_faces@[0].1@ == "grass_top.png"@
    &&& d.texture_faces@[1].0 == BlockFacing::Down && d.texture_faces@[1].1@ == "dirt.png"@
    &&& d.texture_faces@[2].0 == BlockFacing::North && d.texture_faces@[2].1@ == "grass_side.png"@
    &&& d.texture_faces@[3].0 == BlockFacing::South && d.texture_faces@[3].1@ == "grass_side.png"@
    &&& d.texture_faces@[4].0 == BlockFacing::East && d.texture_faces@[4].1@ == "grass_side.png"@
    &&& d.texture_faces@[5].0 == BlockFacing::West && d.texture_faces@[5].1@ == "grass_side.png"@
}

/// A built-in block with the given faces.
fn builtin_block(base: u32, name: &str, texture_faces: Vec<(BlockFacing, String)>) -> (r: BlockDefinition)
    ensures
        builtin_def(r, base, name@),
        r.texture_faces@ == texture_faces@,
{
    BlockDefinition {
        id: BlockId::new(base),
        name: String::from_str(name),
        category: BlockCategory::Solid,
        default_facing: BlockFacing::NoFacing,
        default_orientation: BlockOrientation::Wall,
        connects_to: Vec::new(),
        texture_faces,
        flags: BlockFlags {
            transparent: false,
            emissive: false,
            flammable: false,
            conductive: false,
            magnetic: false,
            liquid: false,
            climbable: false,
            occludes: true,
            solid: true,
        },
        variations: Vec::new(),
        color_variations: Vec::new(),
    }
}

/// The built-in block definitions: stone, then grass.
pub fn default_blocks() -> (r: Vec<BlockDefinition>)
    ensures
        r@.len() == 2,
        is_stone(r@[0]),
        is_grass(r@[1]),
{
    let mut stone_faces: Vec<(BlockFacing, String)> = Vec::new();
    stone_faces.push((BlockFacing::North, generate_texture_name(1, BlockFacing::North)));
    stone_faces.push((BlockFacing::South, generate_texture_name(1, BlockFacing::South)));
    stone_faces.push((BlockFacing::East, generate_texture_name(1, BlockFacing::East)));
    stone_faces.push((BlockFacing::West, generate_texture_name(1, BlockFacing::West)));
    stone_faces.push((BlockFacing::Up, generate_texture_name(1, BlockFacing::Up)));
    stone_faces.push((BlockFacing::Down, generate_texture_name(1, BlockFacing::Down)));
    let stone = builtin_block(1, "stone", stone_faces);
    let mut grass_faces: Vec<(BlockFacing, String)> = Vec::new();
    grass_faces.push((BlockFacing::Up, String::from_str("grass_top.png")));
    grass_faces.push((BlockFacing::Down, String::from_str("dirt.png")));
    grass_faces.push((BlockFacing::North, String::from_str("grass_side.png")));
    grass_faces.push((BlockFacing::South, String::from_str("grass_side.png")));
    grass_faces.push((BlockFacing::East, String::from_str("grass_side.png")));
    grass_faces.push((BlockFacing::West, String::from_str("grass_side.png")));
    let grass = builtin_block(2, "grass", grass_faces);
    let mut r: Vec<BlockDefinition> = Vec::new();
    r.push(stone);
    r.push(grass);
    proof {
        assert(is_stone(r@[0])) by {
            assert forall|i: int| 0 <= i < 6 implies (#[trigger] r@[0].texture_faces@[i]).0 == builtin_faces()[i]
                && r@[0].texture_faces@[i].1@ == decimal(1) + "_"@ + facing_name(builtin_faces()[i]) + ".png"@ by {}
        }
    }
    r
}

/// No variation's id under `base` is `k`.
proof fn lemma_no_variant(vs: Seq<BlockVariant>, base: u32, k: BlockId)
    requires
        forall|i: int| 0 <= i < vs.len() ==> (BlockId { base_id: base, variation: (#[trigger] vs[i]).id, color_id: 0 }) != k,
    ensures
        last_variant(vs, base, k) == -1,
    decreases vs.len(),
{
    if vs.len() > 0 {
        lemma_no_variant(vs.drop_last(), base, k);
    }
}

/// No color variation's id under `base` is `k`.
proof fn lemma_no_color(cs: Seq<ColorVariant>, base: u32, k: BlockId)
    requires
        forall|i: int| 0 <= i < cs.len() ==> (BlockId { base_id: base, variation: 0, color_id: (#[trigger] cs[i]).id }) != k,
    ensures
        last_color(cs, base, k) == -1,
    decreases cs.len(),
{
    if cs.len() > 0 {
        lemma_no_color(cs.drop_last(), base, k);
    }
}

/// A registered block is found under its id and its name, when none of its
/// variations or color variations takes its id.
pub proof fn lemma_registered_block_found(before: BlockRegistry, after: BlockRegistry, def: BlockDefinition)
    requires
        forall|k: BlockId| #[trigger] after_add(before.def_of(k), def, k, after.def_of(k)),
        after.names() == before.names().insert(def.name@, def.id),
        forall|i: int|
            0 <= i < def.variations@.len() ==> (BlockId {
                base_id: def.id.base_id,
                variation: (#[trigger] def.variations@[i]).id,
                color_id: 0,
            }) != def.id,
        forall|i: int|
            0 <= i < def.color_variations@.len() ==> (BlockId {
                base_id: def.id.base_id,
                variation: 0,
                color_id: (#[trigger] def.color_variations@[i]).id,
            }) != def.id,
    ensures
        after.def_of(def.id) matches Some(d) && def_same(d, def),
        after.names().contains_key(def.name@),
        after.names()[def.name@] == def.id,
{
    lemma_no_variant(def.variations@, def.id.base_id, def.id);
    lemma_no_color(def.color_variations@, def.id.base_id, def.id);
    assert(after_add(before.def_of(def.id), def, def.id, after.def_of(def.id)));
}

} // verus!
