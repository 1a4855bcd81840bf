//! The block registry: block templates by one-digit base id, each with
//! default properties and variants by id suffix. A full block id is the base
//! id followed by a variant suffix, such as "1HNM1.0S".
use vstd::prelude::*;
use vstd::string::*;
use crate::assoc::{assoc, find_key};
use crate::text::{chars_of, join_path, path_join};
use crate::voxel::block::{Block, BlockError, BlockProperties, FULL_HEALTH, AMBIENT_TEMPERATURE};

verus! {

/// Errors of the block registry.
#[derive(Debug, PartialEq, Eq)]
pub enum RegistryError {
    IoError(String),
    ParseError(String),
    DefinitionError(String),
    MissingTexture(String),
}

/// Block properties as written in a block definition file; real numbers in
/// thousandths.
pub struct RawBlockProperties {
    pub friction: i32,
    pub restitution: i32,
    pub density: i32,
    pub viscosity: i32,
    pub is_solid: bool,
    pub is_liquid: bool,
    pub is_transparent: bool,
    pub break_time: i32,
    pub light_emission: u8,
    pub texture: String,
    /// min x, min y, min z, max x, max y, max z.
    pub collision_box: [i32; 6],
}

/// The properties that a variant replaces; real numbers in thousandths.
pub struct RawVariantOverride {
    pub friction: Option<i32>,
    pub restitution: Option<i32>,
    pub density: Option<i32>,
    pub is_solid: Option<bool>,
    pub texture: Option<String>,
    pub collision_box: Option<[i32; 6]>,
}

/// A block definition file: base id, default properties, and variants by
/// id suffix.
pub struct RawBlockDefinition {
    pub base_id: String,
    pub default_properties: RawBlockProperties,
    pub variants: Option<Vec<(String, RawVariantOverride)>>,
}

/// A registered block: its default properties and its variants by id suffix.
pub struct BlockTemplate {
    pub base_id: String,
    pub default_properties: BlockProperties,
    pub variants: Vec<(String, BlockProperties)>,
}

/// The registry of block templates, by base id.
pub struct BlockRegistry {
    templates: Vec<(String, BlockTemplate)>,
    texture_dir: String,
}

/// Whether a file exists at `path` (`std::path::Path::exists`). The answer
/// depends on the file system, so nothing is stated of it.
#[verifier::external_body]
fn path_exists(path: &str) -> bool {
    std::path::Path::new(path).exists()
}

/// Whether a character is a decimal digit.
pub open spec fn is_digit(c: char) -> bool {
    '0' <= c <= '9'
}

/// Whether a character may stand in the numeric part of a variant id: a
/// digit or a dot.
pub open spec fn is_numeric_char(c: char) -> bool {
    is_digit(c) || c == '.'
}

/// Whether a character is a physics letter: S, P, C, L, B or Y.
pub open spec fn is_physics_letter(c: char) -> bool {
    c == 'S' || c == 'P' || c == 'C' || c == 'L' || c == 'B' || c == 'Y'
}

/// Whether the physics part of a variant id starts at `k`: the characters
/// from 3 up to `k` are digits and dots, the one at `k` is a physics letter,
/// and digits alone follow it.
pub open spec fn physics_at(id: Seq<char>, k: int) -> bool {
    &&& 3 <= k < id.len()
    &&& forall|j: int| 3 <= j < k ==> is_numeric_char(#[trigger] id[j])
    &&& is_physics_letter(id[k])
    &&& forall|j: int| k < j < id.len() ==> is_digit(#[trigger] id[j])
}

/// The variant id format `[FHQS][NSEWUD][LMHI][0-9.]*[SPCLBY][0-9]*`:
/// integrity, orientation and density letters, a numeric part of digits
/// and dots, a physics letter, then digits.
pub open spec fn valid_variant_id(id: Seq<char>) -> bool {
    &&& id.len() >= 4
    &&& (id[0] == 'F' || id[0] == 'H' || id[0] == 'Q' || id[0] == 'S')
    &&& (id[1] == 'N' || id[1] == 'S' || id[1] == 'E' || id[1] == 'W' || id[1] == 'U' || id[1] == 'D')
    &&& (id[2] == 'L' || id[2] == 'M' || id[2] == 'H' || id[2] == 'I')
    &&& exists|k: int| physics_at(id, k)
}

/// The value a variant sets, or the default when it sets none.
pub open spec fn or_default<T>(v: Option<T>, d: T) -> T {
    match v {
        Some(x) => x,
        None => d,
    }
}

/// The texture file a definition names for a variant (or for the default
/// properties when `variant` is `None`).
pub open spec fn texture_name(base: RawBlockProperties, variant: Option<RawVariantOverride>) -> Seq<
    char,
> {
    match variant {
        Some(o) => match o.texture {
            Some(t) => t@,
            None => base.texture@,
        },
        None => base.texture@,
    }
}

/// The collision box of six numbers as (min corner, max corner).
pub open spec fn box_of(b: [i32; 6]) -> ((i32, i32, i32), (i32, i32, i32)) {
    ((b@[0], b@[1], b@[2]), (b@[3], b@[4], b@[5]))
}

/// `p` holds the properties of a definition's default properties `base`
/// with the replacements of `variant`, its texture under directory `dir`.
pub open spec fn converted(
    p: BlockProperties,
    dir: Seq<char>,
    base: RawBlockProperties,
    variant: Option<RawVariantOverride>,
) -> bool {
    let o = variant;
    &&& p.friction == (match o {
        Some(v) => or_default(v.friction, base.friction),
        None => base.friction,
    })
    &&& p.restitution == (match o {
        Some(v) => or_default(v.restitution, base.restitution),
        None => base.restitution,
    })
    &&& p.density == (match o {
        Some(v) => or_default(v.density, base.density),
        None => base.density,
    })
    &&& p.viscosity == base.viscosity
    &&& p.is_solid == (match o {
        Some(v) => or_default(v.is_solid, base.is_solid),
        None => base.is_solid,
    })
    &&& p.is_liquid == base.is_liquid
    &&& p.is_transparent == base.is_transparent
    &&& p.break_time == base.break_time
    &&& p.light_emission == base.light_emission
    &&& p.texture_path@ == path_join(dir, texture_name(base, variant))
    &&& p.collision_box == box_of(
        match o {
            Some(v) => or_default(v.collision_box, base.collision_box),
            None => base.collision_box,
        },
    )
}

/// The override a reference stands for.
pub open spec fn deref_override(o: Option<&RawVariantOverride>) -> Option<RawVariantOverride> {
    match o {
        Some(v) => Some(*v),
        None => None,
    }
}

/// The variant entries of a definition (none when it has no variant list).
pub open spec fn variant_entries(raw: RawBlockDefinition) -> Seq<(String, RawVariantOverride)> {
    match raw.variants {
        Some(v) => v@,
        None => Seq::empty(),
    }
}

/// `t` is the template a definition makes, its textures under `dir`: the
/// converted default properties, and each variant of the definition, in
/// order, with its converted properties.
pub open spec fn template_from(t: BlockTemplate, dir: Seq<char>, raw: RawBlockDefinition) -> bool {
    let vs = variant_entries(raw);
    &&& t.base_id@ == raw.base_id@
    &&& converted(t.default_properties, dir, raw.default_properties, None)
    &&& t.variants@.len() == vs.len()
    &&& forall|i: int|
        0 <= i < vs.len() ==> (#[trigger] t.variants@[i]).0@ == vs[i].0@ && converted(
            t.variants@[i].1,
            dir,
            raw.default_properties,
            Some(vs[i].1),
        )
}

/// The result of checking a block's texture: the properties when the texture
/// was found or the block is transparent, else the missing texture's path.
pub fn finish_properties(props: BlockProperties, texture_found: bool) -> (r: Result<
    BlockProperties,
    RegistryError,
>)
    ensures
        texture_found || props.is_transparent ==> r == Ok::<BlockProperties, RegistryError>(props),
        !texture_found && !props.is_transparent ==> (r matches Err(RegistryError::MissingTexture(
            p,
        )) && p@ == props.texture_path@),
{
    if !texture_found && !props.is_transparent {
        let path = props.texture_path.clone();
        return Err(RegistryError::MissingTexture(path));
    }
    Ok(props)
}

impl BlockRegistry {
    /// The registered templates, by base id.
    pub closed spec fn templates_map(&self) -> Map<Seq<char>, BlockTemplate> {
        assoc(self.templates@)
    }

    /// The directory of the texture files.
    pub closed spec fn textures(&self) -> Seq<char> {
        self.texture_dir@
    }

    /// The properties of a full block id: its first character is the base id
    /// (an ASCII character), the rest the variant suffix; a template without
    /// that variant gives its default properties.
    pub open spec fn lookup(&self, id: Seq<char>) -> Option<BlockProperties> {
        if id.len() == 0 || id[0] as u32 >= 128 {
            None
        } else {
            let m = self.templates_map();
            let base = seq![id[0]];
            if !m.contains_key(base) {
                None
            } else {
                let vm = assoc(m[base].variants@);
                if vm.contains_key(id.skip(1)) {
                    Some(vm[id.skip(1)])
                } else {
                    Some(m[base].default_properties)
                }
            }
        }
    }

    /// A registry with the built-in blocks: air (base id "0") and stone (base
    /// id "1", with the half-height variant "HNM1.0S").
    pub fn new(texture_dir: &str) -> (r: Result<Self, RegistryError>)
        ensures
            r matches Ok(reg) && reg.textures() == texture_dir@ && builtin_blocks(reg),
            r matches Ok(reg) && reg.templates_map().dom() == set![seq!['0'], seq!['1']],
    {
        let mut registry = BlockRegistry { templates: Vec::new(), texture_dir: String::from_str(texture_dir) };
        assert(registry.templates_map() == Map::<Seq<char>, BlockTemplate>::empty());
        registry.load_default_blocks();
        assert(registry.templates_map().dom() =~= set![seq!['0'], seq!['1']]);
        Ok(registry)
    }

    fn load_default_blocks(&mut self)
        ensures
            final(self).textures() == old(self).textures(),
            builtin_blocks(*final(self)),
            final(self).templates_map().dom() == old(self).templates_map().dom().insert(seq!['0']).insert(seq!['1']),
    {
        proof {
            reveal_strlit("0");
            reveal_strlit("1");
            reveal_strlit("HNM1.0S");
        }
        let ghost t0 = self.templates@;
        let air = BlockTemplate {
            base_id: String::from_str("0"),
            default_properties: BlockProperties {
                friction: 0,
                restitution: 0,
                density: 0,
                viscosity: 0,
                is_solid: false,
                is_liquid: false,
                is_transparent: true,
                break_time: 0,
                light_emission: 0,
                texture_path: String::new(),
                collision_box: ((0, 0, 0), (0, 0, 0)),
            },
            variants: Vec::new(),
        };
        self.templates.push((String::from_str("0"), air));
        let stone = BlockProperties {
            friction: 600,
            restitution: 100,
            density: 2700,
            viscosity: 0,
            is_solid: true,
            is_liquid: false,
            is_transparent: false,
            break_time: 1500,
            light_emission: 0,
            texture_path: join_path(self.texture_dir.as_str(), "stone.png"),
            collision_box: ((0, 0, 0), (1000, 1000, 1000)),
        };
        let mut half = stone.duplicate();
        half.is_solid = false;
        half.collision_box = ((0, 0, 0), (1000, 500, 1000));
        let mut variants: Vec<(String, BlockProperties)> = Vec::new();
        variants.push((String::from_str("HNM1.0S"), half));
        let stone_template = BlockTemplate {
            base_id: String::from_str("1"),
            default_properties: stone,
            variants,
        };
        let ghost t1 = self.templates@;
        self.templates.push((String::from_str("1"), stone_template));
        proof {
            assert(self.templates@.drop_last() =~= t1);
            assert(t1.drop_last() =~= t0);
            let vs = self.templates@.last().1.variants@;
            assert(vs.drop_last() =~= Seq::<(String, BlockProperties)>::empty());
            assert(assoc(vs.drop_last()) == Map::<Seq<char>, BlockProperties>::empty());
            assert(assoc(vs).dom() =~= set!["HNM1.0S"@]);
            assert(seq!['0'][0] != seq!['1'][0]);
            assert("0"@ =~= seq!['0']);
            assert("1"@ =~= seq!['1']);
            let m = self.templates_map();
            assert(assoc(t1) == assoc(t0).insert(t1.last().0@, t1.last().1));
            assert(m == assoc(t1).insert(self.templates@.last().0@, self.templates@.last().1));
            assert(t1.last().0@ == "0"@);
            assert(self.templates@.last().0@ == "1"@);
            assert(m.contains_key(seq!['0']));
            assert(m[seq!['0']] == t1.last().1);
            assert(assoc(m[seq!['0']].variants@) =~= Map::<Seq<char>, BlockProperties>::empty());
            assert(m.dom() =~= assoc(t0).dom().insert(seq!['0']).insert(seq!['1']));
        }
    }

    /// The properties of a definition's default properties with the
    /// replacements of a variant, the texture path under the texture
    /// directory. Fails with the texture's path when the texture file is
    /// missing and the block is not transparent.
    pub fn convert_properties(&self, base: &RawBlockProperties, variant: Option<&RawVariantOverride>) -> (r:
        Result<BlockProperties, RegistryError>)
        ensures
            match r {
                Ok(p) => converted(p, self.textures(), *base, deref_override(variant)),
                Err(e) => !base.is_transparent && (e matches RegistryError::MissingTexture(path)
                    && path@ == path_join(self.textures(), texture_name(*base, deref_override(variant)))),
            },
            base.is_transparent ==> r is Ok,
    {
        let mut friction = base.friction;
        let mut restitution = base.restitution;
        let mut density = base.density;
        let mut is_solid = base.is_solid;
        let mut b = base.collision_box;
        let mut texture = join_path(self.texture_dir.as_str(), base.texture.as_str());
        match variant {
            Some(v) => {
                match v.friction {
                    Some(f) => {
                        friction = f;
                    },
                    None => {},
                }
                match v.restitution {
                    Some(x) => {
                        restitution = x;
                    },
                    None => {},
                }
                match v.density {
                    Some(d) => {
                        density = d;
                    },
                    None => {},
                }
                match v.is_solid {
                    Some(x) => {
                        is_solid = x;
                    },
                    None => {},
                }
                match &v.texture {
                    Some(t) => {
                        texture = join_path(self.texture_dir.as_str(), t.as_str());
                    },
                    None => {},
                }
                match v.collision_box {
                    Some(x) => {
                        b = x;
                    },
                    None => {},
                }
            },
            None => {},
        }
        let props = BlockProperties {
            friction,
            restitution,
            density,
            viscosity: base.viscosity,
            is_solid,
            is_liquid: base.is_liquid,
            is_transparent: base.is_transparent,
            break_time: base.break_time,
            light_emission: base.light_emission,
            texture_path: texture,
            collision_box: ((b[0], b[1], b[2]), (b[3], b[4], b[5])),
        };
        let found = path_exists(props.texture_path.as_str());
        finish_properties(props, found)
    }

    /// Registers the template of a block definition under its base id,
    /// replacing any template with that id. The base id must be one decimal
    /// digit and each variant suffix must have the variant id format; the
    /// textures of non-transparent blocks must exist. On failure the registry
    /// is unchanged.
    pub fn load_block_definition(&mut self, raw: RawBlockDefinition) -> (r: Result<(), RegistryError>)
        ensures
            final(self).textures() == old(self).textures(),
            !(raw.base_id@.len() == 1 && is_digit(raw.base_id@[0])) ==> (r matches Err(
                RegistryError::DefinitionError(m),
            ) && m@ == "Invalid base ID: "@ + raw.base_id@),
            r is Err ==> final(self).templates_map() == old(self).templates_map(),
            r is Ok ==> {
                &&& raw.base_id@.len() == 1 && is_digit(raw.base_id@[0])
                &&& forall|i: int|
                    0 <= i < variant_entries(raw).len() ==> valid_variant_id(
                        (#[trigger] variant_entries(raw)[i]).0@,
                    )
                &&& final(self).templates_map().dom() == old(self).templates_map().dom().insert(
                    raw.base_id@,
                )
                &&& forall|k: Seq<char>|
                    k != raw.base_id@ && old(self).templates_map().contains_key(k)
                        ==> #[trigger] final(self).templates_map()[k] == old(self).templates_map()[k]
                &&& template_from(final(self).templates_map()[raw.base_id@], old(self).textures(), raw)
            },
            match r {
                Err(RegistryError::DefinitionError(m)) => raw.base_id@.len() == 1 && is_digit(
                    raw.base_id@[0],
                ) ==> exists|i: int|
                    0 <= i < variant_entries(raw).len() && !valid_variant_id(
                        (#[trigger] variant_entries(raw)[i]).0@,
                    ) && m@ == "Invalid variant ID suffix: "@ + variant_entries(raw)[i].0@
                        && forall|j: int| 0 <= j < i ==> valid_variant_id(variant_entries(raw)[j].0@),
                _ => true,
            },
            raw.base_id@.len() == 1 && is_digit(raw.base_id@[0]) && raw.default_properties.is_transparent
                && (forall|i: int|
                0 <= i < variant_entries(raw).len() ==> valid_variant_id(
                    (#[trigger] variant_entries(raw)[i]).0@,
                )) ==> r is Ok,
    {
        let bid = chars_of(raw.base_id.as_str());
        if bid.len() != 1 || !(bid[0] >= '0' && bid[0] <= '9') {
            let mut m = String::from_str("Invalid base ID: ");
            m.append(raw.base_id.as_str());
            return Err(RegistryError::DefinitionError(m));
        }
        let default_props = match self.convert_properties(&raw.default_properties, None) {
            Ok(p) => p,
            Err(e) => {
                return Err(e);
            },
        };
        let mut variants: Vec<(String, BlockProperties)> = Vec::new();
        let ghost vs = variant_entries(raw);
        match &raw.variants {
            Some(list) => {
                let mut i: usize = 0;
                while i < list.len()
                    invariant
                        vs == list@,
                        vs == variant_entries(raw),
                        raw.base_id@.len() == 1 && is_digit(raw.base_id@[0]),
                        i <= list@.len(),
                        variants@.len() == i,
                        forall|j: int| 0 <= j < i ==> valid_variant_id((#[trigger] vs[j]).0@),
                        forall|j: int|
                            0 <= j < i ==> (#[trigger] variants@[j]).0@ == vs[j].0@ && converted(
                                variants@[j].1,
                                self.textures(),
                                raw.default_properties,
                                Some(vs[j].1),
                            ),
                    decreases list@.len() - i,
                {
                    let (suffix, rv) = &list[i];
                    if !self.validate_variant_id(suffix.as_str()) {
                        let mut m = String::from_str("Invalid variant ID suffix: ");
                        m.append(suffix.as_str());
                        assert(!valid_variant_id(variant_entries(raw)[i as int].0@));
                        return Err(RegistryError::DefinitionError(m));
                    }
                    let props = match self.convert_properties(&raw.default_properties, Some(rv)) {
                        Ok(p) => p,
                        Err(e) => {
                            return Err(e);
                        },
                    };
                    variants.push((suffix.clone(), props));
                    i = i + 1;
                }
            },
            None => {},
        }
        let base_id = raw.base_id;
        let template = BlockTemplate { base_id: base_id.clone(), default_properties: default_props, variants };
        let ghost t0 = self.templates@;
        self.templates.push((base_id, template));
        proof {
            assert(self.templates@.drop_last() =~= t0);
            assert(self.templates_map() == assoc(t0).insert(raw.base_id@, template));
        }
        Ok(())
    }

    /// Whether a variant id suffix has the variant id format.
    pub fn validate_variant_id(&self, id: &str) -> (r: bool)
        ensures
            r == valid_variant_id(id@),
    {
        let cs = chars_of(id);
        if cs.len() < 1 {
            return false;
        }
        let c0 = cs[0];
        if !(c0 == 'F' || c0 == 'H' || c0 == 'Q' || c0 == 'S') {
            return false;
        }
        if cs.len() < 2 {
            return false;
        }
        let c1 = cs[1];
        if !(c1 == 'N' || c1 == 'S' || c1 == 'E' || c1 == 'W' || c1 == 'U' || c1 == 'D') {
            return false;
        }
        if cs.len() < 3 {
            return false;
        }
        let c2 = cs[2];
        if !(c2 == 'L' || c2 == 'M' || c2 == 'H' || c2 == 'I') {
            return false;
        }
        if cs.len() < 4 {
            return false;
        }
        let mut k: usize = 3;
        while k < cs.len() && (('0' <= cs[k] && cs[k] <= '9') || cs[k] == '.')
            invariant
                3 <= k <= cs@.len(),
                cs@ == id@,
                forall|j: int| 3 <= j < k ==> is_numeric_char(#[trigger] cs@[j]),
            decreases cs@.len() - k,
        {
            k = k + 1;
        }
        if k == cs.len() {
            proof {
                assert forall|q: int| !physics_at(id@, q) by {
                    if 3 <= q < id@.len() {
                        assert(is_numeric_char(cs@[q]));
                    }
                }
            }
            return false;
        }
        let p = cs[k];
        if !(p == 'S' || p == 'P' || p == 'C' || p == 'L' || p == 'B' || p == 'Y') {
            proof {
                assert forall|q: int| !physics_at(id@, q) by {
                    if physics_at(id@, q) {
                        if q < k {
                            assert(is_numeric_char(cs@[q]));
                        } else if q > k {
                            assert(is_numeric_char(cs@[k as int]));
                        }
                    }
                }
            }
            return false;
        }
        let mut j: usize = k + 1;
        while j < cs.len()
            invariant
                3 <= k < j <= cs@.len(),
                cs@ == id@,
                forall|i: int| 3 <= i < k ==> is_numeric_char(#[trigger] cs@[i]),
                is_physics_letter(cs@[k as int]),
                forall|i: int| k < i < j ==> is_digit(#[trigger] cs@[i]),
            decreases cs@.len() - j,
        {
            if !('0' <= cs[j] && cs[j] <= '9') {
                proof {
                    assert forall|q: int| !physics_at(id@, q) by {
                        if physics_at(id@, q) {
                            if q < k {
                                assert(is_numeric_char(cs@[q]));
                            } else if q > k {
                                assert(is_numeric_char(cs@[k as int]));
                            } else {
                                assert(is_digit(cs@[j as int]));
                            }
                        }
                    }
                }
                return false;
            }
            j = j + 1;
        }
        proof {
            assert(physics_at(id@, k as int));
        }
        true
    }

    /// The properties of a full block id (see `lookup`).
    pub fn get_properties(&self, full_id: &str) -> (r: Option<&BlockProperties>)
        ensures
            match self.lookup(full_id@) {
                Some(p) => r == Some(&p),
                None => r is None,
            },
    {
        let cs = chars_of(full_id);
        if cs.len() == 0 || (cs[0] as u32) >= 128 {
            return None;
        }
        let mut base: Vec<char> = Vec::new();
        base.push(cs[0]);
        assert(base@ =~= seq![full_id@[0]]);
        match find_key(&self.templates, &base) {
            None => None,
            Some(i) => {
                let t = &self.templates[i].1;
                let mut suffix: Vec<char> = Vec::new();
                let mut k: usize = 1;
                while k < cs.len()
                    invariant
                        1 <= k <= cs@.len(),
                        suffix@ == cs@.subrange(1, k as int),
                    decreases cs@.len() - k,
                {
                    suffix.push(cs[k]);
                    k = k + 1;
                }
                assert(suffix@ =~= full_id@.skip(1));
                match find_key(&t.variants, &suffix) {
                    Some(j) => Some(&t.variants[j].1),
                    None => Some(&t.default_properties),
                }
            },
        }
    }

    /// A new block with the properties of a full block id; fails with
    /// `UnknownType` when the id names no registered block.
    pub fn create_block(&self, full_id: &str, position: (i32, i32, i32)) -> (r: Result<
        Block,
        BlockError,
    >)
        ensures
            match self.lookup(full_id@) {
                None => r == Err::<Block, BlockError>(BlockError::UnknownType),
                Some(p) => r matches Ok(b) && b.id@ == full_id@ && b.position == position
                    && b.properties == p && b.health == FULL_HEALTH && b.light_level
                    == p.light_emission && b.temperature == AMBIENT_TEMPERATURE && b.last_updated
                    == 0,
            },
    {
        match self.get_properties(full_id) {
            None => Err(BlockError::UnknownType),
            Some(p) => Block::new(String::from_str(full_id), position, p.duplicate()),
        }
    }
}

/// The registry holds the built-in blocks: air under "0", with no variant;
/// stone under "1", with the half-height variant "HNM1.0S" (not solid,
/// half as high).
pub open spec fn builtin_blocks(reg: BlockRegistry) -> bool {
    let m = reg.templates_map();
    &&& m.contains_key(seq!['0'])
    &&& m.contains_key(seq!['1'])
    &&& m[seq!['0']].default_properties.is_transparent
    &&& !m[seq!['0']].default_properties.is_solid
    &&& m[seq!['0']].default_properties.texture_path@ == Seq::<char>::empty()
    &&& assoc(m[seq!['0']].variants@) == Map::<Seq<char>, BlockProperties>::empty()
    &&& m[seq!['1']].default_properties.is_solid
    &&& !m[seq!['1']].default_properties.is_transparent
    &&& m[seq!['1']].default_properties.friction == 600
    &&& m[seq!['1']].default_properties.restitution == 100
    &&& m[seq!['1']].default_properties.density == 2700
    &&& m[seq!['1']].default_properties.break_time == 1500
    &&& m[seq!['1']].default_properties.collision_box == ((0i32, 0i32, 0i32), (1000i32, 1000i32, 1000i32))
    &&& m[seq!['1']].default_properties.texture_path@ == path_join(reg.textures(), "stone.png"@)
    &&& assoc(m[seq!['1']].variants@).dom() == set!["HNM1.0S"@]
    &&& assoc(m[seq!['1']].variants@)["HNM1.0S"@] == (BlockProperties {
        is_solid: false,
        collision_box: ((0i32, 0i32, 0i32), (1000i32, 500i32, 1000i32)),
        ..m[seq!['1']].default_properties
    })
}

} // verus!
