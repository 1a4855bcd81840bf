//! The physical materials of blocks, by material name. Real quantities are
//! kept in thousandths.
use vstd::prelude::*;
use crate::assoc::{assoc, find_key};
use crate::text::chars_of;
use crate::ui::translations::{domain_of, key_domain};
use crate::voxel::registry::BlockRegistry;

verus! {

/// Physical properties of a material, in thousandths: density, friction,
/// restitution, viscosity, and the force that breaks it.
#[derive(Debug, Clone, Copy, PartialEq, Eq, Structural)]
pub struct MaterialProperties {
    pub density: i32,
    pub friction: i32,
    pub restitution: i32,
    pub viscosity: i32,
    pub break_threshold: i32,
}

/// The properties of a block whose material is not known.
pub open spec fn default_material() -> MaterialProperties {
    MaterialProperties { density: 1000, friction: 500, restitution: 200, viscosity: 0, break_threshold: 15000 }
}

/// The materials by name.
pub struct PhysicsMaterials {
    materials: Vec<(String, MaterialProperties)>,
}

impl PhysicsMaterials {
    /// The materials by name.
    pub closed spec fn table(&self) -> Map<Seq<char>, MaterialProperties> {
        assoc(self.materials@)
    }

    /// The built-in materials: stone, dirt and water.
    pub fn new(registry: &BlockRegistry) -> (r: Self)
        ensures
            r.table() == map![
                "stone"@ => MaterialProperties { density: 2700, friction: 600, restitution: 100, viscosity: 0, break_threshold: 30000 },
                "dirt"@ => MaterialProperties { density: 1500, friction: 500, restitution: 50, viscosity: 0, break_threshold: 10000 },
                "water"@ => MaterialProperties { density: 1000, friction: 100, restitution: 0, viscosity: 700, break_threshold: 0 },
            ],
    {
        let mut materials: Vec<(String, MaterialProperties)> = Vec::new();
        materials.push(
            (
                String::from_str("stone"),
                MaterialProperties { density: 2700, friction: 600, restitution: 100, viscosity: 0, break_threshold: 30000 },
            ),
        );
        materials.push(
            (
                String::from_str("dirt"),
                MaterialProperties { density: 1500, friction: 500, restitution: 50, viscosity: 0, break_threshold: 10000 },
            ),
        );
        materials.push(
            (
                String::from_str("water"),
                MaterialProperties { density: 1000, friction: 100, restitution: 0, viscosity: 700, break_threshold: 0 },
            ),
        );
        let r = PhysicsMaterials { materials };
        proof {
            let s = r.materials@;
            assert(s.drop_last().drop_last().drop_last() =~= Seq::<(String, MaterialProperties)>::empty());
            reveal_with_fuel(assoc, 4);
            assert(r.table() =~= map![
                "stone"@ => MaterialProperties { density: 2700, friction: 600, restitution: 100, viscosity: 0, break_threshold: 30000 },
                "dirt"@ => MaterialProperties { density: 1500, friction: 500, restitution: 50, viscosity: 0, break_threshold: 10000 },
                "water"@ => MaterialProperties { density: 1000, friction: 100, restitution: 0, viscosity: 700, break_threshold: 0 },
            ]);
        }
        r
    }

    /// The material of a block id: the part of the id before its first '.'
    /// names it.
    pub fn get(&self, block_id: &str) -> (r: Option<&MaterialProperties>)
        ensures
            self.table().contains_key(key_domain(block_id@)) ==> r == Some(&self.table()[key_domain(block_id@)]),
            !self.table().contains_key(key_domain(block_id@)) ==> r is None,
    {
        let cs = chars_of(block_id);
        let base = domain_of(&cs);
        match find_key(&self.materials, &base) {
            Some(i) => Some(&self.materials[i].1),
            None => None,
        }
    }

    /// The material of a block id, or the default material.
    pub fn get_for_block(&self, block_id: &str) -> (r: MaterialProperties)
        ensures
            r == (if self.table().contains_key(key_domain(block_id@)) {
                self.table()[key_domain(block_id@)]
            } else {
                default_material()
            }),
    {
        match self.get(block_id) {
            Some(m) => *m,
            None => MaterialProperties { density: 1000, friction: 500, restitution: 200, viscosity: 0, break_threshold: 15000 },
        }
    }
}

} // verus!
