//! The tag names of the chunk schema, as byte strings.
//!
//! Each name exists twice: a spec constant (a byte sequence) that contracts
//! speak of, and a builder for the executable value.

use vstd::prelude::*;

verus! {

/// The name "Level".
pub open spec fn level_name() -> Seq<u8> {
    seq![76u8, 101u8, 118u8, 101u8, 108u8]
}

/// The bytes of the name "Level".
pub fn name_level() -> (r: Vec<u8>)
    ensures
        r@ == level_name(),
{
    let mut v: Vec<u8> = Vec::new();

    v.push(76);
    v.push(101);
    v.push(118);
    v.push(101);
    v.push(108);
    proof {
        assert(v@ =~= level_name());
    }
    v
}

/// The name "Sections".
pub open spec fn sections_name() -> Seq<u8> {
    seq![83u8, 101u8, 99u8, 116u8, 105u8, 111u8, 110u8, 115u8]
}

/// The bytes of the name "Sections".
pub fn name_sections() -> (r: Vec<u8>)
    ensures
        r@ == sections_name(),
{
    let mut v: Vec<u8> = Vec::new();

    v.push(83);
    v.push(101);
    v.push(99);
    v.push(116);
    v.push(105);
    v.push(111);
    v.push(110);
    v.push(115);
    proof {
        assert(v@ =~= sections_name());
    }
    v
}

/// The name "Biomes".
pub open spec fn biomes_name() -> Seq<u8> {
    seq![66u8, 105u8, 111u8, 109u8, 101u8, 115u8]
}

/// The bytes of the name "Biomes".
pub fn name_biomes() -> (r: Vec<u8>)
    ensures
        r@ == biomes_name(),
{
    let mut v: Vec<u8> = Vec::new();

    v.push(66);
    v.push(105);
    v.push(111);
    v.push(109);
    v.push(101);
    v.push(115);
    proof {
        assert(v@ =~= biomes_name());
    }
    v
}

/// The name "Y".
pub open spec fn axis_y_name() -> Seq<u8> {
    seq![89u8]
}

/// The bytes of the name "Y".
pub fn name_axis_y() -> (r: Vec<u8>)
    ensures
        r@ == axis_y_name(),
{
    let mut v: Vec<u8> = Vec::new();

    v.push(89);
    proof {
        assert(v@ =~= axis_y_name());
    }
    v
}

/// The name "Palette".
pub open spec fn palette_name() -> Seq<u8> {
    seq![80u8, 97u8, 108u8, 101u8, 116u8, 116u8, 101u8]
}

/// The bytes of the name "Palette".
pub fn name_palette() -> (r: Vec<u8>)
    ensures
        r@ == palette_name(),
{
    let mut v: Vec<u8> = Vec::new();

    v.push(80);
    v.push(97);
    v.push(108);
    v.push(101);
    v.push(116);
    v.push(116);
    v.push(101);
    proof {
        assert(v@ =~= palette_name());
    }
    v
}

/// The name "BlockStates".
pub open spec fn block_states_name() -> Seq<u8> {
    seq![66u8, 108u8, 111u8, 99u8, 107u8, 83u8, 116u8, 97u8, 116u8, 101u8, 115u8]
}

/// The bytes of the name "BlockStates".
pub fn name_block_states() -> (r: Vec<u8>)
    ensures
        r@ == block_states_name(),
{
    let mut v: Vec<u8> = Vec::new();

    v.push(66);
    v.push(108);
    v.push(111);
    v.push(99);
    v.push(107);
    v.push(83);
    v.push(116);
    v.push(97);
    v.push(116);
    v.push(101);
    v.push(115);
    proof {
        assert(v@ =~= block_states_name());
    }
    v
}

/// The name "BlockLight".
pub open spec fn block_light_name() -> Seq<u8> {
    seq![66u8, 108u8, 111u8, 99u8, 107u8, 76u8, 105u8, 103u8, 104u8, 116u8]
}

/// The bytes of the name "BlockLight".
pub fn name_block_light() -> (r: Vec<u8>)
    ensures
        r@ == block_light_name(),
{
    let mut v: Vec<u8> = Vec::new();

    v.push(66);
    v.push(108);
    v.push(111);
    v.push(99);
    v.push(107);
    v.push(76);
    v.push(105);
    v.push(103);
    v.push(104);
    v.push(116);
    proof {
        assert(v@ =~= block_light_name());
    }
    v
}

/// The name "SkyLight".
pub open spec fn sky_light_name() -> Seq<u8> {
    seq![83u8, 107u8, 121u8, 76u8, 105u8, 103u8, 104u8, 116u8]
}

/// The bytes of the name "SkyLight".
pub fn name_sky_light() -> (r: Vec<u8>)
    ensures
        r@ == sky_light_name(),
{
    let mut v: Vec<u8> = Vec::new();

    v.push(83);
    v.push(107);
    v.push(121);
    v.push(76);
    v.push(105);
    v.push(103);
    v.push(104);
    v.push(116);
    proof {
        assert(v@ =~= sky_light_name());
    }
    v
}

/// The name "Name".
pub open spec fn entry_name_name() -> Seq<u8> {
    seq![78u8, 97u8, 109u8, 101u8]
}

/// The bytes of the name "Name".
pub fn name_entry_name() -> (r: Vec<u8>)
    ensures
        r@ == entry_name_name(),
{
    let mut v: Vec<u8> = Vec::new();

    v.push(78);
    v.push(97);
    v.push(109);
    v.push(101);
    proof {
        assert(v@ =~= entry_name_name());
    }
    v
}

/// The name "Heightmaps".
pub open spec fn heightmaps_name() -> Seq<u8> {
    seq![72u8, 101u8, 105u8, 103u8, 104u8, 116u8, 109u8, 97u8, 112u8, 115u8]
}

/// The bytes of the name "Heightmaps".
pub fn name_heightmaps() -> (r: Vec<u8>)
    ensures
        r@ == heightmaps_name(),
{
    let mut v: Vec<u8> = Vec::new();

    v.push(72);
    v.push(101);
    v.push(105);
    v.push(103);
    v.push(104);
    v.push(116);
    v.push(109);
    v.push(97);
    v.push(112);
    v.push(115);
    proof {
        assert(v@ =~= heightmaps_name());
    }
    v
}

/// The name "WORLD_SURFACE".
pub open spec fn world_surface_name() -> Seq<u8> {
    seq![87u8, 79u8, 82u8, 76u8, 68u8, 95u8, 83u8, 85u8, 82u8, 70u8, 65u8, 67u8, 69u8]
}

/// The bytes of the name "WORLD_SURFACE".
pub fn name_world_surface() -> (r: Vec<u8>)
    ensures
        r@ == world_surface_name(),
{
    let mut v: Vec<u8> = Vec::new();

    v.push(87);
    v.push(79);
    v.push(82);
    v.push(76);
    v.push(68);
    v.push(95);
    v.push(83);
    v.push(85);
    v.push(82);
    v.push(70);
    v.push(65);
    v.push(67);
    v.push(69);
    proof {
        assert(v@ =~= world_surface_name());
    }
    v
}

} // verus!