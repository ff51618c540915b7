//! What the `ProceduralMesh`, `ProceduralTexture` and `AssetBundle` derives read from their
//! attributes: the kind of primitive or texture, its integer parameters with their
//! defaults, and the asset references of a bundle. Sizes, angles and colors in floating
//! point are read by the caller.
use vstd::prelude::*;
use crate::text::{chars_of, str_eq, text_between};

verus! {

#[derive(Debug, Clone, Copy, PartialEq, Eq, Structural)]
pub enum PrimitiveKind {
    Sphere,
    Cube,
    Plane,
    Cylinder,
}

/// The integer parameters of a procedural mesh: segments around and rings of a sphere,
/// segments of a plane (both ways) or of a cylinder.
#[derive(Debug, Clone, Copy, PartialEq, Eq, Structural)]
pub struct MeshPlan {
    pub kind: PrimitiveKind,
    pub sectors: u32,
    pub rings: u32,
    pub segments: u32,
}

/// An integer attribute value, or its default, taken as `u32` (`as u32`).
pub open spec fn int_or(v: Option<i64>, default: u32) -> u32 {
    match v {
        Some(x) => x as u32,
        None => default,
    }
}

fn int_or_exec(v: Option<i64>, default: u32) -> (r: u32)
    ensures
        r == int_or(v, default),
{
    match v {
        Some(x) => x as u32,
        None => default,
    }
}

/// The mesh a `#[primitive(type = .., ..)]` attribute asks for: spheres default to 32
/// sectors and 16 rings, planes to 1 segment, cylinders to 16 segments; unused counts are
/// 0. Any other type is an error naming it.
pub open spec fn spec_mesh_plan(ty: Seq<char>, rings: Option<i64>, sectors: Option<i64>, segments: Option<i64>) -> Result<
    MeshPlan,
    Seq<char>,
> {
    if ty == "sphere"@ {
        Ok(MeshPlan { kind: PrimitiveKind::Sphere, sectors: int_or(sectors, 32), rings: int_or(rings, 16), segments: 0 })
    } else if ty == "cube"@ {
        Ok(MeshPlan { kind: PrimitiveKind::Cube, sectors: 0, rings: 0, segments: 0 })
    } else if ty == "plane"@ {
        Ok(MeshPlan { kind: PrimitiveKind::Plane, sectors: 0, rings: 0, segments: int_or(segments, 1) })
    } else if ty == "cylinder"@ {
        Ok(MeshPlan { kind: PrimitiveKind::Cylinder, sectors: 0, rings: 0, segments: int_or(segments, 16) })
    } else {
        Err("unknown primitive type '"@ + ty + "': expected sphere|cube|plane|cylinder"@)
    }
}

pub fn mesh_plan(ty: &str, rings: Option<i64>, sectors: Option<i64>, segments: Option<i64>) -> (r: Result<MeshPlan, String>)
    ensures
        match spec_mesh_plan(ty@, rings, sectors, segments) {
            Ok(p) => r == Ok::<MeshPlan, String>(p),
            Err(e) => r is Err && r->Err_0@ == e,
        },
{
    if str_eq(ty, "sphere") {
        Ok(MeshPlan {
            kind: PrimitiveKind::Sphere,
            sectors: int_or_exec(sectors, 32),
            rings: int_or_exec(rings, 16),
            segments: 0,
        })
    } else if str_eq(ty, "cube") {
        Ok(MeshPlan { kind: PrimitiveKind::Cube, sectors: 0, rings: 0, segments: 0 })
    } else if str_eq(ty, "plane") {
        Ok(MeshPlan { kind: PrimitiveKind::Plane, sectors: 0, rings: 0, segments: int_or_exec(segments, 1) })
    } else if str_eq(ty, "cylinder") {
        Ok(MeshPlan { kind: PrimitiveKind::Cylinder, sectors: 0, rings: 0, segments: int_or_exec(segments, 16) })
    } else {
        let t = chars_of(ty);
        Err(text_between("unknown primitive type '", t.as_slice(), "': expected sphere|cube|plane|cylinder"))
    }
}

#[derive(Debug, Clone, Copy, PartialEq, Eq, Structural)]
pub enum TextureKind {
    Solid,
    Checkerboard,
    Gradient,
    Noise,
}

/// The integer parameters of a procedural texture: its size (512 x 512 by default), the
/// checker cell size (an eighth of the width) and the noise octaves (3 by default).
#[derive(Debug, Clone, Copy, PartialEq, Eq, Structural)]
pub struct TexturePlan {
    pub kind: TextureKind,
    pub width: u32,
    pub height: u32,
    pub checker_size: u32,
    pub octaves: u32,
}

/// The texture a `#[texture(type = .., ..)]` attribute asks for.
pub open spec fn spec_texture_plan(ty: Seq<char>, width: Option<i64>, height: Option<i64>, octaves: Option<i64>) -> Result<
    TexturePlan,
    Seq<char>,
> {
    let w = int_or(width, 512);
    let h = int_or(height, 512);
    if ty == "solid"@ {
        Ok(TexturePlan { kind: TextureKind::Solid, width: w, height: h, checker_size: 0, octaves: 0 })
    } else if ty == "checkerboard"@ {
        Ok(TexturePlan { kind: TextureKind::Checkerboard, width: w, height: h, checker_size: w / 8, octaves: 0 })
    } else if ty == "gradient"@ {
        Ok(TexturePlan { kind: TextureKind::Gradient, width: w, height: h, checker_size: 0, octaves: 0 })
    } else if ty == "noise"@ {
        Ok(TexturePlan { kind: TextureKind::Noise, width: w, height: h, checker_size: 0, octaves: int_or(octaves, 3) })
    } else {
        Err("unknown texture type '"@ + ty + "': expected solid|checkerboard|gradient|noise"@)
    }
}

pub fn texture_plan(ty: &str, width: Option<i64>, height: Option<i64>, octaves: Option<i64>) -> (r: Result<TexturePlan, String>)
    ensures
        match spec_texture_plan(ty@, width, height, octaves) {
            Ok(p) => r == Ok::<TexturePlan, String>(p),
            Err(e) => r is Err && r->Err_0@ == e,
        },
{
    let w = int_or_exec(width, 512);
    let h = int_or_exec(height, 512);
    if str_eq(ty, "solid") {
        Ok(TexturePlan { kind: TextureKind::Solid, width: w, height: h, checker_size: 0, octaves: 0 })
    } else if str_eq(ty, "checkerboard") {
        Ok(TexturePlan { kind: TextureKind::Checkerboard, width: w, height: h, checker_size: w / 8, octaves: 0 })
    } else if str_eq(ty, "gradient") {
        Ok(TexturePlan { kind: TextureKind::Gradient, width: w, height: h, checker_size: 0, octaves: 0 })
    } else if str_eq(ty, "noise") {
        Ok(TexturePlan {
            kind: TextureKind::Noise,
            width: w,
            height: h,
            checker_size: 0,
            octaves: int_or_exec(octaves, 3),
        })
    } else {
        let t = chars_of(ty);
        Err(text_between("unknown texture type '", t.as_slice(), "': expected solid|checkerboard|gradient|noise"))
    }
}

// ---------------------------------------------------------------------------
// Asset bundles
// ---------------------------------------------------------------------------

#[derive(Debug, Clone, Copy, PartialEq, Eq, Structural)]
pub enum AssetKind {
    Mesh,
    Texture,
}

/// A field of a bundle struct: its name and whether it carries `#[mesh_ref]` or
/// `#[texture_ref]`.
#[derive(Debug, Clone)]
pub struct BundleField {
    pub name: String,
    pub mesh_ref: bool,
    pub texture_ref: bool,
}

/// An asset a bundle refers to, with the name of its accessor.
#[derive(Debug, Clone)]
pub struct AssetRef {
    pub field: String,
    pub kind: AssetKind,
    pub accessor: String,
}

/// The asset references among the first `m` fields: a field marked `mesh_ref` is a mesh
/// (whatever else it carries), one marked `texture_ref` a texture, others are skipped.
pub open spec fn bundle_refs(fields: Seq<BundleField>, m: int) -> Seq<(Seq<char>, AssetKind)>
    decreases m,
{
    if m <= 0 {
        Seq::empty()
    } else {
        let f = fields[m - 1];
        let rest = bundle_refs(fields, m - 1);
        if f.mesh_ref {
            rest.push((f.name@, AssetKind::Mesh))
        } else if f.texture_ref {
            rest.push((f.name@, AssetKind::Texture))
        } else {
            rest
        }
    }
}

/// The asset references of a bundle, in field order, each with its accessor
/// `get_{field}`; their number is the bundle's asset count.
pub fn collect_bundle_refs(fields: &Vec<BundleField>) -> (r: Vec<AssetRef>)
    ensures
        r@.len() == bundle_refs(fields@, fields@.len() as int).len(),
        forall|k: int|
            0 <= k < r@.len() ==> {
                &&& (#[trigger] r@[k]).field@ == bundle_refs(fields@, fields@.len() as int)[k].0
                &&& r@[k].kind == bundle_refs(fields@, fields@.len() as int)[k].1
                &&& r@[k].accessor@ == "get_"@ + r@[k].field@
            },
{
    let mut r: Vec<AssetRef> = Vec::new();
    let mut i: usize = 0;
    while i < fields.len()
        invariant
            i <= fields@.len(),
            r@.len() == bundle_refs(fields@, i as int).len(),
            forall|k: int|
                0 <= k < r@.len() ==> {
                    &&& (#[trigger] r@[k]).field@ == bundle_refs(fields@, i as int)[k].0
                    &&& r@[k].kind == bundle_refs(fields@, i as int)[k].1
                    &&& r@[k].accessor@ == "get_"@ + r@[k].field@
                },
        decreases fields@.len() - i,
    {
        let f = &fields[i];
        let kind = if f.mesh_ref {
            Some(AssetKind::Mesh)
        } else if f.texture_ref {
            Some(AssetKind::Texture)
        } else {
            None
        };
        if let Some(k) = kind {
            let name = chars_of(f.name.as_str());
            let accessor = text_between("get_", name.as_slice(), "");
            proof {
                reveal_strlit("");
                assert(accessor@ =~= "get_"@ + f.name@);
            }
            r.push(AssetRef { field: f.name.clone(), kind: k, accessor });
        }
        i = i + 1;
    }
    r
}

} // verus!
