//! Lighting models and light setups: the shader sources a model uses, the bindings its
//! generated types describe, and the `shadow_size = "WxH"` option of a light setup.
use vstd::prelude::*;
use crate::resources::{BindingDesc, BindingStages, ResourceBindings, ResourceKind};
use crate::text::{chars_of, find_from, find_in, lemma_find_bounds, u32_of, u32_text};
use crate::lighting::default_shaders::{FS_PHONG_MIN, VS_POS_UV};

pub mod default_shaders;

verus! {

pub struct ShaderSources {
    pub vs: &'static str,
    pub fs: &'static str,
}

/// A lighting model supplies the shader sources of its forward pass.
pub trait LightingModel {
    fn shader_sources() -> ShaderSources;
}

/// Associates the `ResourceBindings` type a lighting model's shaders use.
pub trait HasBindings {
    type RB: ResourceBindings;
}

/// Marker for types that describe the lights of a scene.
pub trait LightSetup {
}

/// The shader sources of a lighting model named `model` (`phong`, `pbr`, `blinn`, ..):
/// every model currently shares the minimal forward Phong shaders.
pub fn model_shader_sources(model: &str) -> (r: ShaderSources)
    ensures
        r.vs == VS_POS_UV,
        r.fs == FS_PHONG_MIN,
{
    ShaderSources { vs: VS_POS_UV, fs: FS_PHONG_MIN }
}

/// The stages a binding seen by both the vertex and the fragment shader is visible in.
pub open spec fn vs_fs() -> BindingStages {
    BindingStages { vs: true, fs: true, cs: false }
}

/// The bindings of a lighting model: the scene uniform (set 0, binding 0, vertex and
/// fragment stages) and the albedo texture (set 0, binding 1, fragment stage).
pub fn lighting_model_bindings() -> (r: Vec<BindingDesc>)
    ensures
        r@.len() == 2,
        r@[0].field == "scene" && r@[0].set == 0 && r@[0].binding == 0 && r@[0].kind == ResourceKind::Uniform
            && r@[0].stages == Some(vs_fs()),
        r@[1].field == "albedo" && r@[1].set == 0 && r@[1].binding == 1 && r@[1].kind
            == ResourceKind::CombinedImageSampler && r@[1].stages == Some(
            BindingStages { vs: false, fs: true, cs: false },
        ),
{
    let mut r: Vec<BindingDesc> = Vec::new();
    r.push(
        BindingDesc {
            field: "scene",
            set: 0,
            binding: 0,
            kind: ResourceKind::Uniform,
            stages: Some(BindingStages { vs: true, fs: true, cs: false }),
        },
    );
    r.push(
        BindingDesc {
            field: "albedo",
            set: 0,
            binding: 1,
            kind: ResourceKind::CombinedImageSampler,
            stages: Some(BindingStages { vs: false, fs: true, cs: false }),
        },
    );
    r
}

/// The bindings of a light setup's scene: the light uniform at set 1, binding 0, in the
/// vertex and fragment stages.
pub fn light_setup_bindings() -> (r: Vec<BindingDesc>)
    ensures
        r@.len() == 1,
        r@[0].field == "scene_lights" && r@[0].set == 1 && r@[0].binding == 0 && r@[0].kind
            == ResourceKind::Uniform && r@[0].stages == Some(vs_fs()),
{
    let mut r: Vec<BindingDesc> = Vec::new();
    r.push(
        BindingDesc {
            field: "scene_lights",
            set: 1,
            binding: 0,
            kind: ResourceKind::Uniform,
            stages: Some(BindingStages { vs: true, fs: true, cs: false }),
        },
    );
    r
}

// ---------------------------------------------------------------------------
// shadow_size = "WxH"
// ---------------------------------------------------------------------------

/// The shadow map size used when a light setup gives none.
pub const DEFAULT_SHADOW_SIZE: u32 = 2048;

/// The `WxH` value of a `shadow_size = "WxH"` option in the text of a
/// `#[light_setup(..)]` attribute: the text between the first two quotes after the first
/// `shadow_size`, split at its first `x`, both sides `u32`.
pub open spec fn spec_shadow_size(s: Seq<char>) -> Option<(u32, u32)> {
    match find_from(s, "shadow_size"@, 0) {
        None => None,
        Some(eq) => match find_from(s, seq!['"'], eq) {
            None => None,
            Some(q1) => match find_from(s, seq!['"'], q1 + 1) {
                None => None,
                Some(q2) => {
                    let val = s.subrange(q1 + 1, q2);
                    match find_from(val, seq!['x'], 0) {
                        None => None,
                        Some(x) => match (u32_of(val.subrange(0, x)), u32_of(val.subrange(x + 1, val.len() as int))) {
                            (Some(w), Some(h)) => Some((w, h)),
                            _ => None,
                        },
                    }
                },
            },
        },
    }
}

fn slice_of(s: &[char], lo: usize, hi: usize) -> (r: Vec<char>)
    requires
        lo <= hi <= s@.len(),
    ensures
        r@ == s@.subrange(lo as int, hi as int),
{
    let mut r: Vec<char> = Vec::new();
    let mut i: usize = lo;
    while i < hi
        invariant
            lo <= i <= hi,
            hi <= s@.len(),
            r@ == s@.subrange(lo as int, i as int),
        decreases hi - i,
    {
        r.push(s[i]);
        assert(s@.subrange(lo as int, i + 1) =~= s@.subrange(lo as int, i as int).push(s@[i as int]));
        i = i + 1;
    }
    r
}

/// The shadow map size a `#[light_setup(..)]` attribute text asks for: the
/// `shadow_size = "WxH"` value when it is there and both numbers parse, else
/// 2048 x 2048.
pub fn shadow_size(tokens: &str) -> (r: (u32, u32))
    ensures
        r == (match spec_shadow_size(tokens@) {
            Some(wh) => wh,
            None => (DEFAULT_SHADOW_SIZE, DEFAULT_SHADOW_SIZE),
        }),
{
    let s = chars_of(tokens);
    let key = chars_of("shadow_size");
    let mut quote: Vec<char> = Vec::new();
    quote.push('"');
    let mut ex: Vec<char> = Vec::new();
    ex.push('x');
    proof {
        assert(quote@ =~= seq!['"']);
        assert(ex@ =~= seq!['x']);
    }
    let default = (DEFAULT_SHADOW_SIZE, DEFAULT_SHADOW_SIZE);
    let slen = s.len();
    let eq = match find_in(s.as_slice(), key.as_slice(), 0) {
        Some(e) => e,
        None => {
            return default;
        },
    };
    proof {
        lemma_find_bounds(s@, key@, 0);
    }
    let q1 = match find_in(s.as_slice(), quote.as_slice(), eq) {
        Some(q) => q,
        None => {
            return default;
        },
    };
    proof {
        lemma_find_bounds(s@, quote@, eq as int);
    }
    let q2 = match find_in(s.as_slice(), quote.as_slice(), q1 + 1) {
        Some(q) => q,
        None => {
            return default;
        },
    };
    proof {
        lemma_find_bounds(s@, quote@, q1 + 1);
    }
    let val = slice_of(s.as_slice(), q1 + 1, q2);
    let x = match find_in(val.as_slice(), ex.as_slice(), 0) {
        Some(x) => x,
        None => {
            return default;
        },
    };
    proof {
        lemma_find_bounds(val@, ex@, 0);
    }
    let wtext = slice_of(val.as_slice(), 0, x);
    let htext = slice_of(val.as_slice(), x + 1, val.len());
    match (u32_text(wtext.as_slice()), u32_text(htext.as_slice())) {
        (Some(w), Some(h)) => (w, h),
        _ => default,
    }
}

} // verus!
