use macrokid_graphics::lighting::default_shaders::{FS_PHONG_MIN, VS_POS_UV};
use macrokid_graphics::lighting::{light_setup_bindings, lighting_model_bindings, model_shader_sources, shadow_size};
use macrokid_graphics::resources::ResourceKind;

#[test]
fn every_model_uses_the_forward_phong_shaders() {
    let s = model_shader_sources("pbr");
    assert_eq!(s.vs, VS_POS_UV);
    assert_eq!(s.fs, FS_PHONG_MIN);
    assert!(VS_POS_UV.starts_with("#version 450\nlayout(location=0) in vec3 a_pos;"));
    assert!(VS_POS_UV.contains("gl_Position = uScene.mvp * vec4(a_pos, 1.0);"));
    assert!(FS_PHONG_MIN.contains("layout(set = 0, binding = 1) uniform sampler2D uAlbedo;"));
    assert!(FS_PHONG_MIN.trim_end().ends_with('}'));
}

#[test]
fn lighting_bindings() {
    let b = lighting_model_bindings();
    assert_eq!(b.len(), 2);
    assert_eq!((b[0].field, b[0].set, b[0].binding), ("scene", 0, 0));
    assert!(matches!(b[1].kind, ResourceKind::CombinedImageSampler));
    let s = light_setup_bindings();
    assert_eq!((s[0].field, s[0].set, s[0].binding), ("scene_lights", 1, 0));
}

#[test]
fn shadow_size_option() {
    assert_eq!(shadow_size("shadow_size = \"1024x512\""), (1024, 512));
    assert_eq!(shadow_size("other = 1, shadow_size = \"64x64\", more = \"9x9\""), (64, 64));
    assert_eq!(shadow_size("shadow_size = \"big\""), (2048, 2048));
    assert_eq!(shadow_size("shadow_size = \"10x\""), (2048, 2048));
    assert_eq!(shadow_size(""), (2048, 2048));
}
