use macrokid_graphics::engine::{validate_config, ConfigError, EngineBuilder};
use macrokid_graphics::pipeline::{PipelineDesc, ShaderPaths, Topology};

fn triangle(name: &'static str) -> PipelineDesc {
    PipelineDesc {
        name,
        shaders: ShaderPaths { vs: "vs", fs: "fs" },
        topology: Topology::TriangleList,
        depth: true,
        raster: None,
        blend: None,
        samples: None,
        depth_stencil: None,
        dynamic: None,
        push_constants: None,
        color_targets: None,
        depth_target: None,
    }
}

#[test]
fn builder_and_validation_work() {
    let cfg = EngineBuilder::new()
        .app("Demo")
        .window(800, 600, true)
        .add_pipeline(PipelineDesc {
            name: "triangle",
            shaders: ShaderPaths { vs: "vs", fs: "fs" },
            topology: Topology::TriangleList,
            depth: true,
            raster: None,
            blend: None,
            samples: None,
            depth_stencil: None,
            dynamic: None,
            push_constants: None,
            color_targets: None,
            depth_target: None,
        })
        .build()
        .expect("valid");
    assert_eq!(cfg.window.width, 800);
    assert_eq!(cfg.pipelines.len(), 1);
}

#[test]
fn duplicate_pipeline_names_are_refused() {
    let r = EngineBuilder::new()
        .app("Demo")
        .window(800, 600, true)
        .add_pipeline(triangle("a"))
        .add_pipeline(triangle("a"))
        .build();
    assert_eq!(r.unwrap_err(), ConfigError::DuplicatePipeline { pipeline: "a" });
}

#[test]
fn no_pipelines_is_refused() {
    let r = EngineBuilder::new().app("Demo").window(800, 600, true).build();
    assert_eq!(r.unwrap_err(), ConfigError::NoPipelines);
}

#[test]
fn empty_shader_path_is_refused() {
    let mut p = triangle("a");
    p.shaders.fs = "";
    let r = EngineBuilder::new().app("Demo").window(800, 600, true).add_pipeline(p).build();
    assert_eq!(r.unwrap_err(), ConfigError::EmptyShaderPath { pipeline: "a", which: "fs" });
}

#[test]
fn built_config_validates() {
    let cfg = EngineBuilder::new().app("Demo").window(640, 480, false).add_pipeline(triangle("a")).build().unwrap();
    assert!(validate_config(&cfg).is_ok());
}

use macrokid_graphics::engine::{parse_env_flag, parse_env_u32, parse_env_usize, parse_mode_list, BackendOptions};

#[test]
fn env_fallback_keeps_own_settings() {
    let mut own = BackendOptions::default();
    own.present_mode = Some("FIFO");
    let mut env = BackendOptions::default();
    env.present_mode = Some("MAILBOX");
    env.msaa_samples = Some(4);
    let merged = own.with_env_fallback(env);
    assert_eq!(merged.present_mode, Some("FIFO"));
    assert_eq!(merged.msaa_samples, Some(4));
    assert_eq!(merged.adapter_index, None);
}

#[test]
fn env_values_parse_like_std() {
    assert_eq!(parse_env_flag(" Yes "), Some(true));
    assert_eq!(parse_env_flag("off"), Some(false));
    assert_eq!(parse_env_flag("2"), None);
    assert_eq!(parse_env_u32("+17"), Some(17));
    assert_eq!(parse_env_u32("4294967296"), None);
    assert_eq!(parse_env_u32(" 3"), None);
    assert_eq!(parse_env_usize("0"), Some(0));
    let modes: Vec<String> = parse_mode_list("MAILBOX, FIFO ,").iter().map(|m| m.iter().collect()).collect();
    assert_eq!(modes, vec!["MAILBOX".to_string(), "FIFO".to_string(), "".to_string()]);
}

#[test]
fn builder_options_reach_the_config() {
    let cfg = EngineBuilder::new()
        .app("Opts")
        .window(320, 240, false)
        .add_pipeline(triangle("a"))
        .swapchain_images(3)
        .msaa_samples(4)
        .adapter_index(1)
        .present_mode_priority(vec!["MAILBOX", "FIFO"])
        .build()
        .unwrap();
    assert_eq!(cfg.app, "Opts");
    assert_eq!(cfg.options.swapchain_images, Some(3));
    assert_eq!(cfg.options.msaa_samples, Some(4));
    assert_eq!(cfg.options.adapter_index, Some(1));
    assert_eq!(cfg.options.present_mode_priority, Some(vec!["MAILBOX", "FIFO"]));
    assert!(!cfg.window.vsync);
}

#[test]
fn builder_defaults() {
    let cfg = EngineBuilder::new().add_pipeline(triangle("a")).build().unwrap();
    assert_eq!(cfg.app, "Untitled");
    assert_eq!((cfg.window.width, cfg.window.height, cfg.window.vsync), (1280, 720, true));
}
