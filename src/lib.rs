pub mod text;
pub mod number;
pub mod bepinex_cfg;
pub mod cfg_parse;
pub mod mod_config;
pub mod variable;
pub mod downloader;
pub mod thunderstore;
pub mod progress;
pub mod mods;
pub mod install_plan;
pub mod launcher;
pub mod paths;
pub mod laws;
pub mod round_trip;
pub mod reparse;
