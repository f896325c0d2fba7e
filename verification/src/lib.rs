pub mod conflict_tree;
pub mod hyp;
pub mod binary;
pub mod js_ast;
pub mod wasm;
pub mod text;
pub mod hyp_to_js;
pub mod hyp_to_glsl;
pub mod glsl_bundler;
pub mod js_bundler;
pub mod loader;
