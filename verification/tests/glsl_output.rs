use rustweb_code::glsl_bundler::GlslBundler;
use rustweb_code::hyp::parser::Parser;
use rustweb_code::hyp::resolver::Resolver;
use rustweb_code::hyp::{self, ModuleInfo};
use rustweb_code::hyp_to_glsl::{GlslAst, GlslEnc};

fn parse(text: &str) -> hyp::Module {
    let mut data = text.as_bytes().to_vec();
    data.push(0);
    let mut p = Parser::new(data, "shader.hyp".to_string());
    p.next();
    match p.rlambda_module() {
        Ok(m) => m,
        Err(_) => panic!("parse failed"),
    }
}

fn resolved(text: &str) -> (Vec<ModuleInfo>, Vec<hyp::AstLambda>) {
    let (mut lambda, info) = ModuleInfo::from_module("shader".to_string(), vec![], parse(text));
    let mut r = Resolver::new(0, vec![info], false);
    r.resolve(&mut lambda);
    assert_eq!(r.errors.len(), 0);
    (r.module_infos, vec![lambda])
}

#[test]
fn writes_a_function_minified() {
    let (infos, lambdas) = resolved("@language(glsl); fn twice(x: int): int { return x + x; }");
    let out = GlslBundler::bundle(&infos, &lambdas, &vec![0u32], false);
    assert_eq!(out.len(), 1);
    assert_eq!(out[0].0, 0);
    assert_eq!(out[0].1.prefix, "int twice(int x){return x+x;}");
    assert!(out[0].1.exported_functions.is_empty());
    assert!(out[0].1.ok);
}

#[test]
fn writes_an_exported_function_as_main() {
    let (infos, lambdas) = resolved("@language(glsl); pub fn frag(): int { return 1; }");
    let out = GlslBundler::bundle(&infos, &lambdas, &vec![0u32], false);
    assert_eq!(out.len(), 1);
    assert_eq!(out[0].1.prefix, "");
    assert_eq!(out[0].1.exported_functions.len(), 1);
    assert_eq!(out[0].1.exported_functions[0].0, "int main(){return 1;}");
}

#[test]
fn skips_modules_of_other_languages() {
    let (infos, lambdas) = resolved("let x = 1;");
    let out = GlslBundler::bundle(&infos, &lambdas, &vec![0u32], false);
    assert!(out.is_empty());
}

#[test]
fn translation_keeps_functions_only() {
    let m = parse("@language(glsl); fn f(): int { return 2; }; let y = 3;");
    let mut enc = GlslEnc::new();
    enc.parse_hyp(&m.lambda.expr);
    assert_eq!(enc.module.items.len(), 1);
    assert!(matches!(enc.module.items[0], GlslAst::Fn { exported: false, .. }));
}
