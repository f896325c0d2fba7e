use rustweb_code::glsl_bundler::BundledModule;
use rustweb_code::hyp::{AstLambda, AstType, Language, LocalDef, ModuleInfo};
use rustweb_code::js_ast::{JsAst, JsBuiltin, JsLit, JsOp, JsPattern, JsUnop};
use rustweb_code::js_bundler::{
    format_js_float, prec_assign, prec_dot_bracket, prec_max, JsBundler, NeedSemi,
};

fn local(name: &str, ty: AstType) -> LocalDef {
    LocalDef { ty, name: name.to_string(), is_mut: false, const_value: None, need_qualification: false }
}

fn info(name: &str, names: &[&str], language: Language) -> ModuleInfo {
    let locals = names.iter().map(|n| local(n, AstType::Any)).collect();
    let (_, mi) = ModuleInfo::from_externals(name.to_string(), locals, vec![], language);
    mi
}

fn lambdas(n: usize) -> Vec<AstLambda> {
    (0..n).map(|_| AstLambda::new_empty()).collect()
}

fn b(a: JsAst) -> Box<JsAst> {
    Box::new(a)
}

fn loc(i: u32) -> JsAst {
    JsAst::Local { index: i }
}

fn num(v: i64) -> JsAst {
    JsAst::Lit { lit: JsLit::Int(v) }
}

fn bin(l: JsAst, op: JsOp, r: JsAst) -> JsAst {
    JsAst::Binary { left: b(l), op, right: b(r) }
}

fn write(ast: &JsAst, must_be_expr: bool) -> (String, NeedSemi, bool) {
    let ls = lambdas(1);
    let mut bun = JsBundler::new(vec![info("m", &["a", "b"], Language::Js)], &ls);
    let r = bun.to_js(ast, prec_max(), must_be_expr);
    (bun.buf.clone(), r, bun.ok)
}

#[test]
fn operators_get_parentheses_only_where_needed() {
    let (s, r, ok) = write(&bin(loc(0), JsOp::Add, bin(loc(1), JsOp::Mul, num(2))), false);
    assert_eq!(s, "a + b * 2");
    assert!(r == NeedSemi::Yes);
    assert!(ok);
    let (s, _, _) = write(&bin(bin(loc(0), JsOp::Add, loc(1)), JsOp::Mul, num(2)), false);
    assert_eq!(s, "(a + b) * 2");
    let (s, _, _) = write(&bin(loc(0), JsOp::Sub, bin(loc(1), JsOp::Sub, num(1))), false);
    assert_eq!(s, "a - (b - 1)");
    let (s, _, _) = write(&bin(bin(loc(0), JsOp::Sub, loc(1)), JsOp::Sub, num(1)), false);
    assert_eq!(s, "a - b - 1");
    let (s, _, _) = write(&bin(loc(0), JsOp::Eq, loc(1)), false);
    assert_eq!(s, "a === b");
    let (s, _, _) = write(&bin(loc(0), JsOp::Lshr, num(3)), false);
    assert_eq!(s, "a >>> 3");
}

#[test]
fn unary_operators() {
    let (s, _, _) = write(&JsAst::Unary { value: b(bin(loc(0), JsOp::Add, loc(1))), op: JsUnop::Minus }, false);
    assert_eq!(s, "-(a + b)");
    let (s, _, _) = write(&JsAst::Unary { value: b(loc(0)), op: JsUnop::PreInc }, false);
    assert_eq!(s, "++a");
    let (s, _, _) = write(&JsAst::Unary { value: b(loc(0)), op: JsUnop::Not }, false);
    assert_eq!(s, "!a");
}

#[test]
fn literals() {
    let (s, _, _) = write(&num(-3), false);
    assert_eq!(s, "-3");
    let (s, _, _) = write(&JsAst::Lit { lit: JsLit::Bool(true) }, false);
    assert_eq!(s, "true");
    let (s, _, _) = write(&JsAst::Lit { lit: JsLit::Str("hi".to_string()) }, false);
    assert_eq!(s, "\"hi\"");
    let (s, _, _) = write(&JsAst::Lit { lit: JsLit::Str("a\nb".to_string()) }, false);
    assert_eq!(s, "`a\nb`");
    let (s, _, _) = write(&JsAst::Lit { lit: JsLit::Float("2.50".to_string()) }, false);
    assert_eq!(s, "2.5");
}

#[test]
fn float_literals_print_like_numbers() {
    assert_eq!(format_js_float(&"1.0".to_string()), "1");
    assert_eq!(format_js_float(&"00.50".to_string()), "0.5");
    assert_eq!(format_js_float(&"2.25".to_string()), "2.25");
    assert_eq!(format_js_float(&"10".to_string()), "10");
    assert_eq!(format_js_float(&"0.0".to_string()), "0");
}

#[test]
fn conditional_expression_and_statement() {
    let e = JsAst::If { cond: b(loc(0)), then_branch: vec![loc(1)], else_branch: Some(b(num(1))) };
    let ls = lambdas(1);
    let mut bun = JsBundler::new(vec![info("m", &["a", "b"], Language::Js)], &ls);
    let r = bun.to_js(&e, prec_assign().on_right(), true);
    assert_eq!(bun.buf, "a ? b : 1");
    assert!(r == NeedSemi::Yes);

    let st = JsAst::If {
        cond: b(loc(0)),
        then_branch: vec![JsAst::Assign { left: b(loc(1)), right: b(num(1)) }],
        else_branch: None,
    };
    let (s, r, _) = write(&st, false);
    assert_eq!(s, "if (a) b = 1");
    assert!(r == NeedSemi::Yes);

    let with_else = JsAst::If {
        cond: b(loc(0)),
        then_branch: vec![JsAst::Break],
        else_branch: Some(b(JsAst::Block { stmts: vec![JsAst::Break] })),
    };
    let (s, r, _) = write(&with_else, false);
    assert_eq!(s, "if (a) {\n  break;\n} else {\n  break;\n}");
    assert!(r == NeedSemi::No);
}

#[test]
fn loops_and_blocks() {
    let (s, r, _) = write(&JsAst::Loop { body: vec![JsAst::Break] }, false);
    assert_eq!(s, "for (;;) {\n  break;\n}");
    assert!(r == NeedSemi::No);
    let w = JsAst::While { cond: b(loc(0)), body: vec![JsAst::Assign { left: b(loc(1)), right: b(num(0)) }] };
    let (s, r, _) = write(&w, false);
    assert_eq!(s, "for (;a;) b = 0");
    assert!(r == NeedSemi::Yes);
}

#[test]
fn statements_one_per_line() {
    let ls = lambdas(1);
    let mut bun = JsBundler::new(vec![info("m", &["a", "b"], Language::Js)], &ls);
    let stmts = vec![
        JsAst::Locals { local_indexes: vec![0], values: vec![num(1)] },
        JsAst::Assign { left: b(loc(1)), right: b(loc(0)) },
    ];
    bun.stmts_inner_to_js(&stmts, prec_max(), false);
    assert_eq!(bun.buf, "var a = 1;\nb = a;\n");
}

#[test]
fn functions_and_lambdas() {
    let lam = JsAst::Lambda {
        inputs: vec![JsPattern::Local(0)],
        body: b(JsAst::Block { stmts: vec![JsAst::Return { value: b(loc(0)) }] }),
    };
    let (s, r, _) = write(&lam, false);
    assert_eq!(s, "function(a) {\n  return a;\n}");
    assert!(r == NeedSemi::Yes);
    let f = JsAst::Fn {
        index: 1,
        args: vec![JsPattern::Array(vec![JsPattern::Local(0), JsPattern::Local(1)])],
        exported: true,
        expr: b(JsAst::Block { stmts: vec![] }),
    };
    let (s, r, _) = write(&f, false);
    assert_eq!(s, "function b([a, b]) {\n}\n");
    assert!(r == NeedSemi::No);
}

#[test]
fn calls_objects_and_arrays() {
    let (s, _, _) = write(&JsAst::Call { func: b(loc(0)), args: vec![] }, false);
    assert_eq!(s, "a()");
    let m = JsAst::MethodCall {
        receiver: b(JsAst::Path { path: vec!["Foo".to_string()] }),
        method: "new".to_string(),
        args: vec![num(1), num(2)],
    };
    let (s, _, _) = write(&m, false);
    assert_eq!(s, "new Foo(1, 2)");
    let m = JsAst::MethodCall { receiver: b(loc(0)), method: "push".to_string(), args: vec![loc(1)] };
    let (s, _, _) = write(&m, false);
    assert_eq!(s, "a.push(b)");
    let o = JsAst::NewObject { assignments: vec![("x".to_string(), num(1)), ("y".to_string(), loc(1))] };
    let (s, _, _) = write(&o, false);
    assert_eq!(s, "{x: 1, y: b}");
    let (s, _, _) = write(&JsAst::Array { elems: vec![num(1), num(2)] }, false);
    assert_eq!(s, "[1, 2]");
    let p = JsAst::Path { path: vec!["Math".to_string(), "PI".to_string()] };
    let (s, _, _) = write(&p, false);
    assert_eq!(s, "Math.PI");
    let idx = JsAst::Index { expr: b(loc(0)), index: b(bin(loc(1), JsOp::Add, num(1))) };
    let (s, _, _) = write(&idx, false);
    assert_eq!(s, "a[b + 1]");
}

#[test]
fn undefined_and_members() {
    let f = JsAst::Field { base: b(JsAst::Undefined), member: "x".to_string() };
    let (s, _, _) = write(&f, false);
    assert_eq!(s, "(void 0).x");
    let (s, _, _) = write(&JsAst::Undefined, false);
    assert_eq!(s, "void 0");
}

#[test]
fn wasm_members_use_recorded_offsets() {
    let ls = lambdas(1);
    let mut bun = JsBundler::new(vec![info("m", &["a"], Language::Js)], &ls);
    bun.wasm_offsets.push(("mem".to_string(), 1024));
    let f = JsAst::Field { base: b(JsAst::Builtin { builtin: JsBuiltin::Wasm }), member: "mem".to_string() };
    bun.to_js(&f, prec_max(), true);
    assert_eq!(bun.buf, "1024");
    let g = JsAst::Field { base: b(JsAst::Builtin { builtin: JsBuiltin::Wasm }), member: "run".to_string() };
    let (s, _, _) = write(&g, true);
    assert_eq!(s, "wasm.run");
    let (s, _, ok) = write(&JsAst::Builtin { builtin: JsBuiltin::Wasm }, true);
    assert_eq!(s, "wasm");
    assert!(ok);
}

#[test]
fn builtin_without_value_is_an_error() {
    let (s, _, ok) = write(&JsAst::Builtin { builtin: JsBuiltin::Glsl }, true);
    assert_eq!(s, "");
    assert!(!ok);
}

#[test]
fn missing_local_is_an_error() {
    let (s, _, ok) = write(&loc(7), true);
    assert_eq!(s, "");
    assert!(!ok);
}

#[test]
fn module_references() {
    let ls = lambdas(2);
    let shader = {
        let locals = vec![local("draw", AstType::Fn(Box::new(AstType::NoType), vec![])), local("color", AstType::Any)];
        let (_, mi) = ModuleInfo::from_externals("shader".to_string(), locals, vec![], Language::Glsl);
        mi
    };
    let mut bun = JsBundler::new(vec![info("m", &["a"], Language::Js), shader], &ls);
    bun.glsl_fn_map.push(((1, 0), 2));
    bun.to_js(&JsAst::ModuleMember { abs_index: 1, local_index: 0 }, prec_max(), true);
    assert_eq!(bun.buf, "shader[2]");
    bun.buf.clear();
    bun.glsl_fn_map.push(((1, 0), usize::MAX));
    bun.to_js(&JsAst::ModuleMember { abs_index: 1, local_index: 0 }, prec_max(), true);
    assert_eq!(bun.buf, "shader");
    bun.buf.clear();
    bun.to_js(&JsAst::ModuleMember { abs_index: 1, local_index: 1 }, prec_max(), true);
    assert_eq!(bun.buf, "\"color\"");
    bun.buf.clear();
    bun.to_js(&JsAst::ModuleMember { abs_index: 0, local_index: 0 }, prec_max(), true);
    assert_eq!(bun.buf, "a");
    bun.buf.clear();
    bun.to_js(&JsAst::ModuleRef { abs_index: 1 }, prec_max(), true);
    assert_eq!(bun.buf, "/*not found*/ shader");
}

#[test]
fn string_literals_pick_their_quotes() {
    let ls = lambdas(1);
    let mut bun = JsBundler::new(vec![info("m", &[], Language::Js)], &ls);
    bun.str_lit("abc");
    bun.str_lit("x\ry");
    assert_eq!(bun.buf, "\"abc\"`x\ry`");
}

#[test]
fn glsl_modules_share_their_common_prefix() {
    let ls = lambdas(2);
    let mut bun = JsBundler::new(vec![info("m", &[], Language::Js), info("shader", &[], Language::Glsl)], &ls);
    let bm = BundledModule {
        prefix: "p;".to_string(),
        exported_functions: vec![("void a(){}".to_string(), 3), ("void b(){}".to_string(), 4)],
        ok: true,
        errors: vec![],
    };
    bun.write_glsl(vec![(1, bm)]);
    assert_eq!(bun.buf, "var shader = [\"a(){}\",\"b(){}\"].map(function (a) { return \"p;void \" + a; });\n");
    assert_eq!(bun.glsl_fn_map, vec![((1, 3), 0), ((1, 4), 1)]);

    let mut bun = JsBundler::new(vec![info("m", &[], Language::Js), info("shader", &[], Language::Glsl)], &ls);
    let bm = BundledModule {
        prefix: "p;".to_string(),
        exported_functions: vec![("void a(){}".to_string(), 3)],
        ok: true,
        errors: vec![],
    };
    bun.write_glsl(vec![(1, bm)]);
    assert_eq!(bun.buf, "var shader = \"p;void a(){}\";\n");
    assert_eq!(bun.glsl_fn_map, vec![((1, 3), usize::MAX)]);
}

#[test]
fn glsl_module_without_functions() {
    let ls = lambdas(1);
    let mut bun = JsBundler::new(vec![info("s", &[], Language::Glsl)], &ls);
    let bm = BundledModule { prefix: "x".to_string(), exported_functions: vec![], ok: true, errors: vec![] };
    bun.write_glsl(vec![(0, bm)]);
    assert_eq!(bun.buf, "var s = [].map(function (a) { return \"x\" + a; });\n");
}

#[test]
fn iife_frame() {
    let ls = lambdas(1);
    let mut bun = JsBundler::new(vec![info("m", &[], Language::Js)], &ls);
    bun.write_iife_begin_plain();
    bun.write_iife_end();
    assert_eq!(bun.buf, "(function(window){\n})(this)");
    let mut bun = JsBundler::new(vec![info("m", &[], Language::Js)], &ls);
    bun.write_iife_begin(&[0u8, 1u8], &["f".to_string(), "g".to_string()]);
    assert_eq!(
        bun.buf,
        "\n(function(window){\nvar m = new WebAssembly.Module(Uint8Array.from(atob('AAE=').split('').map(x => x.charCodeAt(0))));\nvar wasm = new WebAssembly.Instance(m, { i: {f: f, g: g} }).exports;\n"
    );
}

#[test]
fn prec_constants() {
    let p = prec_dot_bracket();
    assert!(p.need_paren(prec_max()) == false);
    assert!(prec_max().need_paren(p));
}

#[test]
fn webassembly_bytes_are_written_in_standard_base64() {
    let ls = lambdas(1);
    let mut bun = JsBundler::new(vec![info("m", &[], Language::Js)], &ls);
    bun.write_iife_begin(b"Man?>", &[]);
    assert!(bun.buf.contains("atob('TWFuPz4=')"));
}
