use rustweb_code::hyp::parser::Parser;
use rustweb_code::hyp::resolver::Resolver;
use rustweb_code::hyp::{self, AstData, Local, ModuleInfo, Span};

fn parse(text: &str) -> hyp::Module {
    let mut data = text.as_bytes().to_vec();
    data.push(0);
    let mut p = Parser::new(data, "main.hyp".to_string());
    p.next();
    match p.rlambda_module() {
        Ok(m) => m,
        Err(_) => panic!("parse failed"),
    }
}

fn resolver(text: &str) -> (Resolver, hyp::AstLambda) {
    let (lambda, info) = ModuleInfo::from_module("main".to_string(), vec![], parse(text));
    (Resolver::new(0, vec![info], false), lambda)
}

#[test]
fn names_leave_scope_when_it_ends() {
    let (mut r, _) = resolver("let a = 1;");
    let lc = r.begin_scope();
    r.add_local("a".to_string(), Local::Local { index: 0, inline: None }, Span(0, 1));
    assert!(r.find_local(&"a".to_string()).is_some());
    r.end_scope(lc);
    assert!(r.find_local(&"a".to_string()).is_none());
    assert_eq!(r.scope_local_list.len(), lc.0);
}

#[test]
fn outer_names_stay_in_scope() {
    let (mut r, _) = resolver("let a = 1; let b = 2;");
    r.add_local("a".to_string(), Local::Local { index: 0, inline: None }, Span(0, 1));
    let lc = r.begin_scope();
    r.add_local("b".to_string(), Local::Local { index: 1, inline: None }, Span(2, 3));
    r.end_scope(lc);
    match r.find_local(&"a".to_string()) {
        Some(Local::Local { index: 0, inline: None }) => {},
        _ => panic!("a should still name local 0"),
    }
    assert!(r.find_local(&"b".to_string()).is_none());
}

#[test]
fn shadowing_is_an_error() {
    let (mut r, _) = resolver("let a = 1;");
    r.add_local("a".to_string(), Local::Local { index: 0, inline: None }, Span(0, 1));
    r.add_local("a".to_string(), Local::Local { index: 0, inline: None }, Span(4, 5));
    assert_eq!(r.errors.len(), 1);
    assert_eq!(r.errors[0].1, "not allowed to shadow this name");
}

#[test]
fn identifiers_resolve_to_their_locals() {
    let (mut r, mut lambda) = resolver("let a = 1; a;");
    r.resolve(&mut lambda);
    assert_eq!(r.errors.len(), 0);
    assert_eq!(lambda.expr.len(), 2);
    match &lambda.expr[1].data {
        AstData::Local { local: Local::Local { index: 0, inline: None } } => {},
        _ => panic!("a should resolve to local 0"),
    }
}

#[test]
fn unknown_names_stay_identifiers() {
    let (mut r, mut lambda) = resolver("nowhere;");
    r.resolve(&mut lambda);
    match &lambda.expr[0].data {
        AstData::Ident { s } => assert_eq!(s, "nowhere"),
        _ => panic!("an unknown name stays as it is"),
    }
}

#[test]
fn a_use_names_its_module() {
    let (lambda_lib, lib) = ModuleInfo::from_module("lib".to_string(), vec![], parse("pub let x = 1;"));
    let (mut lambda, main) = ModuleInfo::from_module("main".to_string(), vec![1], parse("use lib; lib;"));
    let _ = lambda_lib;
    let mut r = Resolver::new(0, vec![main, lib], false);
    r.resolve(&mut lambda);
    assert_eq!(r.errors.len(), 0);
    match &lambda.expr[1].data {
        AstData::Local { local: Local::ModuleRef { abs_index: 1 } } => {},
        _ => panic!("lib should name module 1"),
    }
}

#[test]
fn closing_a_scope_weighs_its_locals() {
    let (mut r, _) = resolver("let a = 1;");
    let lc = r.begin_scope();
    r.add_local("a".to_string(), Local::Local { index: 0, inline: None }, Span(0, 1));
    let _ = r.find_local(&"a".to_string());
    r.end_scope(lc);
    assert_eq!(r.conflict_tree_stack.len(), 1);
    assert_eq!(r.conflict_tree_stack[0].children.len(), 1);
    assert_eq!(r.conflict_tree_stack[0].children[0].items, vec![(0u32, 2usize)]);
}

#[test]
fn an_inlined_value_replaces_its_uses() {
    let (mut r, mut lambda) = resolver("@inline let k = 2; k;");
    r.resolve(&mut lambda);
    assert_eq!(r.errors.len(), 0);
    assert_eq!(lambda.expr.len(), 1);
    assert!(matches!(lambda.expr[0].data, AstData::ConstLit { v: hyp::Lit::Int(2) }));
}

#[test]
fn an_untyped_declaration_takes_the_type_of_its_value() {
    let (mut r, mut lambda) = resolver("let x = 1;");
    r.resolve(&mut lambda);
    assert_eq!(r.errors.len(), 0);
    assert!(matches!(r.module_infos[0].locals[0].ty, hyp::AstType::U64));
}
