use rustweb_code::binary::bundler::{safe_for_js, Bundler};
use rustweb_code::conflict_tree::ConflictTree;
use rustweb_code::hyp::parser::Parser;
use rustweb_code::hyp::{self, AstLambda, AstType, Attr, Language, LocalDef, ModuleInfo, Use};
use rustweb_code::js_bundler::{bundle_js, module_ordering, BuildError, JsBundler};
use rustweb_code::loader::{path_key_of, use_path, ModuleLoader};
use rustweb_code::wasm::{get_varuint32, put_varuint32, varuint32_len, Reader, Section};

fn local(name: &str) -> LocalDef {
    LocalDef { ty: AstType::Any, name: name.to_string(), is_mut: false, const_value: None, need_qualification: false }
}

fn info(name: &str, names: &[&str], language: Language) -> ModuleInfo {
    let locals = names.iter().map(|n| local(n)).collect();
    let (_, mi) = ModuleInfo::from_externals(name.to_string(), locals, vec![], language);
    mi
}

fn parse(text: &str) -> hyp::Module {
    let mut data = text.as_bytes().to_vec();
    data.push(0);
    let mut p = Parser::new(data, "main.hyp".to_string());
    p.next();
    match p.rlambda_module() {
        Ok(m) => m,
        Err(_) => panic!("parse failed"),
    }
}

fn binary_module(src: &[u8]) -> hyp::Module {
    hyp::Module {
        lambda: AstLambda::new_empty(),
        src: src.to_vec(),
        path: "data.bin".to_string(),
        uses: vec![],
        locals: vec![],
        local_types: vec![],
        exports: vec![],
        exports_rev: vec![],
        language: Language::Binary,
    }
}

#[test]
fn bundles_a_declaration() {
    let modules = vec![("main".to_string(), parse("pub let x = 1;"), vec![])];
    match bundle_js(&modules, false) {
        Ok(s) => assert_eq!(s, "(function(window){\nvar x = 1;\n})(this)"),
        Err(_) => panic!("bundle failed"),
    }
}

#[test]
fn bundles_an_empty_program() {
    let modules = vec![("main".to_string(), parse(""), vec![])];
    match bundle_js(&modules, true) {
        Ok(s) => assert_eq!(s, "(function(window){\n})(this)"),
        Err(_) => panic!("bundle failed"),
    }
}

#[test]
fn bundles_binary_modules() {
    let modules = vec![
        ("main".to_string(), parse(""), vec![]),
        ("text".to_string(), binary_module(b"abc"), vec![]),
        ("raw".to_string(), binary_module(&[0u8, 1u8]), vec![]),
    ];
    match bundle_js(&modules, false) {
        Ok(s) => assert_eq!(
            s,
            "(function(window){\nvar $bin=(\"abc\"+atob(\"AAE\")).split('').map(x=>x.charCodeAt(0));})(this)"
        ),
        Err(_) => panic!("bundle failed"),
    }
}

#[test]
fn malformed_import_map_is_refused() {
    let modules = vec![("main".to_string(), parse("use lib;"), vec![5u32])];
    match bundle_js(&modules, false) {
        Err(BuildError::Malformed(0)) => {}
        _ => panic!("should be refused"),
    }
    let modules = vec![("main".to_string(), parse("use lib;"), vec![])];
    match bundle_js(&modules, false) {
        Err(BuildError::Malformed(0)) => {}
        _ => panic!("should be refused"),
    }
}

#[test]
fn free_names_are_global_paths() {
    let modules = vec![("main".to_string(), parse("let x = nowhere;"), vec![])];
    match bundle_js(&modules, false) {
        Ok(s) => assert_eq!(s, "(function(window){\nvar x = nowhere;\n})(this)"),
        Err(_) => panic!("bundle failed"),
    }
}

#[test]
fn inline_declaration_without_value_is_an_error() {
    let modules = vec![("main".to_string(), parse("@inline let x;"), vec![])];
    match bundle_js(&modules, false) {
        Err(BuildError::Resolve(0, errors)) => {
            assert_eq!(errors.len(), 1);
            assert_eq!(errors[0].1, "inline declaration without a value");
        }
        _ => panic!("should fail"),
    }
}

#[test]
fn imports_come_first() {
    let mut a = info("a", &[], Language::Js);
    let mut b = info("b", &[], Language::Js);
    let c = info("c", &[], Language::Js);
    a.import_map = vec![1];
    b.import_map = vec![2];
    let order = module_ordering(&vec![a, b, c]);
    assert_eq!(order, vec![2, 1, 0]);

    let mut a = info("a", &[], Language::Js);
    let b = info("b", &[], Language::Js);
    let mut c = info("c", &[], Language::Js);
    a.import_map = vec![2, 1];
    c.import_map = vec![1];
    assert_eq!(module_ordering(&vec![a, b, c]), vec![1, 2, 0]);
}

#[test]
fn a_cycle_still_lists_each_module_once() {
    let mut a = info("a", &[], Language::Js);
    let mut b = info("b", &[], Language::Js);
    a.import_map = vec![1];
    b.import_map = vec![0];
    assert_eq!(module_ordering(&vec![a, b]), vec![1, 0]);
}

#[test]
fn conflicting_names_are_renamed() {
    let mut m0 = info("m0", &["x", "y"], Language::Js);
    let mut t0 = ConflictTree::new();
    t0.add_item(0, 1);
    t0.add_item(1, 1);
    m0.conflict_tree = t0;
    let mut m1 = info("m1", &["x"], Language::Js);
    let mut t1 = ConflictTree::new();
    t1.add_item(0, 1);
    m1.conflict_tree = t1;
    let ls = vec![AstLambda::new_empty(), AstLambda::new_empty()];
    let mut bun = JsBundler::new(vec![m0, m1], &ls);
    bun.resolve_name_conflicts();
    assert_eq!(bun.module_infos[0].locals[0].name, "x");
    assert_eq!(bun.module_infos[0].locals[1].name, "y");
    assert_eq!(bun.module_infos[1].locals[0].name, "x$0");
    assert!(bun.ok);
}

#[test]
fn names_in_sibling_scopes_may_repeat() {
    let mut m0 = info("m0", &["x", "z", "z", "x"], Language::Js);
    let mut root = ConflictTree::new();
    root.add_item(0, 1);
    let mut c1 = ConflictTree::new();
    c1.add_item(1, 1);
    c1.add_item(3, 1);
    let mut c2 = ConflictTree::new();
    c2.add_item(2, 1);
    root.add_child(c1);
    root.add_child(c2);
    m0.conflict_tree = root;
    let glsl = info("g", &["x"], Language::Glsl);
    let ls = vec![AstLambda::new_empty(), AstLambda::new_empty()];
    let mut bun = JsBundler::new(vec![m0, glsl], &ls);
    bun.resolve_name_conflicts();
    let names: Vec<String> = bun.module_infos[0].locals.iter().map(|l| l.name.clone()).collect();
    assert_eq!(names, vec!["x", "z", "z", "x$0"]);
    assert_eq!(bun.module_infos[1].locals[0].name, "x");
}

#[test]
fn conflict_tree_weighs_and_assigns() {
    let mut root: ConflictTree<u32> = ConflictTree::new();
    root.add_item(10, 5);
    root.add_item(11, 3);
    let mut c1 = ConflictTree::new();
    c1.add_item(20, 2);
    let mut c2 = ConflictTree::new();
    c2.add_item(30, 4);
    root.add_child(c1);
    root.add_child(c2);
    assert_eq!(root.checked_value(), Some(6));
    assert_eq!(root.compute_sum_of_max(), 6);
    let mut result = Vec::new();
    assert!(root.assign_best(&mut result));
    assert_eq!(result, vec![20, 30]);
    assert!(root.assign_best(&mut result));
    assert_eq!(result, vec![20, 30, 10]);
    assert!(!root.assign_best(&mut result));
    assert_eq!(result, vec![20, 30, 10, 11]);
}

#[test]
fn append_moves_items_and_children() {
    let mut a: ConflictTree<u32> = ConflictTree::new();
    a.add_item(1, 1);
    let mut b = ConflictTree::new();
    b.add_item(2, 2);
    b.add_child(ConflictTree::new());
    a.append(b);
    assert_eq!(a.items, vec![(1, 1), (2, 2)]);
    assert_eq!(a.children.len(), 1);
}

#[test]
fn binary_bytes_safe_for_javascript() {
    assert!(safe_for_js(b'a'));
    assert!(safe_for_js(b'\t'));
    assert!(!safe_for_js(b'"'));
    assert!(!safe_for_js(b'\\'));
    assert!(!safe_for_js(b'\n'));
    assert!(!safe_for_js(127));
}

#[test]
fn binary_bundle_splits_by_safety() {
    let mut infos = vec![info("m", &[], Language::Js)];
    let mut bin1 = info("b1", &[], Language::Binary);
    bin1.src = b"ab".to_vec();
    let mut bin2 = info("b2", &[], Language::Binary);
    bin2.src = vec![0, 200];
    let mut bin3 = info("b3", &[], Language::Binary);
    bin3.src = b"cd".to_vec();
    infos.push(bin1);
    infos.push(bin2);
    infos.push(bin3);
    let bun = Bundler::bundle(&mut infos);
    assert_eq!(bun.js_safe, b"abcd".to_vec());
    assert_eq!(bun.base64, vec![0, 200]);
    assert_eq!(bun.offsets.get(&1), Some(&(true, 0)));
    assert_eq!(bun.offsets.get(&2), Some(&(false, 0)));
    assert_eq!(bun.offsets.get(&3), Some(&(true, 2)));
    assert_eq!(bun.offsets.get(&0), None);
}

#[test]
fn use_paths_are_relative_to_the_importer() {
    assert_eq!(use_path(&"dir/main.hyp".to_string(), &"lib".to_string()), "dir/lib.hyp");
    assert_eq!(use_path(&"main.hyp".to_string(), &"a/b".to_string()), "a/b.hyp");
    assert_eq!(use_path(&"dir/main.hyp".to_string(), &"img.png".to_string()), "dir/img.png");
    assert_eq!(use_path(&"/main.hyp".to_string(), &"x".to_string()), "/x.hyp");
    assert_eq!(use_path(&"dir/main.hyp".to_string(), &"/abs/y".to_string()), "/abs/y.hyp");
}

#[test]
fn loader_reads_each_module_once_in_order() {
    let mut loader = ModuleLoader::new("src/main.hyp".to_string());
    let (i, attr, path) = loader.next_module().unwrap();
    assert_eq!(i, 0);
    assert!(attr == Attr::NoAttr);
    assert_eq!(path, "src/main.hyp");
    let uses = vec![
        Use(Attr::NoAttr, "a".to_string()),
        Use(Attr::Binary, "b.bin".to_string()),
        Use(Attr::NoAttr, "a".to_string()),
    ];
    assert_eq!(loader.add_uses(&path, &uses), vec![1, 2, 1]);
    let (i, attr, path) = loader.next_module().unwrap();
    assert_eq!(i, 1);
    assert!(attr == Attr::NoAttr);
    assert_eq!(path, "src/a.hyp");
    assert_eq!(loader.add_uses(&path, &vec![Use(Attr::NoAttr, "main".to_string())]), vec![0]);
    let (i, attr, path) = loader.next_module().unwrap();
    assert_eq!(i, 2);
    assert!(attr == Attr::Binary);
    assert_eq!(path, "src/b.bin");
    assert!(loader.next_module().is_none());
}

#[test]
fn varuint_round_trip() {
    let mut buf = Vec::new();
    put_varuint32(&mut buf, 300);
    assert_eq!(buf, vec![0xAC, 0x02]);
    assert_eq!(varuint32_len(300), 2);
    assert_eq!(varuint32_len(5), 1);
    assert_eq!(get_varuint32(&buf, 0), (300, 2));
    let mut buf = vec![9u8];
    put_varuint32(&mut buf, 0x0FFF_FFFF);
    assert_eq!(buf.len(), 5);
    assert_eq!(get_varuint32(&buf, 1), (0x0FFF_FFFF, 5));
}

#[test]
fn sections_are_written_and_read_back() {
    let s = Section { name: vec![], data: vec![1, 2, 3], id: 1 };
    let mut buf = vec![0, 0x61, 0x73, 0x6d, 1, 0, 0, 0];
    s.write(&mut buf);
    assert_eq!(&buf[8..], &[1, 3, 1, 2, 3]);
    let custom = Section { name: b"ab".to_vec(), data: vec![7], id: 0 };
    custom.write(&mut buf);
    assert_eq!(&buf[13..], &[0, 4, 2, b'a', b'b', 7]);
    let r = Reader::from(&buf);
    assert_eq!(r.magic, 0x6d736100);
    assert_eq!(r.version, 1);
    assert_eq!(r.sections.len(), 2);
    assert_eq!(r.sections[0].id, 1);
    assert_eq!(r.sections[0].data, vec![1, 2, 3]);
    assert_eq!(r.sections[1].name, b"ab".to_vec());
    assert_eq!(r.sections[1].data, vec![7]);
}

#[test]
fn paths_compare_by_their_components() {
    assert_eq!(path_key_of(&"a//b/./c/".to_string()), "a/b/c");
    assert_eq!(path_key_of(&"./a/b".to_string()), "./a/b");
    assert_eq!(path_key_of(&"/x//y".to_string()), "/x/y");
    assert_eq!(path_key_of(&"".to_string()), "");
    assert_eq!(use_path(&"dir/main.hyp".to_string(), &"./lib.hyp".to_string()), "dir/lib.hyp");
    let mut loader = ModuleLoader::new("src/main.hyp".to_string());
    let (_, _, path) = loader.next_module().unwrap();
    let uses = vec![Use(Attr::NoAttr, "x/./a.hyp".to_string()), Use(Attr::NoAttr, "x//a.hyp".to_string())];
    assert_eq!(loader.add_uses(&path, &uses), vec![1, 1]);
}

#[test]
fn assigning_loses_no_item() {
    let mut root: ConflictTree<u32> = ConflictTree::new();
    root.add_item(1, 2);
    root.add_item(2, 1);
    let mut c = ConflictTree::new();
    c.add_item(3, 1);
    c.add_item(4, 3);
    root.add_child(c);
    assert_eq!(root.compute_sum_of_max(), 3);
    let mut result = Vec::new();
    assert!(root.assign_best(&mut result));
    assert_eq!(result, vec![4]);
    while root.assign_best(&mut result) {}
    assert_eq!(result, vec![4, 1, 3, 2]);
}
