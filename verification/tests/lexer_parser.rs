use rustweb_code::hyp;
use rustweb_code::hyp::parser::{
    Parser, TT_CONSTFLOAT, TT_CONSTINT, TT_CONSTSTR, TT_EOF, TT_EQUAL, TT_IDENT, TT_LET, TT_LPAREN,
    TT_RBRACE, TT_RPAREN, TT_SEMICOLON, TT_USE,
};

fn parser(text: &str) -> Parser {
    let mut data = text.as_bytes().to_vec();
    data.push(0);
    let mut p = Parser::new(data, "test.hyp".to_string());
    p.next();
    p
}

#[test]
fn lexes_a_declaration() {
    let mut p = parser("let x = 42;");
    assert_eq!(p.tt, TT_LET);
    p.next();
    assert_eq!(p.tt, TT_IDENT);
    assert_eq!(p.token_ident, "x");
    p.next();
    assert_eq!(p.tt, TT_EQUAL);
    p.next();
    assert_eq!(p.tt, TT_CONSTINT);
    assert_eq!(p.token_number, 42);
    p.next();
    assert_eq!(p.tt, TT_SEMICOLON);
    p.next();
    assert_eq!(p.tt, TT_EOF);
}

#[test]
fn lexes_hex_float_and_string() {
    let mut p = parser("0x1F 1.50 \"hi\"");
    assert_eq!(p.tt, TT_CONSTINT);
    assert_eq!(p.token_number, 31);
    p.next();
    assert_eq!(p.tt, TT_CONSTFLOAT);
    assert_eq!(p.token_float, "1.50");
    p.next();
    assert_eq!(p.tt, TT_CONSTSTR);
    assert_eq!(p.token_ident, "hi");
    p.next();
    assert_eq!(p.tt, TT_EOF);
}

#[test]
fn lexes_keywords_and_parens() {
    let mut p = parser("use (a)");
    assert_eq!(p.tt, TT_USE);
    p.next();
    assert_eq!(p.tt, TT_LPAREN);
    p.next();
    assert_eq!(p.tt, TT_IDENT);
    p.next();
    assert_eq!(p.tt, TT_RPAREN);
}

#[test]
fn reading_past_the_end_gives_eof() {
    let mut p = parser("");
    assert_eq!(p.tt, TT_EOF);
    p.next();
    assert_eq!(p.tt, TT_EOF);
}

#[test]
fn parses_an_exported_declaration() {
    let p = parser("pub let x = 1;");
    let m = match p.rlambda_module() {
        Ok(m) => m,
        Err(_) => panic!("parse failed"),
    };
    assert_eq!(m.locals.len(), 1);
    assert_eq!(m.locals[0].name, "x");
    assert_eq!(m.exports, vec![0u32]);
    assert_eq!(m.exports_rev.len(), 1);
    assert_eq!(m.exports_rev[0].0, "x");
    assert_eq!(m.lambda.expr.len(), 1);
    assert!(matches!(m.language, hyp::Language::Js));
    assert!(hyp::check::module_is_ok(&m));
}

#[test]
fn parses_uses_and_functions() {
    let p = parser("use lib; pub fn f(a) { a }");
    let m = match p.rlambda_module() {
        Ok(m) => m,
        Err(_) => panic!("parse failed"),
    };
    assert_eq!(m.uses.len(), 1);
    assert_eq!(m.uses[0].1, "lib");
    assert_eq!(m.exports.len(), 1);
    let f = m.exports[0] as usize;
    assert_eq!(m.locals[f].name, "f");
    assert!(hyp::check::module_is_ok(&m));
}

#[test]
fn language_attribute_switches_to_glsl() {
    let p = parser("@language(glsl);");
    let m = match p.rlambda_module() {
        Ok(m) => m,
        Err(_) => panic!("parse failed"),
    };
    assert!(matches!(m.language, hyp::Language::Glsl));
}

#[test]
fn unknown_attribute_is_an_error() {
    let p = parser("@nonsense let x = 1;");
    match p.rlambda_module() {
        Ok(_) => panic!("should not parse"),
        Err((src, path, err)) => {
            assert_eq!(path, "test.hyp");
            assert_eq!(src.last(), Some(&0u8));
            assert_eq!(err.1, "unknown attribute");
        }
    }
}

#[test]
fn missing_closing_brace_is_an_error() {
    let p = parser("fn f() { 1");
    assert!(p.rlambda_module().is_err());
}

#[test]
fn error_location_counts_lines_and_columns() {
    let data = b"ab\ncde\nf";
    let loc = hyp::error_location(data, 5);
    assert_eq!(loc.line, 2);
    assert_eq!(loc.col, 3);
    assert_eq!(loc.start, 3);
    assert_eq!(loc.stop, 5);
    let first = hyp::error_location(data, 0);
    assert_eq!(first.line, 1);
    assert_eq!(first.col, 1);
}

#[test]
fn layout_of_basic_types() {
    assert_eq!(hyp::AstType::U32.align_of_size_of(), (4, 4));
    assert_eq!(hyp::AstType::F64.align_of_size_of(), (8, 8));
    assert_eq!(hyp::AstType::U8.align_of_size_of(), (1, 1));
    let arr = hyp::AstType::FixedArr(Box::new(hyp::AstType::U32), 3);
    assert_eq!(arr.align_of_size_of(), (4, 12));
    assert_eq!(hyp::mult_to_shift(8), 3);
    assert_eq!(hyp::mult_to_shift(1), 0);
    assert_eq!(hyp::align_offset(5, 4), 8);
    assert_eq!(hyp::align_offset(8, 4), 8);
}

#[test]
fn struct_layout_aligns_fields() {
    let mut def = hyp::StructDef::new(vec![
        hyp::StructField::new("a".to_string(), hyp::AstType::U8),
        hyp::StructField::new("b".to_string(), hyp::AstType::U32),
    ]);
    assert_eq!(def.align_of_size_of(), (4, 8));
    def.ensure_offsets_computed();
    assert_eq!(def.align_of_size_of(), (4, 8));
    assert_eq!(hyp::mult_to_shift(0), 1);
    assert_eq!(hyp::mult_to_shift(6), 1);
}

#[test]
fn parses_loops_and_branches_with_empty_bodies() {
    let p = parser("var n = 3; for i in 0..n {}; while n {}; if n {}");
    let m = match p.rlambda_module() {
        Ok(m) => m,
        Err(_) => panic!("parse failed"),
    };
    assert_eq!(m.lambda.expr.len(), 4);
    match &m.lambda.expr[1].data {
        hyp::AstData::For { name, pat, iter, body } => {
            assert_eq!(name, "i");
            assert_eq!(*pat, 1);
            assert!(matches!(iter.0.data, hyp::AstData::ConstLit { v: hyp::Lit::Int(0) }));
            assert!(matches!(&iter.1.data, hyp::AstData::Ident { s } if s == "n"));
            assert_eq!(body.expr.len(), 0);
        }
        _ => panic!("expected a for loop"),
    }
    match &m.lambda.expr[2].data {
        hyp::AstData::While { cond, body } => {
            assert!(matches!(&cond.data, hyp::AstData::Ident { s } if s == "n"));
            assert_eq!(body.expr.len(), 0);
        }
        _ => panic!("expected a while loop"),
    }
    match &m.lambda.expr[3].data {
        hyp::AstData::If { body, else_body, .. } => {
            assert_eq!(body.expr.len(), 0);
            assert!(else_body.is_none());
        }
        _ => panic!("expected an if"),
    }
}

#[test]
fn empty_braces_read_as_an_empty_lambda() {
    let mut p = parser("{}");
    let l = match p.rlambda_block_del() {
        Ok(l) => l,
        Err(_) => panic!("parse failed"),
    };
    assert_eq!(l.params.len(), 0);
    assert_eq!(l.expr.len(), 0);
    assert_eq!(p.tt, TT_RBRACE);
}

#[test]
fn calls_fields_and_indexes_chain() {
    let mut p = parser("f().b[c]");
    let a = match p.rexpr() {
        Ok(a) => a,
        Err(_) => panic!("parse failed"),
    };
    match &a.data {
        hyp::AstData::Index { base, index } => {
            assert!(matches!(&index.data, hyp::AstData::Ident { s } if s == "c"));
            match &base.data {
                hyp::AstData::Field { base, member } => {
                    assert!(matches!(&member.data, hyp::AstData::Ident { s } if s == "b"));
                    match &base.data {
                        hyp::AstData::App { params, kind, .. } => {
                            assert_eq!(params.len(), 0);
                            assert!(matches!(kind, hyp::AppKind::Normal));
                        }
                        _ => panic!("expected a call"),
                    }
                }
                _ => panic!("expected a field"),
            }
        }
        _ => panic!("expected an index"),
    }
}

#[test]
fn debug_attribute_marks_the_expression() {
    let p = parser("@debug x");
    let m = match p.rlambda_module() {
        Ok(m) => m,
        Err(_) => panic!("parse failed"),
    };
    assert_eq!(m.lambda.expr.len(), 1);
    assert!(matches!(m.lambda.expr[0].attr, hyp::Attr::Debug));
}

#[test]
fn pub_before_an_expression_is_an_error() {
    let p = parser("pub x");
    match p.rlambda_module() {
        Ok(_) => panic!("should not parse"),
        Err((_, _, err)) => assert_eq!(err.1, "spurious 'pub'"),
    }
}

#[test]
fn a_name_is_a_pattern_declaring_a_local() {
    let mut p = parser("a");
    let mut locals: Vec<u32> = Vec::new();
    let pat = match p.rpattern(&mut locals, &hyp::AstType::Any) {
        Ok(pat) => pat,
        Err(_) => panic!("parse failed"),
    };
    assert!(matches!(pat, hyp::Pattern::Local(0)));
    assert_eq!(locals, vec![0u32]);
    assert_eq!(p.locals.len(), 1);
    assert_eq!(p.locals[0].name, "a");
}

fn binary_parts(a: &hyp::Ast) -> (String, &hyp::Ast, &hyp::Ast) {
    match &a.data {
        hyp::AstData::App { fun, params, kind } => {
            assert!(matches!(kind, hyp::AppKind::Binary));
            assert_eq!(params.len(), 2);
            let op = match &fun.data {
                hyp::AstData::Ident { s } => s.clone(),
                _ => panic!("operator is not a name"),
            };
            (op, &params[0], &params[1])
        }
        _ => panic!("expected a binary application"),
    }
}

fn name_of(a: &hyp::Ast) -> String {
    match &a.data {
        hyp::AstData::Ident { s } => s.clone(),
        _ => panic!("expected a name"),
    }
}

#[test]
fn multiplication_binds_tighter_than_addition() {
    let mut p = parser("a + b * c");
    let e = match p.rexpr() {
        Ok(e) => e,
        Err(_) => panic!("parse failed"),
    };
    assert_eq!(p.tt, TT_EOF);
    let (op, l, r) = binary_parts(&e);
    assert_eq!(op, "+");
    assert_eq!(name_of(l), "a");
    let (op2, l2, r2) = binary_parts(r);
    assert_eq!(op2, "*");
    assert_eq!(name_of(l2), "b");
    assert_eq!(name_of(r2), "c");
}

#[test]
fn subtraction_groups_to_the_left() {
    let mut p = parser("a - b - c");
    let e = match p.rexpr() {
        Ok(e) => e,
        Err(_) => panic!("parse failed"),
    };
    let (op, l, r) = binary_parts(&e);
    assert_eq!(op, "-");
    assert_eq!(name_of(r), "c");
    let (op2, l2, r2) = binary_parts(l);
    assert_eq!(op2, "-");
    assert_eq!(name_of(l2), "a");
    assert_eq!(name_of(r2), "b");
}

#[test]
fn assignment_groups_to_the_right() {
    let mut p = parser("a := b := c");
    let e = match p.rexpr() {
        Ok(e) => e,
        Err(_) => panic!("parse failed"),
    };
    let (op, l, r) = binary_parts(&e);
    assert_eq!(op, ":=");
    assert_eq!(name_of(l), "a");
    let (op2, l2, r2) = binary_parts(r);
    assert_eq!(op2, ":=");
    assert_eq!(name_of(l2), "b");
    assert_eq!(name_of(r2), "c");
}

#[test]
fn a_function_with_empty_parameters_is_read_as_one_item() {
    let mut p = parser("pub fn f() {}");
    let mut lam = hyp::AstLambda::new_empty();
    assert!(p.rlambda(&mut lam, TT_EOF).is_ok());
    assert_eq!(lam.expr.len(), 1);
    match &lam.expr[0].data {
        hyp::AstData::FnLocal { name, local_index, exported, lambda } => {
            assert_eq!(name, "f");
            assert_eq!(*local_index, 0);
            assert!(*exported);
            assert_eq!(lambda.params.len(), 0);
            assert_eq!(lambda.expr.len(), 0);
        }
        _ => panic!("expected a function"),
    }
    assert_eq!(p.locals.len(), 1);
    assert_eq!(p.exports, vec![0u32]);
    assert_eq!(p.tt, TT_EOF);
}

#[test]
fn a_pointer_shift_query_fills_the_layout_cache() {
    let mut def = hyp::StructDef::new(vec![
        hyp::StructField::new("a".to_string(), hyp::AstType::U8),
        hyp::StructField::new("b".to_string(), hyp::AstType::U32),
    ]);
    assert!(!def.computed_offset);
    assert_eq!(def.ptr_shift(), 1);
    assert!(def.computed_offset);
    assert_eq!((def.align_of, def.size_of), (4, 8));
}

#[test]
fn parses_an_exported_empty_function() {
    let mut p = parser("pub fn f() {}");
    let mut lam = hyp::AstLambda::new_empty();
    assert!(p.rlambda(&mut lam, TT_EOF).is_ok());
    assert_eq!(p.tt, TT_EOF);
    assert_eq!(lam.expr.len(), 1);
    match &lam.expr[0].data {
        hyp::AstData::FnLocal { name, lambda, local_index, exported } => {
            assert_eq!(name, "f");
            assert_eq!(*local_index, 0);
            assert!(*exported);
            assert!(lambda.params.is_empty());
            assert!(lambda.param_locals.is_empty());
            assert!(lambda.expr.is_empty());
            assert!(matches!(lambda.return_type, hyp::AstType::NoType));
        },
        _ => panic!("expected a function"),
    }
    assert_eq!(p.locals.len(), 1);
    assert_eq!(p.locals[0].name, "f");
    assert_eq!(p.exports, vec![0u32]);
    assert_eq!(p.exports_rev.len(), 1);
    assert_eq!(p.exports_rev[0].0, "f");
    assert_eq!(p.exports_rev[0].1, 0);
}

fn shape(a: &hyp::Ast) -> String {
    match &a.data {
        hyp::AstData::Ident { s } => s.clone(),
        hyp::AstData::ConstLit { v: hyp::Lit::Int(n) } => format!("{}", n),
        hyp::AstData::App { fun, params, kind: hyp::AppKind::Binary } => {
            let op = match &fun.data {
                hyp::AstData::Ident { s } => s.clone(),
                _ => "?".to_string(),
            };
            format!("{}({}, {})", op, shape(&params[0]), shape(&params[1]))
        },
        _ => "?".to_string(),
    }
}

#[test]
fn an_if_keeps_its_else_branch() {
    let mut p = parser("if x {} else {}");
    let e = p.rsimple_expr().ok().unwrap();
    match &e.data {
        hyp::AstData::If { cond, body, else_body } => {
            assert_eq!(shape(cond), "x");
            assert!(body.expr.is_empty());
            match else_body {
                Some(b) => match &b.data {
                    hyp::AstData::Block { expr } => assert!(expr.is_empty()),
                    _ => panic!("expected a block"),
                },
                None => panic!("the else branch was dropped"),
            }
        },
        _ => panic!("expected an if"),
    }
}

#[test]
fn primaries_keep_their_contents() {
    let mut p = parser("(x)");
    let e = p.rprimary_del().ok().unwrap();
    assert_eq!(shape(&e), "x");
    let mut p = parser("[7]");
    let e = p.rprimary_del().ok().unwrap();
    match &e.data {
        hyp::AstData::Array { elems } => {
            assert_eq!(elems.len(), 1);
            assert_eq!(shape(&elems[0]), "7");
        },
        _ => panic!("expected an array"),
    }
    let mut p = parser("new {}");
    let e = p.rprimary_del().ok().unwrap();
    match &e.data {
        hyp::AstData::NewObject { assignments } => assert!(assignments.is_empty()),
        _ => panic!("expected an object"),
    }
}

#[test]
fn a_lambda_in_braces_keeps_its_items() {
    let mut p = parser("{x; let y}");
    let e = p.rprimary_del().ok().unwrap();
    match &e.data {
        hyp::AstData::Lambda { lambda } => {
            assert_eq!(lambda.expr.len(), 2);
            assert_eq!(shape(&lambda.expr[0]), "x");
            match &lambda.expr[1].data {
                hyp::AstData::LetLocal { name, init, local_index, .. } => {
                    assert_eq!(name, "y");
                    assert!(init.is_none());
                    assert_eq!(*local_index, 0);
                },
                _ => panic!("expected a declaration"),
            }
        },
        _ => panic!("expected a lambda"),
    }
    assert_eq!(p.locals.len(), 1);
}
