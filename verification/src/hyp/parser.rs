use vstd::prelude::*;
use super::{
    Ast, AstData, AstLambda, AstType, AppKind, Attr, Ident, Language, LocalDef, Lit, Module,
    ModuleResult, ParamDef, ParseError, ParseResult, Pattern, Span, StructDef, StructField, TypeDef,
    Use, AstRef,
};
use crate::text::push_char;

verus! {

pub const TT_COMMA: u16 = 0;
pub const TT_COLON: u16 = 1;
pub const TT_DOT: u16 = 2;
pub const TT_UNDERSCORE: u16 = 4;
pub const TT_IDENT: u16 = 5;
pub const TT_OPIDENT: u16 = 6;
pub const TT_CONSTINT: u16 = 7;
pub const TT_LBRACE: u16 = 8;
pub const TT_RBRACE: u16 = 9;
pub const TT_LPAREN: u16 = 10;
pub const TT_RPAREN: u16 = 11;
pub const TT_LBRACKET: u16 = 12;
pub const TT_RBRACKET: u16 = 13;
pub const TT_EQUAL: u16 = 14;
pub const TT_QUESTIONMARK: u16 = 15;
pub const TT_BACKSLASH: u16 = 16;
pub const TT_DOLLAR: u16 = 17;
pub const TT_LET: u16 = 18;
pub const TT_VAR: u16 = 19;
pub const TT_FUN: u16 = 20;
pub const TT_TYP: u16 = 21;
pub const TT_AS: u16 = 22;
pub const TT_WHILE: u16 = 22;
pub const TT_LOOP: u16 = 23;
pub const TT_FOR: u16 = 24;
pub const TT_RETURN: u16 = 25;
pub const TT_IF: u16 = 26;
pub const TT_ELSE: u16 = 26;
pub const TT_USE: u16 = 27;
pub const TT_CONSTSTR: u16 = 28;
pub const TT_PUB: u16 = 29;
pub const TT_AT: u16 = 30;
pub const TT_CONSTFLOAT: u16 = 31;
pub const TT_SEMICOLON: u16 = 32;
pub const TT_NEW: u16 = 33;
pub const TT_BREAK: u16 = 34;
pub const TT_IN: u16 = 35;
pub const TT_DOUBLEDOT: u16 = 36;
pub const TT_TYPE: u16 = 37;
pub const TT_EOF: u16 = 254;
pub const TT_INVALID: u16 = 255;

pub type Tt = u16;

// ---------------------------------------------------------------------------
// Character classes

/// The byte at `i`, or 0 past either end: the source reads as if it were
/// followed by zero bytes.
pub open spec fn byte_at(src: Seq<u8>, i: int) -> u8 {
    if 0 <= i < src.len() {
        src[i]
    } else {
        0
    }
}

pub open spec fn is_letter(c: u8) -> bool {
    (97 <= c <= 122) || (65 <= c <= 90)
}

pub open spec fn is_digit(c: u8) -> bool {
    48 <= c <= 57
}

pub open spec fn is_hex_digit(c: u8) -> bool {
    is_digit(c) || (97 <= c <= 102) || (65 <= c <= 70)
}

/// A byte that starts an identifier: a letter or `'`.
pub open spec fn is_ident_start(c: u8) -> bool {
    is_letter(c) || c == 39
}

/// A byte that continues an identifier: a letter, a digit or `_`.
pub open spec fn is_ident_inner(c: u8) -> bool {
    is_letter(c) || is_digit(c) || c == 95
}

/// White space: space, tab, `\`, carriage return, newline, and `#`, which
/// starts a comment.
pub open spec fn is_space(c: u8) -> bool {
    c == 32 || c == 9 || c == 92 || c == 13 || c == 10 || c == 35
}

pub open spec fn is_newline(c: u8) -> bool {
    c == 13 || c == 10
}

/// The precedence of an operator that starts with `c`, when `c` is an
/// operator character.
pub open spec fn op_prec(c: u8) -> Option<u8> {
    if c == 58 {
        Some(0u8)  // :

    } else if c == 124 {
        Some(1u8)  // |

    } else if c == 64 || c == 38 || c == 94 {
        Some(2u8)  // @ & ^

    } else if c == 33 || c == 61 || c == 60 || c == 62 {
        Some(3u8)  // ! = < >

    } else if c == 43 || c == 45 {
        Some(4u8)  // + -

    } else if c == 42 || c == 37 || c == 47 || c == 126 {
        Some(5u8)  // * % / ~

    } else if c == 46 {
        Some(6u8)  // .

    } else {
        None
    }
}

pub open spec fn is_op_char(c: u8) -> bool {
    op_prec(c) is Some
}

/// The token of a byte that is a token by itself; any byte that starts no
/// token is invalid.
pub open spec fn single_tt(c: u8) -> u16 {
    if c == 0 {
        TT_EOF
    } else if c == 123 {
        TT_LBRACE
    } else if c == 125 {
        TT_RBRACE
    } else if c == 40 {
        TT_LPAREN
    } else if c == 41 {
        TT_RPAREN
    } else if c == 91 {
        TT_LBRACKET
    } else if c == 93 {
        TT_RBRACKET
    } else if c == 44 {
        TT_COMMA
    } else if c == 59 {
        TT_SEMICOLON
    } else {
        TT_INVALID
    }
}

fn is_letter_x(c: u8) -> (r: bool)
    ensures
        r == is_letter(c),
{
    (c >= 97 && c <= 122) || (c >= 65 && c <= 90)
}

fn is_digit_x(c: u8) -> (r: bool)
    ensures
        r == is_digit(c),
{
    c >= 48 && c <= 57
}

fn is_space_x(c: u8) -> (r: bool)
    ensures
        r == is_space(c),
{
    c == 32 || c == 9 || c == 92 || c == 13 || c == 10 || c == 35
}

fn is_newline_x(c: u8) -> (r: bool)
    ensures
        r == is_newline(c),
{
    c == 13 || c == 10
}

/// An operator token's text starts with the byte it was read from; an
/// assigning operator has precedence 0, any other the precedence of its
/// first byte.
proof fn lemma_op_lexeme(s: Seq<u8>, q: int)
    ensures
        scan_token(s, q).0 matches Lexeme::Op(t, p, r) ==> 0 <= q < s.len() && t.len() >= 1 && t[0] == (s[q] as char)
            && (r ==> p == 0) && (!r ==> op_prec(s[q]) == Some(p)),
{
    if 0 <= q < s.len() && is_op_char(s[q]) {
        lemma_run_end(s, q + 1, 1);
        let e = run_end(s, q + 1, 1);
        let w = s.subrange(q, e);
        assert(w[0] == s[q]);
        assert(bytes_text(w)[0] == (w[0] as char));
    }
}

/// Operators bind by the first character of their text, from the
/// loosest: `:`, then `|`, then `&` `^` `@`, then `<` `>` `=` `!`, then
/// `+` `-`, then `*` `/` `%` `~`, then `.`; an assigning operator binds
/// loosest of all. So in `a < b - c` the `-`
/// takes `b` (`binds_right`), and in `a - b * c` the `*` does.
pub proof fn law_operator_precedence(s1: Seq<u8>, q1: int, s2: Seq<u8>, q2: int)
    ensures
        scan_token(s1, q1).0 matches Lexeme::Op(t1, p1, r1) ==> (scan_token(s2, q2).0 matches Lexeme::Op(
            t2,
            p2,
            r2,
        ) ==> ((!r1 && !r2 && (t1[0] == '<' || t1[0] == '>' || t1[0] == '=' || t1[0] == '!') && (t2[0] == '+'
            || t2[0] == '-') ==> p1 < p2 && binds_right(p1, p2, r2)) && (!r1 && !r2 && (t1[0] == '+' || t1[0]
            == '-') && (t2[0] == '*' || t2[0] == '/' || t2[0] == '%') ==> p1 < p2 && binds_right(p1, p2, r2))
            && (!r1 && !r2 && t1[0] == ':' && t2[0] == '|' ==> p1 < p2) && (!r1 && !r2 && t1[0] == '|' && (
            t2[0] == '&' || t2[0] == '^' || t2[0] == '@') ==> p1 < p2) && (!r1 && !r2 && (t1[0] == '&' || t1[0]
            == '^' || t1[0] == '@') && (t2[0] == '<' || t2[0] == '>' || t2[0] == '=' || t2[0] == '!') ==> p1
            < p2) && (!r1 && !r2 && (t1[0] == '*' || t1[0] == '/' || t1[0] == '%' || t1[0] == '~') && t2[0]
            == '.' ==> p1 < p2) && (r1 ==> p1 <= p2))),
{
    lemma_op_lexeme(s1, q1);
    lemma_op_lexeme(s2, q2);
}

fn op_prec_x(c: u8) -> (r: Option<u8>)
    ensures
        r == op_prec(c),
{
    if c == 58 {
        Some(0)
    } else if c == 124 {
        Some(1)
    } else if c == 64 || c == 38 || c == 94 {
        Some(2)
    } else if c == 33 || c == 61 || c == 60 || c == 62 {
        Some(3)
    } else if c == 43 || c == 45 {
        Some(4)
    } else if c == 42 || c == 37 || c == 47 || c == 126 {
        Some(5)
    } else if c == 46 {
        Some(6)
    } else {
        None
    }
}

fn single_tt_x(c: u8) -> (r: u16)
    ensures
        r == single_tt(c),
{
    if c == 0 {
        TT_EOF
    } else if c == 123 {
        TT_LBRACE
    } else if c == 125 {
        TT_RBRACE
    } else if c == 40 {
        TT_LPAREN
    } else if c == 41 {
        TT_RPAREN
    } else if c == 91 {
        TT_LBRACKET
    } else if c == 93 {
        TT_RBRACKET
    } else if c == 44 {
        TT_COMMA
    } else if c == 59 {
        TT_SEMICOLON
    } else {
        TT_INVALID
    }
}

fn byte_x(src: &Vec<u8>, i: usize) -> (r: u8)
    ensures
        r == byte_at(src@, i as int),
{
    if i < src.len() {
        src[i]
    } else {
        0
    }
}

// ---------------------------------------------------------------------------
// Runs of bytes

/// The bytes that continue a run of the given kind: 0 an identifier, 1 an
/// operator, 2 a decimal number, 3 a hexadecimal number, 4 a string.
pub open spec fn in_run(kind: u8, c: u8) -> bool {
    if kind == 0 {
        is_ident_inner(c)
    } else if kind == 1 {
        is_op_char(c)
    } else if kind == 2 {
        is_digit(c)
    } else if kind == 3 {
        is_hex_digit(c)
    } else {
        c != 34 && c != 0
    }
}

/// The end of the run of `kind` that starts at `i`.
pub open spec fn run_end(src: Seq<u8>, i: int, kind: u8) -> int
    decreases src.len() - i,
{
    if 0 <= i < src.len() && in_run(kind, src[i]) {
        run_end(src, i + 1, kind)
    } else {
        i
    }
}

pub proof fn lemma_run_end(src: Seq<u8>, i: int, kind: u8)
    requires
        0 <= i <= src.len(),
    ensures
        i <= run_end(src, i, kind) <= src.len(),
        forall|j: int| i <= j < run_end(src, i, kind) ==> in_run(kind, #[trigger] src[j]),
        !in_run(kind, byte_at(src, run_end(src, i, kind))) || run_end(src, i, kind) == src.len(),
    decreases src.len() - i,
{
    if i < src.len() && in_run(kind, src[i]) {
        lemma_run_end(src, i + 1, kind);
    }
}

fn in_run_x(kind: u8, c: u8) -> (r: bool)
    ensures
        r == in_run(kind, c),
{
    if kind == 0 {
        is_letter_x(c) || is_digit_x(c) || c == 95
    } else if kind == 1 {
        op_prec_x(c).is_some()
    } else if kind == 2 {
        is_digit_x(c)
    } else if kind == 3 {
        is_digit_x(c) || (c >= 97 && c <= 102) || (c >= 65 && c <= 70)
    } else {
        c != 34 && c != 0
    }
}

fn scan_run(src: &Vec<u8>, i: usize, kind: u8) -> (r: usize)
    requires
        i <= src@.len(),
    ensures
        r == run_end(src@, i as int, kind),
        i <= r <= src@.len(),
{
    proof {
        lemma_run_end(src@, i as int, kind);
    }
    let mut j = i;
    while j < src.len() && in_run_x(kind, src[j])
        invariant
            i <= j <= src@.len(),
            run_end(src@, j as int, kind) == run_end(src@, i as int, kind),
        decreases src@.len() - j,
    {
        j = j + 1;
    }
    j
}

// ---------------------------------------------------------------------------
// White space and comments

/// The tokens after which a line break does not end a statement.
pub open spec fn continues_line(tt: u16) -> bool {
    tt == TT_LPAREN || tt == TT_LBRACKET || tt == TT_LBRACE || tt == TT_COMMA || tt == TT_DOT
        || tt == TT_DOUBLEDOT || tt == TT_SEMICOLON || tt == TT_EQUAL || tt == TT_OPIDENT || tt
        == TT_TYP || tt == TT_FUN || tt == TT_LET || tt == TT_TYPE || tt == TT_DOLLAR
}

fn continues_line_x(tt: u16) -> (r: bool)
    ensures
        r == continues_line(tt),
{
    tt == TT_LPAREN || tt == TT_LBRACKET || tt == TT_LBRACE || tt == TT_COMMA || tt == TT_DOT
        || tt == TT_DOUBLEDOT || tt == TT_SEMICOLON || tt == TT_EQUAL || tt == TT_OPIDENT || tt
        == TT_TYP || tt == TT_FUN || tt == TT_LET || tt == TT_TYPE || tt == TT_DOLLAR
}

/// Reads a comment from `i` at bracket depth `nest`, `nl` telling whether
/// the byte read last was a line break. A comment at depth 0 ends after a
/// line break or a zero byte; `#[`..`]` comments nest, and end after the
/// closing `]` without reading it as a byte of the line (so `nl` stays that
/// of the byte before). The source's end ends any comment. Gives the
/// position after the comment and the final `nl`.
pub open spec fn comment_scan(src: Seq<u8>, i: int, nest: nat, nl: bool) -> (int, bool)
    decreases src.len() - i,
{
    if i < 0 || i >= src.len() {
        (i, nl)
    } else {
        let ch = src[i];
        if nest == 1 && ch == 93 {
            (i + 1, nl)
        } else {
            let nest2: nat = if nest > 0 {
                if ch == 91 {
                    nest + 1
                } else if ch == 93 {
                    (nest - 1) as nat
                } else {
                    nest
                }
            } else {
                nest
            };
            let nl2 = is_newline(ch);
            if nest2 == 0 && (nl2 || ch == 0) {
                (i + 1, nl2)
            } else {
                comment_scan(src, i + 1, nest2, nl2)
            }
        }
    }
}

pub proof fn lemma_comment_scan(src: Seq<u8>, i: int, nest: nat, nl: bool)
    requires
        0 <= i <= src.len(),
    ensures
        i <= comment_scan(src, i, nest, nl).0 <= src.len(),
    decreases src.len() - i,
{
    if i < src.len() {
        let ch = src[i];
        if !(nest == 1 && ch == 93) {
            let nest2: nat = if nest > 0 {
                if ch == 91 {
                    nest + 1
                } else if ch == 93 {
                    (nest - 1) as nat
                } else {
                    nest
                }
            } else {
                nest
            };
            lemma_comment_scan(src, i + 1, nest2, is_newline(ch));
        }
    }
}

/// The position after the comment whose `#` was read just before `p`, and
/// whether its end counts as a line break.
pub open spec fn after_comment(src: Seq<u8>, p: int, nl: bool) -> (int, bool) {
    if byte_at(src, p) == 91 {
        comment_scan(src, p + 1, 1, nl)
    } else {
        comment_scan(src, p, 0, nl)
    }
}

/// Skips white space, the byte `ch` having just been read before `p`, `nl`
/// telling whether it counts as a line break. A line break ends the
/// statement (`true`, with the position after it) unless the previous token
/// `prev_tt` continues the line; else the result is `false` with the
/// position of the next byte that is not white space.
pub open spec fn ws_scan(src: Seq<u8>, p: int, ch: u8, nl: bool, prev_tt: u16) -> (bool, int)
    decreases src.len() - p,
{
    let (p1, nl1) = if ch == 35 {
        after_comment(src, p, nl)
    } else {
        (p, nl)
    };
    if nl1 && !continues_line(prev_tt) {
        (true, p1)
    } else {
        let c = byte_at(src, p1);
        if !is_space(c) || p1 < p || p1 >= src.len() {
            (false, p1)
        } else {
            ws_scan(src, p1 + 1, c, is_newline(c), prev_tt)
        }
    }
}

/// Where the lexer stands before reading a token at `cur`: when white space
/// starts there, whether a statement ends inside it, and the position after it.
pub open spec fn lex_start(src: Seq<u8>, cur: int, prev_tt: u16) -> (bool, int) {
    let c = byte_at(src, cur);
    if is_space(c) && cur < src.len() {
        ws_scan(src, cur + 1, c, is_newline(c), prev_tt)
    } else {
        (false, cur)
    }
}

fn scan_comment(src: &Vec<u8>, p: usize, nl0: bool) -> (r: (usize, bool))
    requires
        p <= src@.len(),
    ensures
        (r.0 as int, r.1) == after_comment(src@, p as int, nl0),
        p <= r.0 <= src@.len(),
{
    let mut i = p;
    let mut nest: usize = 0;
    if p < src.len() && src[p] == 91 {
        i = p + 1;
        nest = 1;
    }
    let mut nl = nl0;
    proof {
        lemma_comment_scan(src@, i as int, nest as nat, nl);
    }
    let ghost goal = comment_scan(src@, i as int, nest as nat, nl);
    assert(goal == after_comment(src@, p as int, nl0));
    while i < src.len()
        invariant
            p <= i <= src@.len(),
            nest <= i,
            comment_scan(src@, i as int, nest as nat, nl) == goal,
            goal == after_comment(src@, p as int, nl0),
        decreases src@.len() - i,
    {
        let ch = src[i];
        if nest == 1 && ch == 93 {
            return (i + 1, nl);
        }
        let mut nest2 = nest;
        if nest > 0 {
            if ch == 91 {
                nest2 = nest + 1;
            } else if ch == 93 {
                nest2 = nest - 1;
            }
        }
        let nl2 = is_newline_x(ch);
        if nest2 == 0 && (nl2 || ch == 0) {
            return (i + 1, nl2);
        }
        nest = nest2;
        nl = nl2;
        i = i + 1;
    }
    (i, nl)
}

fn scan_space(src: &Vec<u8>, p: usize, ch: u8, nl: bool, prev_tt: u16) -> (r: (bool, usize))
    requires
        p <= src@.len(),
    ensures
        (r.0, r.1 as int) == ws_scan(src@, p as int, ch, nl, prev_tt),
        p <= r.1 <= src@.len(),
    decreases src@.len() - p,
{
    let (p1, nl1) = if ch == 35 {
        scan_comment(src, p, nl)
    } else {
        (p, nl)
    };
    if nl1 && !continues_line_x(prev_tt) {
        (true, p1)
    } else {
        let c = byte_x(src, p1);
        if !is_space_x(c) || p1 >= src.len() {
            (false, p1)
        } else {
            scan_space(src, p1 + 1, c, is_newline_x(c), prev_tt)
        }
    }
}

// ---------------------------------------------------------------------------
// Tokens

/// The text of bytes read one character per byte.
pub open spec fn bytes_text(w: Seq<u8>) -> Seq<char> {
    w.map_values(|b: u8| b as char)
}

pub open spec fn w1(s: Seq<u8>, a: u8) -> bool {
    s.len() == 1 && s[0] == a
}

pub open spec fn w2(s: Seq<u8>, a: u8, b: u8) -> bool {
    s.len() == 2 && s[0] == a && s[1] == b
}

pub open spec fn w3(s: Seq<u8>, a: u8, b: u8, c: u8) -> bool {
    s.len() == 3 && s[0] == a && s[1] == b && s[2] == c
}

pub open spec fn w4(s: Seq<u8>, a: u8, b: u8, c: u8, d: u8) -> bool {
    s.len() == 4 && s[0] == a && s[1] == b && s[2] == c && s[3] == d
}

pub open spec fn w5(s: Seq<u8>, a: u8, b: u8, c: u8, d: u8, e: u8) -> bool {
    s.len() == 5 && s[0] == a && s[1] == b && s[2] == c && s[3] == d && s[4] == e
}

/// The token of a word that is a keyword or a punctuation mark:
/// `=` `.` `..` `:` `@` and `let pub var fn typ as while loop for in return
/// if else use new type break`.
pub open spec fn keyword(s: Seq<u8>) -> Option<u16> {
    if w1(s, 61) {
        Some(TT_EQUAL)
    } else if w1(s, 46) {
        Some(TT_DOT)
    } else if w2(s, 46, 46) {
        Some(TT_DOUBLEDOT)
    } else if w1(s, 58) {
        Some(TT_COLON)
    } else if w1(s, 64) {
        Some(TT_AT)
    } else if w3(s, 108, 101, 116) {
        Some(TT_LET)
    } else if w3(s, 112, 117, 98) {
        Some(TT_PUB)
    } else if w3(s, 118, 97, 114) {
        Some(TT_VAR)
    } else if w2(s, 102, 110) {
        Some(TT_FUN)
    } else if w3(s, 116, 121, 112) {
        Some(TT_TYP)
    } else if w2(s, 97, 115) {
        Some(TT_AS)
    } else if w5(s, 119, 104, 105, 108, 101) {
        Some(TT_WHILE)
    } else if w4(s, 108, 111, 111, 112) {
        Some(TT_LOOP)
    } else if w3(s, 102, 111, 114) {
        Some(TT_FOR)
    } else if w2(s, 105, 110) {
        Some(TT_IN)
    } else if s.len() == 6 && s[0] == 114 && s[1] == 101 && s[2] == 116 && s[3] == 117 && s[4]
        == 114 && s[5] == 110 {
        Some(TT_RETURN)
    } else if w2(s, 105, 102) {
        Some(TT_IF)
    } else if w4(s, 101, 108, 115, 101) {
        Some(TT_ELSE)
    } else if w3(s, 117, 115, 101) {
        Some(TT_USE)
    } else if w3(s, 110, 101, 119) {
        Some(TT_NEW)
    } else if w4(s, 116, 121, 112, 101) {
        Some(TT_TYPE)
    } else if w5(s, 98, 114, 101, 97, 107) {
        Some(TT_BREAK)
    } else {
        None
    }
}

/// An assigning operator: `:=` `+=` `-=` `*=` `/=` `%=`.
pub open spec fn is_assign_op(s: Seq<u8>) -> bool {
    s.len() == 2 && s[1] == 61 && (s[0] == 58 || s[0] == 43 || s[0] == 45 || s[0] == 42 || s[0]
        == 47 || s[0] == 37)
}

/// The value of a run of decimal digits.
pub open spec fn dec_value(s: Seq<u8>) -> int
    decreases s.len(),
{
    if s.len() == 0 {
        0
    } else {
        dec_value(s.drop_last()) * 10 + (s.last() - 48)
    }
}

pub open spec fn hex_digit_value(c: u8) -> int {
    if is_digit(c) {
        c - 48
    } else if 97 <= c <= 102 {
        c - 87
    } else {
        c - 55
    }
}

/// The value of a run of hexadecimal digits.
pub open spec fn hex_value(s: Seq<u8>) -> int
    decreases s.len(),
{
    if s.len() == 0 {
        0
    } else {
        hex_value(s.drop_last()) * 16 + hex_digit_value(s.last())
    }
}

/// What the lexer reads at a position that is not white space.
pub enum Lexeme {
    /// A keyword or punctuation word, read as its token.
    Keyword(u16),
    Ident(Seq<char>),
    /// An operator, with its precedence and whether it groups to the right.
    Op(Seq<char>, u8, bool),
    /// A token of one byte (end of input and invalid bytes among them).
    Single(u16),
    Int(int),
    Float(Seq<char>),
    Str(Seq<char>),
}

/// The token that starts at `q` and the position after it. Identifiers
/// start with a letter or `'` and go on with letters, digits and `_`;
/// operators are runs of operator bytes, with the precedence of their first
/// byte, except the assigning ones, which have precedence 0 and group to
/// the right. Numbers are decimal, `0x` hexadecimal, or decimal with a
/// fraction (a `.` not followed by another `.`); an integer that does not fit
/// in an `i64`, or `0x` without digits, is invalid. A string runs from `"`
/// to the next `"` (not part of its text) or to a zero byte. The end of the
/// source reads as the end of input, at which the lexer stays.
pub open spec fn scan_token(src: Seq<u8>, q: int) -> (Lexeme, int) {
    let c = byte_at(src, q);
    if q >= src.len() {
        (Lexeme::Single(TT_EOF), q)
    } else if is_op_char(c) || is_ident_start(c) {
        let kind: u8 = if is_op_char(c) {
            1
        } else {
            0
        };
        let e = run_end(src, q + 1, kind);
        let w = src.subrange(q, e);
        match keyword(w) {
            Some(tt) => (Lexeme::Keyword(tt), e),
            None => if kind == 1 {
                if is_assign_op(w) {
                    (Lexeme::Op(bytes_text(w), 0, true), e)
                } else {
                    (Lexeme::Op(bytes_text(w), op_prec(c).unwrap(), false), e)
                }
            } else {
                (Lexeme::Ident(bytes_text(w)), e)
            },
        }
    } else if is_digit(c) {
        if c == 48 && byte_at(src, q + 1) == 120 {
            let e = run_end(src, q + 2, 3);
            let v = hex_value(src.subrange(q + 2, e));
            if e > q + 2 && v <= i64::MAX {
                (Lexeme::Int(v), e)
            } else {
                (Lexeme::Single(TT_INVALID), e)
            }
        } else {
            let e = run_end(src, q + 1, 2);
            if byte_at(src, e) == 46 && byte_at(src, e + 1) != 46 {
                let f = run_end(src, e + 1, 2);
                (Lexeme::Float(bytes_text(src.subrange(q, f))), f)
            } else {
                let v = dec_value(src.subrange(q, e));
                if v <= i64::MAX {
                    (Lexeme::Int(v), e)
                } else {
                    (Lexeme::Single(TT_INVALID), e)
                }
            }
        }
    } else if c == 34 {
        let e = run_end(src, q + 1, 4);
        (Lexeme::Str(bytes_text(src.subrange(q + 1, e))), if byte_at(src, e) == 34 {
            e + 1
        } else {
            e
        })
    } else {
        (Lexeme::Single(single_tt(c)), q + 1)
    }
}

fn keyword_x(src: &Vec<u8>, s: usize, e: usize) -> (r: Option<u16>)
    requires
        s <= e <= src@.len(),
    ensures
        r == keyword(src@.subrange(s as int, e as int)),
{
    let ghost w = src@.subrange(s as int, e as int);
    let n = e - s;
    if n == 0 || n > 6 {
        return None;
    }
    let b0 = src[s];
    let b1 = if n > 1 { src[s + 1] } else { 0 };
    let b2 = if n > 2 { src[s + 2] } else { 0 };
    let b3 = if n > 3 { src[s + 3] } else { 0 };
    let b4 = if n > 4 { src[s + 4] } else { 0 };
    let b5 = if n > 5 { src[s + 5] } else { 0 };
    assert(w.len() == n);
    assert(w[0] == b0);
    assert(n > 1 ==> w[1] == b1);
    assert(n > 2 ==> w[2] == b2);
    assert(n > 3 ==> w[3] == b3);
    assert(n > 4 ==> w[4] == b4);
    assert(n > 5 ==> w[5] == b5);
    if n == 1 && b0 == 61 {
        Some(TT_EQUAL)
    } else if n == 1 && b0 == 46 {
        Some(TT_DOT)
    } else if n == 2 && b0 == 46 && b1 == 46 {
        Some(TT_DOUBLEDOT)
    } else if n == 1 && b0 == 58 {
        Some(TT_COLON)
    } else if n == 1 && b0 == 64 {
        Some(TT_AT)
    } else if n == 3 && b0 == 108 && b1 == 101 && b2 == 116 {
        Some(TT_LET)
    } else if n == 3 && b0 == 112 && b1 == 117 && b2 == 98 {
        Some(TT_PUB)
    } else if n == 3 && b0 == 118 && b1 == 97 && b2 == 114 {
        Some(TT_VAR)
    } else if n == 2 && b0 == 102 && b1 == 110 {
        Some(TT_FUN)
    } else if n == 3 && b0 == 116 && b1 == 121 && b2 == 112 {
        Some(TT_TYP)
    } else if n == 2 && b0 == 97 && b1 == 115 {
        Some(TT_AS)
    } else if n == 5 && b0 == 119 && b1 == 104 && b2 == 105 && b3 == 108 && b4 == 101 {
        Some(TT_WHILE)
    } else if n == 4 && b0 == 108 && b1 == 111 && b2 == 111 && b3 == 112 {
        Some(TT_LOOP)
    } else if n == 3 && b0 == 102 && b1 == 111 && b2 == 114 {
        Some(TT_FOR)
    } else if n == 2 && b0 == 105 && b1 == 110 {
        Some(TT_IN)
    } else if n == 6 && b0 == 114 && b1 == 101 && b2 == 116 && b3 == 117 && b4 == 114 && b5
        == 110 {
        Some(TT_RETURN)
    } else if n == 2 && b0 == 105 && b1 == 102 {
        Some(TT_IF)
    } else if n == 4 && b0 == 101 && b1 == 108 && b2 == 115 && b3 == 101 {
        Some(TT_ELSE)
    } else if n == 3 && b0 == 117 && b1 == 115 && b2 == 101 {
        Some(TT_USE)
    } else if n == 3 && b0 == 110 && b1 == 101 && b2 == 119 {
        Some(TT_NEW)
    } else if n == 4 && b0 == 116 && b1 == 121 && b2 == 112 && b3 == 101 {
        Some(TT_TYPE)
    } else if n == 5 && b0 == 98 && b1 == 114 && b2 == 101 && b3 == 97 && b4 == 107 {
        Some(TT_BREAK)
    } else {
        None
    }
}

fn is_assign_op_x(src: &Vec<u8>, s: usize, e: usize) -> (r: bool)
    requires
        s <= e <= src@.len(),
    ensures
        r == is_assign_op(src@.subrange(s as int, e as int)),
{
    if e - s != 2 {
        return false;
    }
    let a = src[s];
    let b = src[s + 1];
    b == 61 && (a == 58 || a == 43 || a == 45 || a == 42 || a == 47 || a == 37)
}

/// A run of decimal digits has a value no smaller than that of any of its prefixes.
pub proof fn lemma_dec_prefix(w: Seq<u8>, k: int)
    requires
        0 <= k <= w.len(),
        forall|i: int| 0 <= i < w.len() ==> is_digit(#[trigger] w[i]),
    ensures
        0 <= dec_value(w.take(k)) <= dec_value(w),
    decreases w.len(),
{
    if w.len() > 0 {
        if k < w.len() {
            lemma_dec_prefix(w.drop_last(), k);
            assert(w.drop_last().take(k) =~= w.take(k));
        } else {
            assert(w.take(k) =~= w);
            lemma_dec_prefix(w.drop_last(), k - 1);
            assert(w.drop_last().take(k - 1) =~= w.drop_last());
        }
    } else {
        assert(w.take(k) =~= w);
    }
}

/// A run of hexadecimal digits has a value no smaller than that of any of its prefixes.
pub proof fn lemma_hex_prefix(w: Seq<u8>, k: int)
    requires
        0 <= k <= w.len(),
        forall|i: int| 0 <= i < w.len() ==> is_hex_digit(#[trigger] w[i]),
    ensures
        0 <= hex_value(w.take(k)) <= hex_value(w),
    decreases w.len(),
{
    if w.len() > 0 {
        if k < w.len() {
            lemma_hex_prefix(w.drop_last(), k);
            assert(w.drop_last().take(k) =~= w.take(k));
        } else {
            assert(w.take(k) =~= w);
            lemma_hex_prefix(w.drop_last(), k - 1);
            assert(w.drop_last().take(k - 1) =~= w.drop_last());
        }
    } else {
        assert(w.take(k) =~= w);
    }
}

/// Reads the digits `src[s..e]` in `base` (10 or 16): `None` when the value
/// does not fit in an `i64`.
fn parse_digits(src: &Vec<u8>, s: usize, e: usize, base: i64) -> (r: Option<i64>)
    requires
        s <= e <= src@.len(),
        base == 10 || base == 16,
        base == 10 ==> forall|i: int| s <= i < e ==> is_digit(#[trigger] src@[i]),
        base == 16 ==> forall|i: int| s <= i < e ==> is_hex_digit(#[trigger] src@[i]),
    ensures
        base == 10 ==> match r {
            Some(v) => v == dec_value(src@.subrange(s as int, e as int)),
            None => dec_value(src@.subrange(s as int, e as int)) > i64::MAX,
        },
        base == 16 ==> match r {
            Some(v) => v == hex_value(src@.subrange(s as int, e as int)),
            None => hex_value(src@.subrange(s as int, e as int)) > i64::MAX,
        },
{
    let ghost w = src@.subrange(s as int, e as int);
    let mut v: i64 = 0;
    let mut j = s;
    assert(w.take(0) =~= Seq::<u8>::empty());
    while j < e
        invariant
            s <= j <= e <= src@.len(),
            w == src@.subrange(s as int, e as int),
            base == 10 || base == 16,
            base == 10 ==> forall|i: int| s <= i < e ==> is_digit(#[trigger] src@[i]),
            base == 16 ==> forall|i: int| s <= i < e ==> is_hex_digit(#[trigger] src@[i]),
            base == 10 ==> v == dec_value(w.take(j - s)),
            base == 16 ==> v == hex_value(w.take(j - s)),
            0 <= v,
        decreases e - j,
    {
        let c = src[j];
        let d: i64 = if c >= 48 && c <= 57 {
            (c - 48) as i64
        } else if c >= 97 && c <= 102 {
            (c - 87) as i64
        } else {
            (c - 55) as i64
        };
        assert(w.take(j + 1 - s).drop_last() =~= w.take(j - s));
        assert(w.take(j + 1 - s).last() == c);
        assert(0 <= d < base);
        proof {
            if base == 10 {
                lemma_dec_prefix(w, j + 1 - s);
            } else {
                lemma_hex_prefix(w, j + 1 - s);
            }
            assert(w.take(e - s) =~= w);
        }
        let lim = (i64::MAX - d) / base;
        if v > lim {
            assert(v * base + d > i64::MAX) by (nonlinear_arith)
                requires
                    v > lim,
                    lim == (i64::MAX - d) as int / base as int,
                    0 <= d < base,
                    base == 10 || base == 16,
            ;
            return None;
        }
        assert(v * base + d <= i64::MAX) by (nonlinear_arith)
            requires
                v <= lim,
                lim == (i64::MAX - d) as int / base as int,
                0 <= v,
                0 <= d < base,
                base == 10 || base == 16,
        ;
        v = v * base + d;
        j = j + 1;
    }
    assert(w.take(e - s) =~= w);
    Some(v)
}

/// The bytes `src[s..e]` as text, one character per byte.
fn text_of(src: &Vec<u8>, s: usize, e: usize) -> (r: String)
    requires
        s <= e <= src@.len(),
    ensures
        r@ == bytes_text(src@.subrange(s as int, e as int)),
{
    let mut t = String::new();
    let mut j = s;
    while j < e
        invariant
            s <= j <= e <= src@.len(),
            t@ == bytes_text(src@.subrange(s as int, j as int)),
        decreases e - j,
    {
        push_char(&mut t, src[j] as char);
        assert(bytes_text(src@.subrange(s as int, j + 1)) =~= bytes_text(
            src@.subrange(s as int, j as int),
        ).push(src@[j as int] as char));
        j = j + 1;
    }
    t
}

// ---------------------------------------------------------------------------
// The parser state

/// A recursive-descent parser over one module's source. It keeps the token
/// just read (`tt`, with its text, number or precedence), its span
/// `prev_cur..cur`, and what the module declares so far.
pub struct Parser {
    pub tt: u16,
    pub src: Vec<u8>,
    pub prev_cur: usize,
    pub cur: usize,
    pub token_ident: Ident,
    pub token_prec: u8,
    pub is_rtl: bool,
    pub token_number: i64,
    /// The text of a float literal.
    pub token_float: String,
    pub uses: Vec<Use>,
    pub locals: Vec<LocalDef>,
    pub local_types: Vec<TypeDef>,
    /// Indices into `locals`.
    pub exports: Vec<u32>,
    pub exports_rev: Vec<(Ident, u32)>,
    pub language: Language,
    pub path: String,
}

/// The token fields of `new` are those of `old` after reading `lx`, where
/// `ident` is the identifier text before the read.
pub open spec fn token_read(old: Parser, new: Parser, lx: Lexeme, ident: Seq<char>) -> bool {
    let same_ident = new.token_ident@ == ident;
    let same_op = new.token_prec == old.token_prec && new.is_rtl == old.is_rtl;
    let same_number = new.token_number == old.token_number;
    let same_float = new.token_float@ == old.token_float@;
    match lx {
        Lexeme::Keyword(tt) => new.tt == tt && same_ident && same_op && same_number && same_float,
        Lexeme::Single(tt) => new.tt == tt && same_ident && same_op && same_number && same_float,
        Lexeme::Ident(t) => new.tt == TT_IDENT && new.token_ident@ == t && same_op && same_number
            && same_float,
        Lexeme::Op(t, p, r) => new.tt == TT_OPIDENT && new.token_ident@ == t && new.token_prec == p
            && new.is_rtl == r && same_number && same_float,
        Lexeme::Int(v) => new.tt == TT_CONSTINT && new.token_number == v && same_ident && same_op
            && same_float,
        Lexeme::Float(t) => new.tt == TT_CONSTFLOAT && new.token_float@ == t && same_ident
            && same_op && same_number,
        Lexeme::Str(t) => new.tt == TT_CONSTSTR && new.token_ident@ == t && same_op && same_number
            && same_float,
    }
}

/// `new` declares what `old` declares and reads the same source.
pub open spec fn same_decls(old: Parser, new: Parser) -> bool {
    &&& new.src == old.src
    &&& new.uses == old.uses
    &&& new.locals == old.locals
    &&& new.local_types == old.local_types
    &&& new.exports == old.exports
    &&& new.exports_rev == old.exports_rev
    &&& new.language == old.language
    &&& new.path == old.path
}

/// `new` is `old` after the lexer read one token, `ident` being the
/// identifier text before the read.
pub open spec fn lexed_with(old: Parser, new: Parser, ident: Seq<char>) -> bool {
    let (semi, q) = lex_start(old.src@, old.cur as int, old.tt);
    &&& same_decls(old, new)
    &&& semi ==> new.cur == q && new.prev_cur == old.cur && token_read(
        old,
        new,
        Lexeme::Single(TT_SEMICOLON),
        ident,
    )
    &&& !semi ==> new.prev_cur == q && new.cur == scan_token(old.src@, q).1 && token_read(
        old,
        new,
        scan_token(old.src@, q).0,
        ident,
    )
}

/// `new` is `old` after the lexer read one token.
pub open spec fn lexed(old: Parser, new: Parser) -> bool {
    lexed_with(old, new, old.token_ident@)
}

/// The kind of token a lexeme reads as.
pub open spec fn lexeme_tt(lx: Lexeme) -> u16 {
    match lx {
        Lexeme::Keyword(tt) => tt,
        Lexeme::Single(tt) => tt,
        Lexeme::Ident(_) => TT_IDENT,
        Lexeme::Op(_, _, _) => TT_OPIDENT,
        Lexeme::Int(_) => TT_CONSTINT,
        Lexeme::Float(_) => TT_CONSTFLOAT,
        Lexeme::Str(_) => TT_CONSTSTR,
    }
}

/// The kind and the end of the token that the lexer reads after a token of
/// kind `tt` ending at `cur`.
pub open spec fn lex_next(src: Seq<u8>, cur: int, tt: u16) -> (u16, int) {
    let (semi, q) = lex_start(src, cur, tt);
    if semi {
        (TT_SEMICOLON, q)
    } else {
        (lexeme_tt(scan_token(src, q).0), scan_token(src, q).1)
    }
}

/// The kind and the end of the token `k` places after the token of kind
/// `tt` ending at `cur`.
pub open spec fn tok_at(src: Seq<u8>, cur: int, tt: u16, k: nat) -> (u16, int)
    decreases k,
{
    if k == 0 {
        (tt, cur)
    } else {
        let (t, c) = lex_next(src, cur, tt);
        tok_at(src, c, t, (k - 1) as nat)
    }
}

/// `new` reads the source of `old` and stands `k` tokens further on.
pub open spec fn advanced(old: Parser, new: Parser, k: nat) -> bool {
    &&& new.src == old.src
    &&& tok_at(old.src@, old.cur as int, old.tt, k) == (new.tt, new.cur as int)
}

/// Going `j` tokens and then `k` more is going `j + k` tokens.
pub proof fn lemma_tok_at_add(src: Seq<u8>, cur: int, tt: u16, j: nat, k: nat)
    ensures
        tok_at(src, cur, tt, j + k) == tok_at(
            src,
            tok_at(src, cur, tt, j).1,
            tok_at(src, cur, tt, j).0,
            k,
        ),
    decreases j,
{
    if j > 0 {
        let (t, c) = lex_next(src, cur, tt);
        lemma_tok_at_add(src, c, t, (j - 1) as nat, k);
        assert((j + k - 1) as nat == (j - 1) as nat + k);
    }
}

/// Reading a token goes one token further on.
pub proof fn lemma_lexed_advanced(old: Parser, new: Parser, ident: Seq<char>)
    requires
        lexed_with(old, new, ident),
    ensures
        advanced(old, new, 1),
{
    reveal_with_fuel(tok_at, 2);
}

/// Going `m` tokens and then `n` more is going `m + n` tokens; a parser
/// that stands `n` tokens on sees ahead what the first sees `n` further.
pub proof fn lemma_advanced_trans(a: Parser, b: Parser, c: Parser, m: nat, n: nat)
    requires
        advanced(a, b, m),
        advanced(b, c, n),
    ensures
        advanced(a, c, m + n),
{
    lemma_tok_at_add(a.src@, a.cur as int, a.tt, m, n);
}

/// A parser that stands `n` tokens on sees ahead what the first sees `n`
/// further.
pub proof fn lemma_advanced_ahead(a: Parser, b: Parser, n: nat)
    requires
        advanced(a, b, n),
    ensures
        forall|j: nat| #[trigger] b.ahead(j) == a.ahead(n + j),
{
    assert forall|j: nat| #[trigger] b.ahead(j) == a.ahead(n + j) by {
        lemma_tok_at_add(a.src@, a.cur as int, a.tt, n, j);
    }
}

impl Parser {
    /// The kind of the token `k` places after the current one.
    pub open spec fn ahead(&self, k: nat) -> u16 {
        tok_at(self.src@, self.cur as int, self.tt, k).0
    }
}

/// The lexeme that the lexer reads after a token of kind `tt` ending at
/// `cur`.
pub open spec fn lex_lexeme(src: Seq<u8>, cur: int, tt: u16) -> Lexeme {
    let (semi, q) = lex_start(src, cur, tt);
    if semi {
        Lexeme::Single(TT_SEMICOLON)
    } else {
        scan_token(src, q).0
    }
}

impl Parser {
    /// The lexeme `k` tokens after the current one (`k` at least 1).
    pub open spec fn lexeme_ahead(&self, k: nat) -> Lexeme {
        let (t, c) = tok_at(self.src@, self.cur as int, self.tt, (k - 1) as nat);
        lex_lexeme(self.src@, c, t)
    }
}

/// `new` stands `k` tokens on from `old` (`k` at least 1) and, when the
/// token it read there is an operator, holds its text, precedence and
/// grouping; when a name, its text; when an integer, its value.
pub open spec fn read_at(old: Parser, new: Parser, k: nat) -> bool {
    &&& k >= 1
    &&& advanced(old, new, k)
    &&& old.lexeme_ahead(k) matches Lexeme::Op(t, p, rtl) ==> new.token_ident@ == t && new.token_prec
        == p && new.is_rtl == rtl
    &&& old.lexeme_ahead(k) matches Lexeme::Ident(t) ==> new.token_ident@ == t
    &&& old.lexeme_ahead(k) matches Lexeme::Int(v) ==> new.token_number == v
}

/// The kind of the token `k` ahead is that of its lexeme.
pub proof fn lemma_lexeme_kind(p: Parser, k: nat)
    requires
        k >= 1,
    ensures
        p.ahead(k) == lexeme_tt(p.lexeme_ahead(k)),
{
    lemma_tok_at_add(p.src@, p.cur as int, p.tt, (k - 1) as nat, 1);
    assert((k - 1) as nat + 1 == k);
    reveal_with_fuel(tok_at, 2);
}

/// Reading a token reads the lexeme one ahead.
pub proof fn lemma_lexed_read(a: Parser, b: Parser, ident: Seq<char>)
    requires
        lexed_with(a, b, ident),
    ensures
        read_at(a, b, 1),
{
    lemma_lexed_advanced(a, b, ident);
}

/// A name just read holds the text of the name one token ahead.
pub proof fn lemma_lexed_name(a: Parser, b: Parser, ident: Seq<char>)
    requires
        lexed_with(a, b, ident),
        b.tt == TT_IDENT || b.tt == TT_OPIDENT,
    ensures
        b.token_ident@ == name_at(a, 1),
{
    reveal_with_fuel(tok_at, 1);
    assert(a.lexeme_ahead(1) == lex_lexeme(a.src@, a.cur as int, a.tt));
}

/// Going `m` tokens and then reading `n` more reads `m + n` tokens on.
pub proof fn lemma_read_trans(a: Parser, b: Parser, c: Parser, m: nat, n: nat)
    requires
        advanced(a, b, m),
        read_at(b, c, n),
    ensures
        read_at(a, c, m + n),
{
    lemma_advanced_trans(a, b, c, m, n);
    lemma_tok_at_add(a.src@, a.cur as int, a.tt, m, (n - 1) as nat);
    assert(m + (n - 1) as nat == (m + n - 1) as nat);
}

/// A parser `n` tokens on sees the same lexemes as the first `n` further.
pub proof fn lemma_advanced_lexeme(a: Parser, b: Parser, n: nat, j: nat)
    requires
        advanced(a, b, n),
        j >= 1,
    ensures
        b.lexeme_ahead(j) == a.lexeme_ahead(n + j),
{
    lemma_tok_at_add(a.src@, a.cur as int, a.tt, n, (j - 1) as nat);
    assert(n + (j - 1) as nat == (n + j - 1) as nat);
}

/// A name or an integer, with no field, call or index after it: a simple
/// expression of its own, `k` tokens ahead.
pub open spec fn simple_leaf_at(p: Parser, k: nat) -> bool {
    &&& p.ahead(k) == TT_IDENT || p.ahead(k) == TT_CONSTINT
    &&& p.ahead(k + 1) != TT_DOT
    &&& p.ahead(k + 1) != TT_LPAREN
    &&& p.ahead(k + 1) != TT_LBRACKET
}

/// What stands `k` tokens ahead continues no expression.
pub open spec fn end_after(p: Parser, k: nat) -> bool {
    &&& p.ahead(k) != TT_DOT
    &&& p.ahead(k) != TT_LPAREN
    &&& p.ahead(k) != TT_LBRACKET
    &&& p.ahead(k) != TT_OPIDENT
}

/// A tree made of a name or an integer only.
pub open spec fn is_leaf(a: Ast) -> bool {
    a.data is Ident || a.data is ConstLit
}

/// `a` is the leaf that the token `k` ahead of `p` reads as (`k` at least
/// 1): the name with its text, or the integer with its value.
pub open spec fn leaf_ahead(p: Parser, k: nat, a: Ast) -> bool {
    match p.lexeme_ahead(k) {
        Lexeme::Ident(t) => a.data matches AstData::Ident { s } && s@ == t,
        Lexeme::Int(v) => a.data matches AstData::ConstLit { v: Lit::Int(n) } && n == v,
        _ => is_leaf(a),
    }
}

/// The operand `i` of the application `a`.
pub open spec fn app_arg(a: Ast, i: int) -> Ast {
    match a.data {
        AstData::App { params, .. } => params@[i],
        _ => a,
    }
}

/// The leaf read after going `k` tokens is the leaf `k` tokens ahead.
pub proof fn lemma_leaf_read(a: Parser, b: Parser, k: nat, x: Ast)
    requires
        read_at(a, b, k),
        leaf_of(b, x),
        is_leaf(x),
        b.tt == TT_IDENT || b.tt == TT_CONSTINT,
    ensures
        leaf_ahead(a, k, x),
{
    lemma_lexeme_kind(a, k);
}

/// A leaf `k` tokens ahead of a parser that stands `n` tokens on is `n + k`
/// tokens ahead of the first.
pub proof fn lemma_leaf_shift(a: Parser, b: Parser, n: nat, k: nat, x: Ast)
    requires
        advanced(a, b, n),
        k >= 1,
        leaf_ahead(b, k, x),
    ensures
        leaf_ahead(a, n + k, x),
{
    lemma_advanced_lexeme(a, b, n, k);
}

/// `a` applies the binary operator `op` to `l` and a leaf.
pub open spec fn bin_leaf(a: Ast, op: Seq<char>, l: Ast) -> bool {
    a.data matches AstData::App { fun, params, kind } && kind is Binary && (fun.data matches AstData::Ident {
        s,
    } && s@ == op) && params@.len() == 2 && params@[0] == l && is_leaf(params@[1])
}

/// `a` applies the binary operator `op1` to `l` and to `b`.
pub open spec fn bin_app(a: Ast, op1: Seq<char>, l: Ast, b: Ast) -> bool {
    a.data matches AstData::App { fun, params, kind } && kind is Binary && (fun.data matches AstData::Ident {
        s,
    } && s@ == op1) && params@.len() == 2 && params@[0] == l && params@[1] == b
}

/// `a` is `op1` applied to `l` and to `op2` applied to two leaves: the
/// second operator takes the operand between them.
pub open spec fn bin_right(a: Ast, op1: Seq<char>, op2: Seq<char>, l: Ast) -> bool {
    a.data matches AstData::App { params, .. } && params@.len() == 2 && bin_app(a, op1, l, params@[1]) && (
    params@[1].data matches AstData::App { params: q, .. } && q@.len() == 2 && bin_leaf(params@[1], op2, q@[0])
        && is_leaf(q@[0]))
}

/// `a` is `op2` applied to `op1` applied to `l` and a leaf, and to a
/// leaf: the first operator takes the operand between them.
pub open spec fn bin_left(a: Ast, op1: Seq<char>, op2: Seq<char>, l: Ast) -> bool {
    a.data matches AstData::App { params, .. } && params@.len() == 2 && bin_leaf(a, op2, params@[0])
        && bin_leaf(params@[0], op1, l)
}

/// Whether an operator of precedence `p2` (grouping right when `rtl2`)
/// after one of precedence `p1` takes the operand between them.
pub open spec fn binds_right(p1: u8, p2: u8, rtl2: bool) -> bool {
    if rtl2 {
        p2 >= p1
    } else {
        p2 > p1
    }
}

/// One operator of precedence at least `min` and a simple leaf, then the
/// end of the expression.
pub open spec fn one_op(p: Parser, min: u8) -> bool {
    &&& p.tt == TT_OPIDENT
    &&& p.token_prec >= min
    &&& simple_leaf_at(p, 1)
    &&& end_after(p, 2)
}

/// Two operators of precedence at least `min`, each followed by a simple
/// leaf, then the end of the expression.
pub open spec fn two_ops(p: Parser, min: u8) -> bool {
    &&& p.tt == TT_OPIDENT
    &&& p.token_prec >= min
    &&& simple_leaf_at(p, 1)
    &&& p.lexeme_ahead(2) matches Lexeme::Op(_, p2, _) && p2 >= min
    &&& simple_leaf_at(p, 3)
    &&& end_after(p, 4)
}

/// The token is a name or an integer, and what follows it neither reads
/// a field, calls, indexes nor applies an operator: it is an expression
/// of its own.
pub open spec fn leaf_expr(p: Parser) -> bool {
    &&& p.tt == TT_IDENT || p.tt == TT_CONSTINT
    &&& p.ahead(1) != TT_DOT
    &&& p.ahead(1) != TT_LPAREN
    &&& p.ahead(1) != TT_LBRACKET
    &&& p.ahead(1) != TT_OPIDENT
}

impl Parser {
    /// How much input is left: two per byte, and one more unless the token
    /// read is the end of input. Reading a token that is not the end of
    /// input makes it smaller.
    pub open spec fn measure(&self) -> nat {
        (2 * (self.src@.len() - self.cur) + if self.tt == TT_EOF {
            0int
        } else {
            1int
        }) as nat
    }

    /// The state every parser keeps: the cursor within the source, and
    /// the token's span before it.
    pub open spec fn wf(&self) -> bool {
        &&& self.cur <= self.src@.len()
        &&& self.prev_cur <= self.cur
    }

    fn read_token(&mut self, q: usize)
        requires
            q <= old(self).src@.len(),
        ensures
            same_decls(*old(self), *final(self)),
            final(self).prev_cur == old(self).prev_cur,
            final(self).cur == scan_token(old(self).src@, q as int).1,
            token_read(
                *old(self),
                *final(self),
                scan_token(old(self).src@, q as int).0,
                old(self).token_ident@,
            ),
            q <= final(self).cur <= old(self).src@.len(),
            q < old(self).src@.len() ==> q < final(self).cur,
    {
        let ghost src = self.src@;
        if q >= self.src.len() {
            self.tt = TT_EOF;
            self.cur = q;
            return;
        }
        let c = self.src[q];
        let prec = op_prec_x(c);
        if prec.is_some() || is_letter_x(c) || c == 39 {
            let kind: u8 = if prec.is_some() {
                1
            } else {
                0
            };
            let e = scan_run(&self.src, q + 1, kind);
            match keyword_x(&self.src, q, e) {
                Some(tt) => {
                    self.tt = tt;
                },
                None => {
                    self.token_ident = text_of(&self.src, q, e);
                    if kind == 1 {
                        if is_assign_op_x(&self.src, q, e) {
                            self.token_prec = 0;
                            self.is_rtl = true;
                        } else {
                            self.token_prec = prec.unwrap();
                            self.is_rtl = false;
                        }
                        self.tt = TT_OPIDENT;
                    } else {
                        self.tt = TT_IDENT;
                    }
                },
            }
            self.cur = e;
        } else if is_digit_x(c) {
            if c == 48 && byte_x(&self.src, q + 1) == 120 {
                let e = scan_run(&self.src, q + 2, 3);
                proof {
                    lemma_run_end(src, q + 2, 3);
                }
                let v = if e > q + 2 {
                    parse_digits(&self.src, q + 2, e, 16)
                } else {
                    None
                };
                match v {
                    Some(n) => {
                        self.token_number = n;
                        self.tt = TT_CONSTINT;
                    },
                    None => {
                        self.tt = TT_INVALID;
                    },
                }
                self.cur = e;
            } else {
                let e = scan_run(&self.src, q + 1, 2);
                proof {
                    lemma_run_end(src, q + 1, 2);
                }
                if byte_x(&self.src, e) == 46 && byte_x(&self.src, e + 1) != 46 {
                    let f = scan_run(&self.src, e + 1, 2);
                    self.token_float = text_of(&self.src, q, f);
                    self.tt = TT_CONSTFLOAT;
                    self.cur = f;
                } else {
                    match parse_digits(&self.src, q, e, 10) {
                        Some(n) => {
                            self.token_number = n;
                            self.tt = TT_CONSTINT;
                        },
                        None => {
                            self.tt = TT_INVALID;
                        },
                    }
                    self.cur = e;
                }
            }
        } else if c == 34 {
            let e = scan_run(&self.src, q + 1, 4);
            self.token_ident = text_of(&self.src, q + 1, e);
            self.tt = TT_CONSTSTR;
            if byte_x(&self.src, e) == 34 {
                self.cur = e + 1;
            } else {
                self.cur = e;
            }
        } else {
            self.tt = single_tt_x(c);
            self.cur = q + 1;
        }
    }

    /// Reads the next token. White space is skipped; a line break in it
    /// reads as `;` unless the token before continues the line.
    pub fn next(&mut self)
        requires
            old(self).wf(),
        ensures
            final(self).wf(),
            lexed(*old(self), *final(self)),
            old(self).decls_ok() ==> final(self).decls_ok(),
            final(self).measure() <= old(self).measure(),
            old(self).tt != TT_EOF ==> final(self).measure() < old(self).measure(),
    {
        self.lex();
        proof {
            if old(self).decls_ok() {
                lemma_same_decls_ok(*old(self), *self);
            }
        }
    }

    fn lex(&mut self)
        requires
            old(self).wf(),
        ensures
            final(self).wf(),
            lexed(*old(self), *final(self)),
            final(self).measure() <= old(self).measure(),
            old(self).tt != TT_EOF ==> final(self).measure() < old(self).measure(),
    {
        let start = self.cur;
        self.prev_cur = start;
        let c = byte_x(&self.src, start);
        let mut q = start;
        if is_space_x(c) && start < self.src.len() {
            let (semi, p) = scan_space(&self.src, start + 1, c, is_newline_x(c), self.tt);
            if semi {
                self.tt = TT_SEMICOLON;
                self.cur = p;
                return;
            }
            q = p;
            self.prev_cur = p;
        }
        self.read_token(q);
    }
}

// ---------------------------------------------------------------------------
// Declarations

/// Every element of `a` stands at the same place in `b`.
pub open spec fn prefix<A>(a: Seq<A>, b: Seq<A>) -> bool {
    a.len() <= b.len() && forall|i: int| 0 <= i < a.len() ==> #[trigger] a[i] == b[i]
}

/// `new` reads the source of `old` and declares all that `old` declares,
/// and perhaps more.
pub open spec fn extends(old: Parser, new: Parser) -> bool {
    &&& new.src == old.src
    &&& new.path == old.path
    &&& prefix(old.uses@, new.uses@)
    &&& prefix(old.locals@, new.locals@)
    &&& prefix(old.local_types@, new.local_types@)
    &&& prefix(old.exports@, new.exports@)
    &&& prefix(old.exports_rev@, new.exports_rev@)
}

/// A step of the parser: the state stays well formed, declarations are
/// only added, and no input is read twice.
pub open spec fn step(old: Parser, new: Parser) -> bool {
    &&& new.wf()
    &&& new.decls_ok()
    &&& extends(old, new)
    &&& new.measure() <= old.measure()
}

/// All fields but the identifier text agree.
pub open spec fn same_but_ident(a: Parser, b: Parser) -> bool {
    &&& same_decls(a, b)
    &&& a.tt == b.tt
    &&& a.prev_cur == b.prev_cur
    &&& a.cur == b.cur
    &&& a.token_prec == b.token_prec
    &&& a.is_rtl == b.is_rtl
    &&& a.token_number == b.token_number
    &&& a.token_float@ == b.token_float@
}

/// Parsers that declare the same things are alike well formed.
pub proof fn lemma_same_decls_ok(a: Parser, b: Parser)
    requires
        same_decls(a, b),
        a.decls_ok(),
    ensures
        b.decls_ok(),
{
    assert(b.exports_rev@ == a.exports_rev@);
    assert(b.exports@ == a.exports@);
    assert(b.locals@ == a.locals@);
}

/// Whether `s` has the text of `lit`.
pub fn text_is(s: &String, lit: &str) -> (r: bool)
    ensures
        r == (s@ == lit@),
{
    let a = s.as_str();
    let n = a.unicode_len();
    let m = lit.unicode_len();
    if n != m {
        return false;
    }
    let mut i: usize = 0;
    while i < n
        invariant
            i <= n,
            n == s@.len(),
            m == lit@.len(),
            n == m,
            a@ == s@,
            forall|j: int| 0 <= j < i ==> s@[j] == lit@[j],
        decreases n - i,
    {
        if a.get_char(i) != lit.get_char(i) {
            return false;
        }
        i = i + 1;
    }
    assert(s@ =~= lit@);
    true
}

impl Parser {
    /// Exports are locals, each found by its name in `exports_rev`; there
    /// are fewer locals, types and uses than a `u32` counts.
    pub open spec fn decls_ok(&self) -> bool {
        &&& self.exports_rev@.len() == self.exports@.len()
        &&& forall|i: int| 0 <= i < self.exports@.len() ==> #[trigger] self.exports@[i] < self.locals@.len()
        &&& forall|i: int|
            0 <= i < self.exports@.len() ==> #[trigger] self.exports_rev@[i].1 == self.exports@[i]
                && self.exports_rev@[i].0@ == self.locals@[self.exports@[i] as int].name@
        &&& self.locals@.len() <= u32::MAX
        &&& self.local_types@.len() <= u32::MAX
        &&& self.uses@.len() <= u32::MAX
    }

    /// `a` refers only to what the parser declared.
    pub open spec fn ok_ast(&self, a: Ast) -> bool {
        super::ast_ok(a, self.locals@.len(), self.local_types@.len(), self.uses@.len())
    }

    pub open spec fn ok_asts(&self, s: Seq<Ast>) -> bool {
        super::asts_ok(s, self.locals@.len(), self.local_types@.len(), self.uses@.len())
    }

    pub open spec fn ok_lambda(&self, l: AstLambda) -> bool {
        super::lambda_ok(l, self.locals@.len(), self.local_types@.len(), self.uses@.len())
    }

    /// A parser at the start of `src`, before the first token is read.
    pub fn new(src: Vec<u8>, path: String) -> (r: Parser)
        ensures
            r.wf(),
            r.decls_ok(),
            r.src == src,
            r.path == path,
            r.tt == TT_LBRACE,
            r.cur == 0,
            r.prev_cur == 0,
            r.uses@.len() == 0,
            r.locals@.len() == 0,
            r.local_types@.len() == 0,
            r.exports@.len() == 0,
            r.exports_rev@.len() == 0,
            r.language == Language::Js,
    {
        Parser {
            tt: TT_LBRACE,
            src,
            prev_cur: 0,
            cur: 0,
            token_ident: String::new(),
            token_prec: 0,
            is_rtl: false,
            token_number: 0,
            token_float: String::new(),
            uses: Vec::new(),
            locals: Vec::new(),
            local_types: Vec::new(),
            exports: Vec::new(),
            exports_rev: Vec::new(),
            language: Language::Js,
            path,
        }
    }

    /// Reads the next token when the current one is `token`.
    pub fn test(&mut self, token: Tt) -> (r: bool)
        requires
            old(self).wf(),
        ensures
            old(self).decls_ok() ==> final(self).decls_ok(),
            final(self).wf(),
            r == (old(self).tt == token),
            r ==> lexed(*old(self), *final(self)),
            !r ==> *final(self) == *old(self),
            final(self).measure() <= old(self).measure(),
            r && token != TT_EOF ==> final(self).measure() < old(self).measure(),
    {
        if token == self.tt {
            self.next();
            true
        } else {
            false
        }
    }

    /// The span of the current token.
    pub fn span(&self) -> (r: Span)
        ensures
            r.0 == self.prev_cur,
            r.1 == self.cur,
    {
        Span(self.prev_cur, self.cur)
    }

    /// Fails unless the current token is `token`.
    pub fn peek_check(&self, token: Tt) -> (r: ParseResult<()>)
        ensures
            r is Ok <==> self.tt == token,
            r matches Err(e) ==> e.0.0 == self.prev_cur && e.0.1 == self.cur,
    {
        if token != self.tt {
            Err(ParseError(self.span(), "unexpected token"))
        } else {
            Ok(())
        }
    }

    /// Reads past the current token when it is `token`, else fails.
    pub fn check(&mut self, token: Tt) -> (r: ParseResult<()>)
        requires
            old(self).wf(),
        ensures
            old(self).decls_ok() ==> final(self).decls_ok(),
            final(self).wf(),
            r is Ok <==> old(self).tt == token,
            r is Ok ==> lexed(*old(self), *final(self)),
            r matches Err(e) ==> *final(self) == *old(self) && e.0.0 == old(self).prev_cur && e.0.1
                == old(self).cur,
            final(self).measure() <= old(self).measure(),
            r is Ok && token != TT_EOF ==> final(self).measure() < old(self).measure(),
    {
        if token != self.tt {
            Err(ParseError(self.span(), "unexpected token"))
        } else {
            self.next();
            Ok(())
        }
    }

    /// Takes the identifier text, leaving it empty.
    fn take_ident(&mut self) -> (r: Ident)
        ensures
            old(self).decls_ok() ==> final(self).decls_ok(),
            r@ == old(self).token_ident@,
            final(self).token_ident@ == Seq::<char>::empty(),
            same_but_ident(*old(self), *final(self)),
    {
        let mut id = String::new();
        std::mem::swap(&mut id, &mut self.token_ident);
        id
    }

    /// Reads an identifier or an operator and gives its text.
    pub fn check_ident(&mut self) -> (r: ParseResult<Ident>)
        requires
            old(self).wf(),
        ensures
            old(self).decls_ok() ==> final(self).decls_ok(),
            final(self).wf(),
            r is Ok <==> (old(self).tt == TT_IDENT || old(self).tt == TT_OPIDENT),
            r matches Ok(id) ==> id@ == old(self).token_ident@ && lexed_with(
                *old(self),
                *final(self),
                Seq::empty(),
            ),
            r matches Err(e) ==> *final(self) == *old(self) && e.0.0 == old(self).prev_cur && e.0.1
                == old(self).cur,
            final(self).measure() <= old(self).measure(),
            r is Ok ==> final(self).measure() < old(self).measure(),
    {
        if self.tt == TT_IDENT || self.tt == TT_OPIDENT {
            let ident = self.take_ident();
            self.next();
            Ok(ident)
        } else {
            Err(ParseError(self.span(), "expected identifier"))
        }
    }

    /// Reads a type: `&` and a type, a struct `{ name: type, .. }`, or a name.
    pub fn rtype(&mut self) -> (r: ParseResult<AstType>)
        requires
            old(self).wf(),
            old(self).decls_ok(),
        ensures
            step(*old(self), *final(self)),
            same_decls(*old(self), *final(self)),
            old(self).tt == TT_IDENT ==> (r matches Ok(AstType::Other(n)) && n@ == old(
                self,
            ).token_ident@),
            !(old(self).tt == TT_IDENT || old(self).tt == TT_OPIDENT || old(self).tt
                == TT_LBRACE) ==> r is Err,
        decreases old(self).measure(),
    {
        if self.tt == TT_OPIDENT {
            if text_is(&self.token_ident, "&") {
                self.next();
                let t = self.rtype()?;
                Ok(AstType::Ptr(Box::new(t)))
            } else {
                Err(ParseError(self.span(), "unexpected type operator"))
            }
        } else if self.test(TT_LBRACE) {
            let mut fields: Vec<StructField> = Vec::new();
            let ghost start = *self;
            while self.tt != TT_RBRACE && self.tt != TT_EOF
                invariant
                    self.wf(),
                    self.decls_ok(),
                    old(self).tt == TT_LBRACE,
                    same_decls(*old(self), start),
                    same_decls(start, *self),
                    start.measure() <= old(self).measure(),
                    self.measure() <= start.measure(),
                decreases self.measure(),
            {
                let name = self.check_ident()?;
                self.check(TT_COLON)?;
                let ty = self.rtype()?;
                fields.push(StructField::new(name, ty));
                if !self.test_comma_or_semi() {
                    break;
                }
            }
            self.check(TT_RBRACE)?;
            let struct_def = StructDef::new(fields);
            Ok(AstType::MemStruct(Box::new(struct_def)))
        } else {
            let name = self.check_ident()?;
            Ok(AstType::Other(name))
        }
    }

    /// An application of `fun` to `params` spanning the current token.
    pub fn new_app(&self, fun: AstRef, params: Vec<Ast>, kind: AppKind) -> (r: Ast)
        ensures
            r.loc.0 == self.prev_cur && r.loc.1 == self.cur,
            r.attr == Attr::NoAttr,
            r.ty is Any,
            r.data == (AstData::App { fun, params, kind }),
    {
        Ast {
            loc: self.span(),
            attr: Attr::NoAttr,
            ty: AstType::Any,
            data: AstData::App { fun, params, kind },
        }
    }

    /// A lambda with the given parameters and no body yet.
    pub fn new_lambda(&self, params: Vec<ParamDef>, param_locals: Vec<u32>, return_type: AstType) -> (r:
        AstLambda)
        ensures
            r.params == params,
            r.param_locals == param_locals,
            r.return_type == return_type,
            r.expr@.len() == 0,
    {
        AstLambda { params, param_locals, expr: Vec::new(), return_type }
    }

    /// Reads past a `,` or a `;`.
    pub fn test_comma_or_semi(&mut self) -> (r: bool)
        requires
            old(self).wf(),
        ensures
            old(self).decls_ok() ==> final(self).decls_ok(),
            final(self).wf(),
            r == (old(self).tt == TT_COMMA || old(self).tt == TT_SEMICOLON),
            r ==> lexed(*old(self), *final(self)),
            !r ==> *final(self) == *old(self),
            final(self).measure() <= old(self).measure(),
            r ==> final(self).measure() < old(self).measure(),
    {
        self.test(TT_COMMA) || self.test(TT_SEMICOLON)
    }

    /// An untyped node of `data` spanning the current token.
    pub fn ast_anyty(&self, data: AstData) -> (r: Ast)
        ensures
            r.loc.0 == self.prev_cur && r.loc.1 == self.cur,
            r.attr == Attr::NoAttr,
            r.ty is Any,
            r.data == data,
    {
        Ast { loc: self.span(), attr: Attr::NoAttr, ty: AstType::Any, data }
    }

    /// Declares a local and gives its index; fails once a `u32` can no
    /// longer index the locals.
    pub fn new_local(&mut self, name: Ident, ty: AstType, is_mut: bool) -> (r: ParseResult<u32>)
        requires
            old(self).decls_ok(),
        ensures
            final(self).decls_ok(),
            r is Ok <==> old(self).locals@.len() < u32::MAX,
            r matches Ok(i) ==> i == old(self).locals@.len() && final(self).locals@ == old(
                self,
            ).locals@.push(
                LocalDef { ty, name, is_mut, const_value: None, need_qualification: false },
            ),
            r is Err ==> final(self).locals@ == old(self).locals@,
            extends(*old(self), *final(self)),
            old(self).wf() ==> final(self).wf(),
            final(self).measure() == old(self).measure(),
            final(self).tt == old(self).tt,
            final(self).cur == old(self).cur,
            final(self).prev_cur == old(self).prev_cur,
            final(self).src == old(self).src,
            final(self).path == old(self).path,
            final(self).uses == old(self).uses,
            final(self).local_types == old(self).local_types,
            final(self).exports == old(self).exports,
            final(self).exports_rev == old(self).exports_rev,
            final(self).language == old(self).language,
            final(self).token_ident == old(self).token_ident,
            final(self).token_prec == old(self).token_prec,
            final(self).is_rtl == old(self).is_rtl,
            final(self).token_number == old(self).token_number,
            final(self).token_float == old(self).token_float,
    {
        let index = self.locals.len();
        if index >= 0xffff_ffff {
            return Err(ParseError(self.span(), "too many declarations"));
        }
        self.locals.push(LocalDef { ty, name, is_mut, const_value: None, need_qualification: false });
        assert forall|i: int| 0 <= i < self.exports@.len() implies #[trigger] self.exports@[i]
            < self.locals@.len() by {
            assert(old(self).exports@[i] < old(self).locals@.len());
        }
        assert forall|i: int| 0 <= i < self.exports@.len() implies #[trigger] self.exports_rev@[i].1
            == self.exports@[i] && self.exports_rev@[i].0@ == self.locals@[self.exports@[i] as int].name@ by {
            assert(old(self).exports@[i] < old(self).locals@.len());
            assert(self.locals@[self.exports@[i] as int] == old(self).locals@[self.exports@[i] as int]);
            assert(old(self).exports_rev@[i].1 == old(self).exports@[i]);
        }
        Ok(index as u32)
    }

    /// Declares a named type and gives its index.
    pub fn new_local_type(&mut self, name: Ident, ty: AstType) -> (r: ParseResult<u32>)
        requires
            old(self).decls_ok(),
        ensures
            final(self).decls_ok(),
            r is Ok <==> old(self).local_types@.len() < u32::MAX,
            r matches Ok(i) ==> i == old(self).local_types@.len() && final(self).local_types@ == old(
                self,
            ).local_types@.push(TypeDef { name, ty }),
            r is Err ==> final(self).local_types@ == old(self).local_types@,
            extends(*old(self), *final(self)),
            old(self).wf() ==> final(self).wf(),
            final(self).measure() == old(self).measure(),
            final(self).tt == old(self).tt,
            final(self).cur == old(self).cur,
            final(self).prev_cur == old(self).prev_cur,
            final(self).src == old(self).src,
            final(self).path == old(self).path,
            final(self).uses == old(self).uses,
            final(self).locals == old(self).locals,
            final(self).exports == old(self).exports,
            final(self).exports_rev == old(self).exports_rev,
            final(self).language == old(self).language,
            final(self).token_ident == old(self).token_ident,
            final(self).token_prec == old(self).token_prec,
            final(self).is_rtl == old(self).is_rtl,
            final(self).token_number == old(self).token_number,
            final(self).token_float == old(self).token_float,
    {
        let index = self.local_types.len();
        if index >= 0xffff_ffff {
            return Err(ParseError(self.span(), "too many declarations"));
        }
        self.local_types.push(TypeDef { name, ty });
        Ok(index as u32)
    }
}

/// A tree that refers only to what `old` declares refers only to what
/// `new` declares, when `new` declares at least as much.
pub proof fn lemma_ok_grows(old: Parser, new: Parser, a: Ast)
    requires
        old.ok_ast(a),
        old.locals@.len() <= new.locals@.len(),
        old.local_types@.len() <= new.local_types@.len(),
        old.uses@.len() <= new.uses@.len(),
    ensures
        new.ok_ast(a),
{
    super::lemma_ast_grow(
        a,
        old.locals@.len(),
        old.local_types@.len(),
        old.uses@.len(),
        new.locals@.len(),
        new.local_types@.len(),
        new.uses@.len(),
    );
}

pub proof fn lemma_ok_lambda_grows(old: Parser, new: Parser, l: AstLambda)
    requires
        old.ok_lambda(l),
        old.locals@.len() <= new.locals@.len(),
        old.local_types@.len() <= new.local_types@.len(),
        old.uses@.len() <= new.uses@.len(),
    ensures
        new.ok_lambda(l),
{
    super::lemma_lambda_grow(
        l,
        old.locals@.len(),
        old.local_types@.len(),
        old.uses@.len(),
        new.locals@.len(),
        new.local_types@.len(),
        new.uses@.len(),
    );
}

pub proof fn lemma_ok_asts_grows(old: Parser, new: Parser, s: Seq<Ast>)
    requires
        old.ok_asts(s),
        old.locals@.len() <= new.locals@.len(),
        old.local_types@.len() <= new.local_types@.len(),
        old.uses@.len() <= new.uses@.len(),
    ensures
        new.ok_asts(s),
{
    super::lemma_asts_grow(
        s,
        old.locals@.len(),
        old.local_types@.len(),
        old.uses@.len(),
        new.locals@.len(),
        new.local_types@.len(),
        new.uses@.len(),
    );
}

pub proof fn lemma_ok_pair(p: Parser, a: Ast, b: Ast)
    requires
        p.ok_ast(a),
        p.ok_ast(b),
    ensures
        p.ok_asts(seq![a, b]),
{
    let s = seq![a, b];
    lemma_ok_single(p, a);
    assert(s.drop_last() =~= seq![a]);
}

pub proof fn lemma_ok_single(p: Parser, a: Ast)
    requires
        p.ok_ast(a),
    ensures
        p.ok_asts(seq![a]),
{
    assert(seq![a].drop_last() =~= Seq::<Ast>::empty());
    assert(p.ok_asts(Seq::<Ast>::empty()));
    assert(p.ok_asts(seq![a].drop_last()));
}

/// The tokens that close a list of expressions.
pub open spec fn closes(tt: u16) -> bool {
    tt == TT_RBRACE || tt == TT_RPAREN || tt == TT_RBRACKET || tt == TT_EOF
}

/// The tokens that go on a simple expression: a field, a call, an index.
pub open spec fn continues_simple(tt: u16) -> bool {
    tt == TT_DOT || tt == TT_LPAREN || tt == TT_LBRACKET
}

/// The first tokens of an expression.
pub open spec fn starts_expr(tt: u16) -> bool {
    tt == TT_OPIDENT || tt == TT_IF || tt == TT_WHILE || tt == TT_FOR || tt == TT_BREAK || tt
        == TT_LOOP || tt == TT_RETURN || starts_primary(tt)
}

/// The first tokens of a primary expression.
pub open spec fn starts_primary(tt: u16) -> bool {
    tt == TT_CONSTINT || tt == TT_CONSTFLOAT || tt == TT_CONSTSTR || tt == TT_NEW || tt
        == TT_IDENT || tt == TT_LPAREN || tt == TT_LBRACE || tt == TT_LBRACKET
}

impl Parser {
    /// Exports the local `index`, named `name`.
    fn add_export(&mut self, name: &Ident, index: u32)
        requires
            old(self).decls_ok(),
            index < old(self).locals@.len(),
            old(self).locals@[index as int].name@ == name@,
        ensures
            final(self).decls_ok(),
            extends(*old(self), *final(self)),
            final(self).exports@ == old(self).exports@.push(index),
            final(self).exports_rev@.len() == old(self).exports_rev@.len() + 1,
            final(self).exports_rev@.last().0@ == name@,
            final(self).exports_rev@.last().1 == index,
            final(self).tt == old(self).tt,
            final(self).cur == old(self).cur,
            final(self).prev_cur == old(self).prev_cur,
            final(self).src == old(self).src,
            final(self).uses == old(self).uses,
            final(self).locals == old(self).locals,
            final(self).local_types == old(self).local_types,
            final(self).language == old(self).language,
            final(self).token_ident == old(self).token_ident,
            final(self).token_prec == old(self).token_prec,
            final(self).is_rtl == old(self).is_rtl,
            final(self).token_number == old(self).token_number,
            final(self).token_float == old(self).token_float,
    {
        self.exports.push(index);
        self.exports_rev.push((name.clone(), index));
        assert forall|i: int| 0 <= i < self.exports@.len() implies #[trigger] self.exports@[i]
            < self.locals@.len() by {
            if i < old(self).exports@.len() {
                assert(old(self).exports@[i] < old(self).locals@.len());
            }
        }
        assert forall|i: int| 0 <= i < self.exports@.len() implies #[trigger] self.exports_rev@[i].1
            == self.exports@[i] && self.exports_rev@[i].0@ == self.locals@[self.exports@[i] as int].name@ by {
            if i < old(self).exports@.len() {
                assert(old(self).exports_rev@[i].1 == old(self).exports@[i]);
            }
        }
    }

    /// Reads `|`.
    pub fn test_bar(&mut self) -> (r: bool)
        requires
            old(self).wf(),
        ensures
            final(self).wf(),
            old(self).decls_ok() ==> final(self).decls_ok(),
            r == (old(self).tt == TT_OPIDENT && old(self).token_ident@ == "|"@),
            r ==> lexed(*old(self), *final(self)),
            !r ==> *final(self) == *old(self),
            final(self).measure() <= old(self).measure(),
            r ==> final(self).measure() < old(self).measure(),
    {
        if self.tt == TT_OPIDENT && text_is(&self.token_ident, "|") {
            self.next();
            true
        } else {
            false
        }
    }

    /// Reads `||`.
    pub fn test_double_bar(&mut self) -> (r: bool)
        requires
            old(self).wf(),
        ensures
            final(self).wf(),
            old(self).decls_ok() ==> final(self).decls_ok(),
            r == (old(self).tt == TT_OPIDENT && old(self).token_ident@ == "||"@),
            r ==> lexed(*old(self), *final(self)),
            !r ==> *final(self) == *old(self),
            final(self).measure() <= old(self).measure(),
            r ==> final(self).measure() < old(self).measure(),
    {
        if self.tt == TT_OPIDENT && text_is(&self.token_ident, "||") {
            self.next();
            true
        } else {
            false
        }
    }

    /// Reads `|`, or fails.
    pub fn check_bar(&mut self) -> (r: ParseResult<()>)
        requires
            old(self).wf(),
        ensures
            final(self).wf(),
            old(self).decls_ok() ==> final(self).decls_ok(),
            r is Ok <==> (old(self).tt == TT_OPIDENT && old(self).token_ident@ == "|"@),
            r is Ok ==> lexed(*old(self), *final(self)),
            r is Err ==> *final(self) == *old(self),
            final(self).measure() <= old(self).measure(),
    {
        if !self.test_bar() {
            Err(ParseError(self.span(), "Expected '|'"))
        } else {
            Ok(())
        }
    }

    /// Reads a pattern: a name, which declares a local of type
    /// `parent_ty`, or `[` patterns `]`. The locals it declares are added
    /// to `locals`.
    pub fn rpattern(&mut self, locals: &mut Vec<u32>, parent_ty: &AstType) -> (r: ParseResult<Pattern>)
        requires
            old(self).wf(),
            old(self).decls_ok(),
            forall|i: int| 0 <= i < old(locals)@.len() ==> #[trigger] old(locals)@[i] < old(self).locals@.len(),
        ensures
            step(*old(self), *final(self)),
            prefix(old(locals)@, final(locals)@),
            forall|i: int| 0 <= i < final(locals)@.len() ==> #[trigger] final(locals)@[i] < final(self).locals@.len(),
            r matches Ok(p) ==> super::pattern_ok(p, final(self).locals@.len() as nat),
            !(old(self).tt == TT_IDENT || old(self).tt == TT_LBRACKET) ==> r is Err,
            old(self).tt == TT_IDENT ==> (r is Ok <==> old(self).locals@.len() < u32::MAX),
            old(self).tt == TT_IDENT && r is Ok ==> (r matches Ok(Pattern::Local(i)) && i == old(
                self,
            ).locals@.len()) && final(locals)@ == old(locals)@.push(old(self).locals@.len() as u32)
                && final(self).locals@.len() == old(self).locals@.len() + 1
                && final(self).locals@.last().name@ == old(self).token_ident@ && super::same_type(
                final(self).locals@.last().ty,
                *parent_ty,
            ) && advanced(*old(self), *final(self), 1),
            old(self).tt == TT_LBRACKET ==> (r matches Ok(p) ==> p is Array),
        decreases old(self).measure(),
    {
        if self.tt == TT_IDENT {
            let name = self.check_ident()?;
            proof {
                lemma_lexed_advanced(*old(self), *self, Seq::empty());
            }
            let local_index = self.new_local(name, parent_ty.copy(), false)?;
            locals.push(local_index);
            Ok(Pattern::Local(local_index))
        } else if self.test(TT_LBRACKET) {
            let mut subpat: Vec<Pattern> = Vec::new();
            while self.tt != TT_RBRACKET
                invariant
                    old(self).tt == TT_LBRACKET,
                    self.wf(),
                    self.decls_ok(),
                    extends(*old(self), *self),
                    self.measure() < old(self).measure(),
                    prefix(old(locals)@, locals@),
                    forall|i: int| 0 <= i < locals@.len() ==> #[trigger] locals@[i] < self.locals@.len(),
                    super::patterns_ok(subpat@, self.locals@.len() as nat),
                decreases self.measure(),
            {
                let ghost before = *self;
                let p = self.rpattern(locals, &AstType::Any)?;
                proof {
                    super::lemma_patterns_grow(subpat@, before.locals@.len() as nat, self.locals@.len() as nat);
                    assert(subpat@.push(p).drop_last() =~= subpat@);
                }
                subpat.push(p);
                if !self.test_comma_or_semi() {
                    break;
                }
            }
            self.next();
            Ok(Pattern::Array(subpat))
        } else {
            Err(ParseError(self.span(), "invalid pattern"))
        }
    }

    /// Reads parameters up to `)`: patterns, each with an optional `: type`.
    pub fn rparameters(&mut self, params: &mut Vec<ParamDef>, locals: &mut Vec<u32>) -> (r: ParseResult<()>)
        requires
            old(self).wf(),
            old(self).decls_ok(),
            super::params_ok(old(params)@, old(self).locals@.len() as nat),
            forall|i: int| 0 <= i < old(locals)@.len() ==> #[trigger] old(locals)@[i] < old(self).locals@.len(),
        ensures
            step(*old(self), *final(self)),
            r is Ok ==> super::params_ok(final(params)@, final(self).locals@.len() as nat),
            prefix(old(locals)@, final(locals)@),
            forall|i: int| 0 <= i < final(locals)@.len() ==> #[trigger] final(locals)@[i] < final(self).locals@.len(),
            prefix(old(params)@, final(params)@),
            old(self).tt == TT_RPAREN ==> r is Ok && *final(self) == *old(self) && final(params)@ == old(
                params,
            )@ && final(locals)@ == old(locals)@,
            old(self).tt != TT_RPAREN && r is Ok ==> final(params)@.len() > old(params)@.len(),
    {
        let ghost mut first = true;
        while self.tt != TT_RPAREN
            invariant
                self.wf(),
                self.decls_ok(),
                extends(*old(self), *self),
                self.measure() <= old(self).measure(),
                super::params_ok(params@, self.locals@.len() as nat),
                prefix(old(locals)@, locals@),
                forall|i: int| 0 <= i < locals@.len() ==> #[trigger] locals@[i] < self.locals@.len(),
                prefix(old(params)@, params@),
                first ==> *self == *old(self) && params@ == old(params)@ && locals@ == old(locals)@,
                !first ==> params@.len() > old(params)@.len() && old(self).tt != TT_RPAREN,
            ensures
                self.wf(),
                self.decls_ok(),
                extends(*old(self), *self),
                self.measure() <= old(self).measure(),
                super::params_ok(params@, self.locals@.len() as nat),
                prefix(old(locals)@, locals@),
                forall|i: int| 0 <= i < locals@.len() ==> #[trigger] locals@[i] < self.locals@.len(),
                prefix(old(params)@, params@),
                first ==> *self == *old(self) && params@ == old(params)@ && locals@ == old(locals)@
                    && self.tt == TT_RPAREN,
                !first ==> params@.len() > old(params)@.len() && old(self).tt != TT_RPAREN,
            decreases self.measure(),
        {
            proof {
                first = false;
            }
            let ghost before = *self;
            let pat = self.rpattern(locals, &AstType::Any)?;
            let ty = if self.test(TT_COLON) {
                self.rtype()?
            } else {
                AstType::Any
            };
            proof {
                super::lemma_params_grow(params@, before.locals@.len() as nat, self.locals@.len() as nat);
                super::lemma_pattern_grow(pat, self.locals@.len() as nat, self.locals@.len() as nat);
            }
            let pd = ParamDef { ty, pat };
            proof {
                assert(params@.push(pd).drop_last() =~= params@);
            }
            params.push(pd);
            if !self.test_comma_or_semi() {
                break;
            }
        }
        Ok(())
    }

    /// Reads the path of a `use`: a string or a name.
    pub fn ruse_path(&mut self) -> (r: ParseResult<String>)
        requires
            old(self).wf(),
            old(self).decls_ok(),
        ensures
            step(*old(self), *final(self)),
            same_decls(*old(self), *final(self)),
            (old(self).tt == TT_CONSTSTR || old(self).tt == TT_IDENT || old(self).tt == TT_OPIDENT)
                ==> (r matches Ok(p) && p@ == old(self).token_ident@),
            !(old(self).tt == TT_CONSTSTR || old(self).tt == TT_IDENT || old(self).tt == TT_OPIDENT)
                ==> r is Err,
    {
        if self.tt == TT_CONSTSTR {
            let path = self.take_ident();
            self.next();
            Ok(path)
        } else {
            self.check_ident()
        }
    }
}

impl Parser {
    /// Reads a lambda in braces: `{`, optional parameters between bars,
    /// then items up to `}`, at which it stops.
    pub fn rlambda_block_del(&mut self) -> (r: ParseResult<AstLambda>)
        requires
            old(self).wf(),
            old(self).decls_ok(),
        ensures
            step(*old(self), *final(self)),
            r matches Ok(l) ==> final(self).ok_lambda(l) && final(self).tt == TT_RBRACE,
            old(self).tt != TT_LBRACE ==> r is Err,
            r matches Ok(l) ==> l.return_type is Any,
            old(self).tt == TT_LBRACE && old(self).ahead(1) == TT_RBRACE ==> (r matches Ok(l)
                && l.params@.len() == 0 && l.param_locals@.len() == 0 && l.expr@.len() == 0)
                && advanced(*old(self), *final(self), 1),
            forall|fuel: nat|
                old(self).tt == TT_LBRACE && #[trigger] items_at(*old(self), 1, TT_RBRACE, fuel) is Some
                    && old(self).locals@.len() + items_at(*old(self), 1, TT_RBRACE, fuel).unwrap().len() < u32::MAX
                    ==> (r matches Ok(l) && l.params@.len() == 0 && items_read(
                    Seq::empty(),
                    l.expr@,
                    items_at(*old(self), 1, TT_RBRACE, fuel).unwrap(),
                    old(self).locals@.len(),
                )),
        decreases old(self).measure(), 3nat,
    {
        self.check(TT_LBRACE)?;
        proof {
            lemma_lexed_advanced(*old(self), *self, old(self).token_ident@);
        }
        let ghost s1 = *self;
        proof {
            assert forall|fuel: nat| #[trigger] items_at(*old(self), 1, TT_RBRACE, fuel) is Some implies items_at(
                s1,
                0,
                TT_RBRACE,
                fuel,
            ) == items_at(*old(self), 1, TT_RBRACE, fuel) && s1.tt != TT_OPIDENT by {
                lemma_items_shift(*old(self), s1, 1, 0, TT_RBRACE, fuel);
                lemma_items_head(*old(self), 1, TT_RBRACE, fuel);
                lemma_advanced_ahead(*old(self), s1, 1);
                assert(s1.ahead(0) == old(self).ahead(1));
            }
        }
        let mut params: Vec<ParamDef> = Vec::new();
        let mut locals: Vec<u32> = Vec::new();
        if self.test_double_bar() {
        } else if self.test_bar() {
            self.rparameters(&mut params, &mut locals)?;
            self.check_bar()?;
        }
        let mut lambda = self.new_lambda(params, locals, AstType::Any);
        let ghost s2 = *self;
        proof {
            assert(lambda.expr@ =~= Seq::<Ast>::empty());
        }
        let rr = self.rlambda(&mut lambda, TT_RBRACE);
        proof {
            assert forall|fuel: nat| #[trigger] items_at(*old(self), 1, TT_RBRACE, fuel) is Some && old(self).locals@.len()
                + items_at(*old(self), 1, TT_RBRACE, fuel).unwrap().len() < u32::MAX implies rr is Ok && items_read(
                Seq::empty(),
                lambda.expr@,
                items_at(*old(self), 1, TT_RBRACE, fuel).unwrap(),
                old(self).locals@.len(),
            ) by {
                assert(s2 == s1);
                assert(items_at(s2, 0, TT_RBRACE, fuel) is Some);
            }
        }
        rr?;
        Ok(lambda)
    }

    /// Reads a primary expression: a literal, `new`, a name, an expression
    /// in parentheses, a lambda in braces or an array. It stops at the last
    /// token of the expression, without reading past it.
    #[verifier::rlimit(100)]
    #[verifier::spinoff_prover]
    pub fn rprimary_del(&mut self) -> (r: ParseResult<Ast>)
        requires
            old(self).wf(),
            old(self).decls_ok(),
        ensures
            step(*old(self), *final(self)),
            r matches Ok(a) ==> final(self).ok_ast(a),
            old(self).tt == TT_CONSTINT ==> (r matches Ok(a) && a.data matches AstData::ConstLit {
                v: Lit::Int(n),
            } && n == old(self).token_number && a.ty is U64 && *final(self) == *old(self)),
            old(self).tt == TT_CONSTFLOAT ==> (r matches Ok(a) && a.data matches AstData::ConstLit {
                v: Lit::Float(t),
            } && t@ == old(self).token_float@ && a.ty is F64 && *final(self) == *old(self)),
            old(self).tt == TT_CONSTSTR ==> (r matches Ok(a) && a.data matches AstData::ConstStr {
                v,
            } && v@ == old(self).token_ident@ && a.ty is Str),
            old(self).tt == TT_IDENT ==> (r matches Ok(a) && a.data matches AstData::Ident { s }
                && s@ == old(self).token_ident@ && same_but_ident(*old(self), *final(self))),
            !starts_primary(old(self).tt) ==> r is Err,
            old(self).tt == TT_NEW ==> (r matches Ok(a) ==> a.data is NewObject || a.data is NewCtor),
            old(self).tt == TT_LBRACE ==> (r matches Ok(a) ==> a.data is Lambda),
            old(self).tt == TT_LBRACKET ==> (r matches Ok(a) ==> a.data is Array),
            !starts_primary(old(self).tt) ==> (r matches Err(e) && e == ParseError(
                Span(old(self).prev_cur, old(self).cur),
                "expected expression",
            )) && *final(self) == *old(self),
            old(self).tt == TT_LPAREN && (old(self).ahead(1) == TT_IDENT || old(self).ahead(1) == TT_CONSTINT)
                && old(self).ahead(2) == TT_RPAREN ==> (r matches Ok(a) && leaf_ahead(*old(self), 1, a))
                && advanced(*old(self), *final(self), 2),
            old(self).tt == TT_LBRACKET && (old(self).ahead(1) == TT_IDENT || old(self).ahead(1) == TT_CONSTINT)
                && old(self).ahead(2) == TT_RBRACKET ==> (r matches Ok(a) && a.data matches AstData::Array {
                elems,
            } && elems@.len() == 1 && leaf_ahead(*old(self), 1, elems@[0])) && advanced(*old(self), *final(self), 2),
            old(self).tt == TT_NEW && old(self).ahead(1) == TT_LBRACE && old(self).ahead(2) == TT_RBRACE ==> (r matches Ok(
                a,
            ) && a.data matches AstData::NewObject { assignments } && assignments@.len() == 0),
            forall|fuel: nat|
                old(self).tt == TT_LBRACE && #[trigger] items_at(*old(self), 1, TT_RBRACE, fuel) is Some
                    && old(self).locals@.len() + items_at(*old(self), 1, TT_RBRACE, fuel).unwrap().len() < u32::MAX
                    ==> (r matches Ok(a) && a.data matches AstData::Lambda { lambda } && items_read(
                    Seq::empty(),
                    lambda.expr@,
                    items_at(*old(self), 1, TT_RBRACE, fuel).unwrap(),
                    old(self).locals@.len(),
                )),
            old(self).tt == TT_LBRACE && old(self).ahead(1) == TT_RBRACE ==> (r matches Ok(a)
                && a.data matches AstData::Lambda { lambda } && lambda.expr@.len() == 0) && advanced(
                *old(self),
                *final(self),
                1,
            ),
            old(self).tt == TT_LBRACKET && old(self).ahead(1) == TT_RBRACKET ==> (r matches Ok(a)
                && a.data matches AstData::Array { elems } && elems@.len() == 0) && advanced(
                *old(self),
                *final(self),
                1,
            ),
        decreases old(self).measure(), 4nat,
    {
        if self.tt == TT_CONSTINT {
            Ok(
                Ast {
                    loc: self.span(),
                    attr: Attr::NoAttr,
                    ty: AstType::U64,
                    data: AstData::ConstLit { v: Lit::Int(self.token_number) },
                },
            )
        } else if self.tt == TT_CONSTFLOAT {
            Ok(
                Ast {
                    loc: self.span(),
                    attr: Attr::NoAttr,
                    ty: AstType::F64,
                    data: AstData::ConstLit { v: Lit::Float(self.token_float.clone()) },
                },
            )
        } else if self.tt == TT_CONSTSTR {
            let loc = self.span();
            let v = self.take_ident();
            Ok(Ast { loc, attr: Attr::NoAttr, ty: AstType::Str, data: AstData::ConstStr { v } })
        } else if self.tt == TT_NEW {
            self.next();
            proof {
                lemma_keyword_shift(*old(self), *self);
            }
            let ghost s1 = *self;
            if self.test(TT_LBRACE) {
                proof {
                    lemma_keyword_shift(s1, *self);
                }
                let ghost empty_obj = old(self).ahead(1) == TT_LBRACE && old(self).ahead(2) == TT_RBRACE;
                let mut assignments: Vec<(Ident, Ast)> = Vec::new();
                while self.tt != TT_RBRACE && self.tt != TT_EOF
                    invariant
                        empty_obj == (old(self).ahead(1) == TT_LBRACE && old(self).ahead(2) == TT_RBRACE),
                        empty_obj ==> assignments@.len() == 0 && self.tt == TT_RBRACE,
                        old(self).tt == TT_NEW,
                        self.wf(),
                        self.decls_ok(),
                        extends(*old(self), *self),
                        self.measure() < old(self).measure(),
                        super::assigns_ok(
                            assignments@,
                            self.locals@.len() as nat,
                            self.local_types@.len() as nat,
                            self.uses@.len() as nat,
                        ),
                    decreases self.measure(),
                {
                    let ghost before = *self;
                    let name = self.check_ident()?;
                    let v = if self.test(TT_COLON) {
                        self.rexpr()?
                    } else {
                        self.ast_anyty(AstData::Ident { s: name.clone() })
                    };
                    proof {
                        super::lemma_assigns_grow(
                            assignments@,
                            before.locals@.len() as nat,
                            before.local_types@.len() as nat,
                            before.uses@.len() as nat,
                            self.locals@.len() as nat,
                            self.local_types@.len() as nat,
                            self.uses@.len() as nat,
                        );
                        super::lemma_assigns_push(
                            assignments@,
                            (name, v),
                            self.locals@.len() as nat,
                            self.local_types@.len() as nat,
                            self.uses@.len() as nat,
                        );
                    }
                    assignments.push((name, v));
                    if !self.test_comma_or_semi() {
                        break;
                    }
                }
                Ok(self.ast_anyty(AstData::NewObject { assignments }))
            } else {
                let ctor = self.rprimary_del()?;
                self.next();
                let ghost mid = *self;
                let mut params: Vec<Ast> = Vec::new();
                self.check(TT_LPAREN)?;
                self.rrecord_body(&mut params)?;
                self.peek_check(TT_RPAREN)?;
                proof {
                    lemma_ok_grows(mid, *self, ctor);
                }
                Ok(self.ast_anyty(AstData::NewCtor { ctor: Box::new(ctor), params }))
            }
        } else if self.tt == TT_IDENT {
            let loc = self.span();
            let ident = self.take_ident();
            Ok(Ast { loc, attr: Attr::NoAttr, ty: AstType::Any, data: AstData::Ident { s: ident } })
        } else if self.tt == TT_LPAREN {
            self.next();
            proof {
                lemma_lexed_advanced(*old(self), *self, old(self).token_ident@);
                lemma_advanced_ahead(*old(self), *self, 1);
                assert(self.ahead(0) == old(self).ahead(1));
                assert(self.ahead(1) == old(self).ahead(2));
            }
            let ghost s1 = *self;
            let v = self.rexpr()?;
            proof {
                if leaf_expr(s1) {
                    lemma_advanced_trans(*old(self), s1, *self, 1, 1);
                    lemma_lexed_read(*old(self), s1, old(self).token_ident@);
                    lemma_leaf_read(*old(self), s1, 1, v);
                }
            }
            self.peek_check(TT_RPAREN)?;
            Ok(v)
        } else if self.tt == TT_LBRACE {
            let lambda = self.rlambda_block_del()?;
            Ok(self.ast_anyty(AstData::Lambda { lambda }))
        } else if self.tt == TT_LBRACKET {
            self.next();
            proof {
                lemma_lexed_advanced(*old(self), *self, old(self).token_ident@);
            }
            let ghost s1 = *self;
            proof {
                lemma_advanced_ahead(*old(self), s1, 1);
                assert(s1.ahead(0) == old(self).ahead(1));
                assert(s1.ahead(1) == old(self).ahead(2));
            }
            let mut elems: Vec<Ast> = Vec::new();
            self.rrecord_body(&mut elems)?;
            proof {
                if leaf_expr(s1) && closes(s1.ahead(1)) {
                    assert(elems@.len() == 1);
                    lemma_advanced_trans(*old(self), s1, *self, 1, 1);
                    lemma_lexed_read(*old(self), s1, old(self).token_ident@);
                    lemma_leaf_read(*old(self), s1, 1, elems@[0]);
                }
            }
            Ok(self.ast_anyty(AstData::Array { elems }))
        } else {
            Err(ParseError(self.span(), "expected expression"))
        }
    }

    /// Reads expressions separated by `,` or `;` up to a closing bracket or
    /// the end of input, appending them to `exprs`.
    pub fn rrecord_body(&mut self, exprs: &mut Vec<Ast>) -> (r: ParseResult<()>)
        requires
            old(self).wf(),
            old(self).decls_ok(),
            old(self).ok_asts(old(exprs)@),
        ensures
            step(*old(self), *final(self)),
            prefix(old(exprs)@, final(exprs)@),
            r is Ok ==> final(self).ok_asts(final(exprs)@),
            closes(old(self).tt) ==> r is Ok && *final(self) == *old(self) && final(exprs)@ == old(
                exprs,
            )@,
            !closes(old(self).tt) && r is Ok ==> final(exprs)@.len() > old(exprs)@.len(),
            leaf_expr(*old(self)) && closes(old(self).ahead(1)) ==> r is Ok && final(exprs)@.len() == old(
                exprs,
            )@.len() + 1 && leaf_of(*old(self), final(exprs)@.last()) && is_leaf(final(exprs)@.last())
                && advanced(*old(self), *final(self), 1),
        decreases old(self).measure(), 7nat,
    {
        let ghost single = leaf_expr(*old(self)) && closes(old(self).ahead(1));
        let ghost mut first = true;
        while self.tt != TT_RBRACE && self.tt != TT_RPAREN && self.tt != TT_RBRACKET && self.tt
            != TT_EOF
            invariant
                self.wf(),
                self.decls_ok(),
                extends(*old(self), *self),
                self.measure() <= old(self).measure(),
                prefix(old(exprs)@, exprs@),
                self.ok_asts(exprs@),
                first ==> *self == *old(self) && exprs@ == old(exprs)@,
                !first ==> exprs@.len() > old(exprs)@.len() && !closes(old(self).tt),
                single == (leaf_expr(*old(self)) && closes(old(self).ahead(1))),
                single && !first ==> exprs@.len() == old(exprs)@.len() + 1 && leaf_of(*old(self), exprs@.last())
                    && is_leaf(exprs@.last()) && advanced(*old(self), *self, 1) && closes(self.tt),
            ensures
                self.wf(),
                self.decls_ok(),
                extends(*old(self), *self),
                self.measure() <= old(self).measure(),
                prefix(old(exprs)@, exprs@),
                self.ok_asts(exprs@),
                first ==> *self == *old(self) && exprs@ == old(exprs)@ && closes(self.tt),
                !first ==> exprs@.len() > old(exprs)@.len() && !closes(old(self).tt),
                single ==> !first && exprs@.len() == old(exprs)@.len() + 1 && leaf_of(*old(self), exprs@.last())
                    && is_leaf(exprs@.last()) && advanced(*old(self), *self, 1),
            decreases self.measure(),
        {
            proof {
                first = false;
            }
            let ghost before = *self;
            let v = self.rexpr()?;
            proof {
                lemma_ok_asts_grows(before, *self, exprs@);
                super::lemma_asts_push(
                    exprs@,
                    v,
                    self.locals@.len() as nat,
                    self.local_types@.len() as nat,
                    self.uses@.len() as nat,
                );
            }
            exprs.push(v);
            proof {
                if single {
                    assert(before == *old(self));
                    lemma_advanced_ahead(*old(self), *self, 1);
                    assert(self.ahead(0) == old(self).ahead(1));
                }
            }
            if !self.test_comma_or_semi() {
                break;
            }
        }
        Ok(())
    }

    /// Reads the member of a field access `r.member`, after the `.`.
    fn rfield(&mut self, r: Ast) -> (res: ParseResult<Ast>)
        requires
            old(self).wf(),
            old(self).decls_ok(),
            old(self).ok_ast(r),
        ensures
            step(*old(self), *final(self)),
            res matches Ok(a) ==> final(self).ok_ast(a),
            res matches Ok(a) ==> (a.data matches AstData::Field { base, .. } && *base == r),
            old(self).tt == TT_IDENT ==> (res matches Ok(a) && a.data matches AstData::Field {
                member,
                ..
            } && member.data matches AstData::Ident { s } && s@ == old(self).token_ident@),
        decreases old(self).measure(), 7nat,
    {
        let member = self.rprimary_del()?;
        proof {
            lemma_ok_grows(*old(self), *self, r);
        }
        let a = self.ast_anyty(AstData::Field { base: Box::new(r), member: Box::new(member) });
        self.next();
        assert(self.ok_ast(a));
        Ok(a)
    }

    /// Reads the arguments of a call of `r` up to `)`, after the `(`.
    fn rcall(&mut self, r: Ast) -> (res: ParseResult<Ast>)
        requires
            old(self).wf(),
            old(self).decls_ok(),
            old(self).ok_ast(r),
        ensures
            step(*old(self), *final(self)),
            res matches Ok(a) ==> final(self).ok_ast(a),
            res matches Ok(a) ==> (a.data matches AstData::App { fun, kind, .. } && *fun == r
                && kind is Normal),
            old(self).tt == TT_RPAREN ==> (res matches Ok(a) && a.data matches AstData::App {
                params,
                ..
            } && params@.len() == 0),
        decreases old(self).measure(), 8nat,
    {
        let mut params: Vec<Ast> = Vec::new();
        assert(self.ok_asts(params@));
        self.rrecord_body(&mut params)?;
        proof {
            lemma_ok_grows(*old(self), *self, r);
        }
        let a = self.new_app(Box::new(r), params, AppKind::Normal);
        assert(self.ok_ast(a));
        self.check(TT_RPAREN)?;
        Ok(a)
    }

    /// Reads the index of `r[index]`, after the `[`.
    fn rindex(&mut self, r: Ast) -> (res: ParseResult<Ast>)
        requires
            old(self).wf(),
            old(self).decls_ok(),
            old(self).ok_ast(r),
        ensures
            step(*old(self), *final(self)),
            res matches Ok(a) ==> final(self).ok_ast(a),
            res matches Ok(a) ==> (a.data matches AstData::Index { base, .. } && *base == r),
            (old(self).tt == TT_IDENT || old(self).tt == TT_CONSTINT) && old(self).ahead(1)
                == TT_RBRACKET ==> (res matches Ok(a) && a.data matches AstData::Index { index, .. }
                && leaf_of(*old(self), *index)),
        decreases old(self).measure(), 7nat,
    {
        let index = self.rexpr()?;
        proof {
            lemma_ok_grows(*old(self), *self, r);
        }
        let a = self.ast_anyty(AstData::Index { base: Box::new(r), index: Box::new(index) });
        assert(self.ok_ast(a));
        self.check(TT_RBRACKET)?;
        Ok(a)
    }

    /// Reads what follows a simple expression `r`: fields `.x`, calls
    /// `(..)` and indexing `[..]`, in any number.
    pub fn rsimple_expr_tail(&mut self, r: Ast) -> (res: ParseResult<Ast>)
        requires
            old(self).wf(),
            old(self).decls_ok(),
            old(self).ok_ast(r),
        ensures
            step(*old(self), *final(self)),
            res matches Ok(a) ==> final(self).ok_ast(a),
            !continues_simple(old(self).tt) ==> (res matches Ok(a) && a == r && *final(self) == *old(
                self,
            )),
            continues_simple(old(self).tt) ==> (res matches Ok(a) ==> a.data is Field || a.data is App
                || a.data is Index),
        decreases old(self).measure(), 4nat,
    {
        let mut acc = r;
        loop
            invariant
                self.wf(),
                self.decls_ok(),
                extends(*old(self), *self),
                self.measure() <= old(self).measure(),
                self.ok_ast(acc),
                !continues_simple(old(self).tt) ==> *self == *old(self) && acc == r,
                (*self == *old(self) && acc == r) || acc.data is Field || acc.data is App
                    || acc.data is Index,
            ensures
                self.wf(),
                self.decls_ok(),
                extends(*old(self), *self),
                self.measure() <= old(self).measure(),
                self.ok_ast(acc),
                !continues_simple(old(self).tt) ==> *self == *old(self) && acc == r,
                (*self == *old(self) && acc == r) || acc.data is Field || acc.data is App
                    || acc.data is Index,
                !continues_simple(self.tt),
            decreases self.measure(),
        {
            if self.test(TT_DOT) {
                acc = self.rfield(acc)?;
            }
            if self.test(TT_LPAREN) {
                acc = self.rcall(acc)?;
            }
            if self.tt == TT_LBRACKET {
                self.next();
                acc = self.rindex(acc)?;
            }
            if self.tt != TT_DOT && self.tt != TT_LBRACKET && self.tt != TT_LPAREN {
                break;
            }
        }
        Ok(acc)
    }

    /// Reads the rest of an `if` after the keyword: the condition, the body
    /// in braces and an optional `else` branch (another `if`, or a body).
    fn rif(&mut self) -> (r: ParseResult<Ast>)
        requires
            old(self).wf(),
            old(self).decls_ok(),
        ensures
            step(*old(self), *final(self)),
            r matches Ok(a) ==> final(self).ok_ast(a),
            r matches Ok(a) ==> a.data is If,
            simple_block(*old(self)) && old(self).ahead(3) != TT_ELSE ==> (r matches Ok(a)
                && a.data matches AstData::If { cond, body, else_body } && leaf_of(*old(self), *cond)
                && body.expr@.len() == 0 && else_body is None),
            simple_block(*old(self)) && old(self).ahead(3) == TT_ELSE && old(self).ahead(4) == TT_LBRACE
                && old(self).ahead(5) == TT_RBRACE ==> (r matches Ok(a) && a.data matches AstData::If {
                cond,
                body,
                else_body,
            } && leaf_of(*old(self), *cond) && body.expr@.len() == 0 && (else_body matches Some(e)
                && (e.data matches AstData::Block { expr } && expr@.len() == 0))),
        decreases old(self).measure(), 7nat,
    {
        let cond = self.rexpr()?;
        let s1 = Ghost(*self);
        proof {
            if simple_block(*old(self)) {
                lemma_advanced_ahead(*old(self), s1@, 1);
                assert(s1@.ahead(1) == old(self).ahead(2));
            }
        }
        let body = self.rlambda_block_del()?;
        let ghost s3 = *self;
        self.next();
        let s2 = Ghost(*self);
        proof {
            lemma_lexed_advanced(s3, s2@, s3.token_ident@);
            if simple_block(*old(self)) {
                lemma_advanced_trans(*old(self), s1@, s3, 1, 1);
                lemma_advanced_trans(*old(self), s3, s2@, 2, 1);
            }
        }
        proof {
            if simple_block(*old(self)) {
                lemma_advanced_ahead(*old(self), s2@, 3);
                assert(s2@.ahead(0) == old(self).ahead(3));
                assert(s2@.ahead(1) == old(self).ahead(4));
                assert(s2@.ahead(2) == old(self).ahead(5));
            }
        }
        let ghost s4 = *self;
        let else_body = if self.test(TT_ELSE) {
            proof {
                lemma_keyword_shift(s4, *self);
            }
            if self.tt == TT_IF {
                let e = self.rsimple_expr()?;
                assert(self.ok_ast(e));
                Some(Box::new(e))
            } else {
                let else_lambda = self.rlambda_block_del()?;
                self.next();
                assert(self.ok_asts(else_lambda.expr@));
                let b = self.ast_anyty(AstData::Block { expr: else_lambda.expr });
                assert(self.ok_ast(b));
                Some(Box::new(b))
            }
        } else {
            None
        };
        proof {
            lemma_ok_grows(s1@, *self, cond);
            lemma_ok_lambda_grows(s2@, *self, body);
        }
        Ok(self.ast_anyty(AstData::If { cond: Box::new(cond), body, else_body }))
    }

    /// Reads the rest of a `while` after the keyword.
    fn rwhile(&mut self) -> (r: ParseResult<Ast>)
        requires
            old(self).wf(),
            old(self).decls_ok(),
        ensures
            step(*old(self), *final(self)),
            r matches Ok(a) ==> final(self).ok_ast(a),
            r matches Ok(a) ==> a.data is While,
            simple_block(*old(self)) ==> (r matches Ok(a) && a.data matches AstData::While {
                cond,
                body,
            } && leaf_of(*old(self), *cond) && body.expr@.len() == 0),
        decreases old(self).measure(), 7nat,
    {
        let cond = self.rexpr()?;
        let s1 = Ghost(*self);
        proof {
            if simple_block(*old(self)) {
                lemma_advanced_ahead(*old(self), s1@, 1);
                assert(s1@.ahead(1) == old(self).ahead(2));
            }
        }
        let body = self.rlambda_block_del()?;
        self.next();
        proof {
            lemma_ok_grows(s1@, *self, cond);
        }
        Ok(self.ast_anyty(AstData::While { cond: Box::new(cond), body }))
    }

    /// Reads the rest of a `for` after the keyword: `name in from..to` and
    /// the body. The name is declared as a mutable local.
    fn rfor(&mut self) -> (r: ParseResult<Ast>)
        requires
            old(self).wf(),
            old(self).decls_ok(),
        ensures
            step(*old(self), *final(self)),
            r matches Ok(a) ==> final(self).ok_ast(a),
            r matches Ok(a) ==> a.data is For,
            r matches Ok(a) ==> (a.data matches AstData::For { name, pat, .. } && name@ == old(
                self,
            ).token_ident@ && pat == old(self).locals@.len()),
            simple_for(*old(self)) ==> (r matches Ok(a) && a.data matches AstData::For {
                iter,
                body,
                ..
            } && (iter.0.data is Ident || iter.0.data is ConstLit) && (iter.1.data is Ident
                || iter.1.data is ConstLit) && body.expr@.len() == 0),
        decreases old(self).measure(), 7nat,
    {
        let name = self.check_ident()?;
        let ghost t1 = *self;
        let local_index = self.new_local(name.clone(), AstType::Any, true)?;
        let ghost t2 = *self;
        proof {
            lemma_lexed_advanced(*old(self), t1, Seq::empty());
            assert(advanced(t1, t2, 0));
            lemma_advanced_trans(*old(self), t1, t2, 1, 0);
        }
        self.check(TT_IN)?;
        let ghost t3 = *self;
        proof {
            lemma_lexed_advanced(t2, t3, t2.token_ident@);
            lemma_advanced_trans(*old(self), t2, t3, 1, 1);
            lemma_advanced_ahead(*old(self), t3, 2);
            assert(t3.ahead(0) == old(self).ahead(2));
            assert(t3.ahead(1) == old(self).ahead(3));
        }
        let from = self.rexpr()?;
        let s1 = Ghost(*self);
        proof {
            if simple_for(*old(self)) {
                lemma_advanced_trans(*old(self), t3, s1@, 2, 1);
            }
        }
        self.check(TT_DOUBLEDOT)?;
        let ghost t5 = *self;
        proof {
            lemma_lexed_advanced(s1@, t5, s1@.token_ident@);
            if simple_for(*old(self)) {
                lemma_advanced_trans(*old(self), s1@, t5, 3, 1);
                lemma_advanced_ahead(*old(self), t5, 4);
                assert(t5.ahead(0) == old(self).ahead(4));
                assert(t5.ahead(1) == old(self).ahead(5));
            }
        }
        let to = self.rexpr()?;
        let s2 = Ghost(*self);
        proof {
            if simple_for(*old(self)) {
                lemma_advanced_trans(*old(self), t5, s2@, 4, 1);
                lemma_advanced_ahead(*old(self), s2@, 5);
                assert(s2@.ahead(1) == old(self).ahead(6));
            }
        }
        let body = self.rlambda_block_del()?;
        self.next();
        proof {
            lemma_ok_grows(s1@, *self, from);
            lemma_ok_grows(s2@, *self, to);
        }
        Ok(
            self.ast_anyty(
                AstData::For { name, pat: local_index, iter: (Box::new(from), Box::new(to)), body },
            ),
        )
    }

    /// Reads a simple expression: a prefix operator applied to one, `if`,
    /// `while`, `for`, `break`, `loop`, `return`, or a primary expression
    /// with what follows it.
    #[verifier::rlimit(100)]
    pub fn rsimple_expr(&mut self) -> (r: ParseResult<Ast>)
        requires
            old(self).wf(),
            old(self).decls_ok(),
        ensures
            step(*old(self), *final(self)),
            r matches Ok(a) ==> final(self).ok_ast(a),
            !starts_expr(old(self).tt) ==> r is Err,
            old(self).tt == TT_OPIDENT ==> (r matches Ok(a) ==> a.data matches AstData::App { fun, params, kind }
                && kind is Unary && params@.len() == 1 && (fun.data matches AstData::Ident { s } && s@ == old(
                self,
            ).token_ident@)),
            old(self).tt == TT_IF ==> (r matches Ok(a) ==> a.data is If),
            old(self).tt == TT_WHILE ==> (r matches Ok(a) ==> a.data is While),
            old(self).tt == TT_FOR ==> (r matches Ok(a) ==> a.data is For),
            old(self).tt == TT_LOOP ==> (r matches Ok(a) ==> a.data is Loop),
            old(self).tt == TT_RETURN ==> (r matches Ok(a) ==> a.data is Return),
            old(self).tt == TT_BREAK ==> (r matches Ok(a) && a.data is Break),
            leaf_expr(*old(self)) ==> (r matches Ok(a) && leaf_of(*old(self), a)) && advanced(
                *old(self),
                *final(self),
                1,
            ) && same_decls(*old(self), *final(self)),
            simple_leaf_at(*old(self), 0) ==> (r matches Ok(a) && leaf_of(*old(self), a) && is_leaf(a))
                && read_at(*old(self), *final(self), 1),
            old(self).tt == TT_IF && (old(self).ahead(1) == TT_IDENT || old(self).ahead(1) == TT_CONSTINT)
                && old(self).ahead(2) == TT_LBRACE && old(self).ahead(3) == TT_RBRACE && old(self).ahead(4)
                != TT_ELSE ==> (r matches Ok(a) && a.data matches AstData::If { body, else_body, .. }
                && body.expr@.len() == 0 && else_body is None),
            old(self).tt == TT_IF && (old(self).ahead(1) == TT_IDENT || old(self).ahead(1) == TT_CONSTINT)
                && old(self).ahead(2) == TT_LBRACE && old(self).ahead(3) == TT_RBRACE && old(self).ahead(4)
                == TT_ELSE && old(self).ahead(5) == TT_LBRACE && old(self).ahead(6) == TT_RBRACE ==> (r matches Ok(
                a,
            ) && a.data matches AstData::If { body, else_body, .. } && body.expr@.len() == 0
                && (else_body matches Some(e) && (e.data matches AstData::Block { expr } && expr@.len() == 0))),
            old(self).tt == TT_WHILE && (old(self).ahead(1) == TT_IDENT || old(self).ahead(1) == TT_CONSTINT)
                && old(self).ahead(2) == TT_LBRACE && old(self).ahead(3) == TT_RBRACE ==> r is Ok,
            old(self).tt == TT_FOR && (old(self).ahead(1) == TT_IDENT || old(self).ahead(1) == TT_OPIDENT)
                && old(self).ahead(2) == TT_IN && (old(self).ahead(3) == TT_IDENT || old(self).ahead(3)
                == TT_CONSTINT) && old(self).ahead(4) == TT_DOUBLEDOT && (old(self).ahead(5) == TT_IDENT
                || old(self).ahead(5) == TT_CONSTINT) && old(self).ahead(6) == TT_LBRACE && old(self).ahead(7)
                == TT_RBRACE && old(self).locals@.len() < u32::MAX ==> r is Ok,
            old(self).tt == TT_LOOP && old(self).ahead(1) == TT_LBRACE && old(self).ahead(2) == TT_RBRACE
                ==> (r matches Ok(a) && a.data matches AstData::Loop { body } && body.expr@.len() == 0),
            old(self).tt == TT_RETURN && (old(self).ahead(1) == TT_RBRACE || old(self).ahead(1)
                == TT_SEMICOLON) ==> (r matches Ok(a) && a.data matches AstData::Return { value }
                && value is None),
            old(self).tt == TT_RETURN && (old(self).ahead(1) == TT_IDENT || old(self).ahead(1)
                == TT_CONSTINT) && old(self).ahead(2) != TT_DOT && old(self).ahead(2) != TT_LPAREN
                && old(self).ahead(2) != TT_LBRACKET && old(self).ahead(2) != TT_OPIDENT ==> (r matches Ok(a)
                && a.data matches AstData::Return { value } && value is Some),
        decreases old(self).measure(), 5nat,
    {
        if self.tt == TT_OPIDENT {
            let ident = self.take_ident();
            let op = self.ast_anyty(AstData::Ident { s: ident });
            self.next();
            let rhs = self.rsimple_expr()?;
            let ghost g = rhs;
            let mut params: Vec<Ast> = Vec::new();
            params.push(rhs);
            assert(self.ok_ast(op));
            proof {
                lemma_ok_single(*self, g);
                assert(params@ =~= seq![g]);
            }
            Ok(self.new_app(Box::new(op), params, AppKind::Unary))
        } else if self.test(TT_IF) {
            proof {
                lemma_keyword_shift(*old(self), *self);
            }
            self.rif()
        } else if self.test(TT_WHILE) {
            proof {
                lemma_keyword_shift(*old(self), *self);
            }
            self.rwhile()
        } else if self.test(TT_FOR) {
            proof {
                lemma_keyword_shift(*old(self), *self);
            }
            self.rfor()
        } else if self.test(TT_BREAK) {
            Ok(self.ast_anyty(AstData::Break))
        } else if self.test(TT_LOOP) {
            proof {
                lemma_keyword_shift(*old(self), *self);
            }
            let body = self.rlambda_block_del()?;
            self.next();
            Ok(self.ast_anyty(AstData::Loop { body }))
        } else if self.test(TT_RETURN) {
            proof {
                lemma_keyword_shift(*old(self), *self);
            }
            let value = if self.tt == TT_RBRACE || self.tt == TT_SEMICOLON {
                None
            } else {
                Some(Box::new(self.rexpr()?))
            };
            Ok(self.ast_anyty(AstData::Return { value }))
        } else {
            let ghost s0 = *self;
            let r = self.rprimary_del()?;
            let ghost s1 = *self;
            self.next();
            proof {
                lemma_lexed_advanced(s1, *self, s1.token_ident@);
                lemma_lexed_read(s1, *self, s1.token_ident@);
                if simple_leaf_at(*old(self), 0) {
                    reveal_with_fuel(tok_at, 1);
                    assert(advanced(*old(self), s1, 0));
                    lemma_advanced_trans(*old(self), s1, *self, 0, 1);
                    lemma_read_trans(*old(self), s1, *self, 0, 1);
                }
            }
            if self.tt == TT_DOT || self.tt == TT_LPAREN || self.tt == TT_LBRACKET || self.tt
                == TT_LBRACE || self.tt == TT_BACKSLASH {
                self.rsimple_expr_tail(r)
            } else {
                Ok(r)
            }
        }
    }

    /// Reads binary operators and their right operands after `lhs`, as
    /// long as their precedence is at least `min_prec`; an operator binds
    /// its right operand to the following operators of higher precedence
    /// (of equal precedence too when it groups to the right).
    pub fn rexpr_rest(&mut self, lhs0: Ast, min_prec: u8) -> (r: ParseResult<Ast>)
        requires
            old(self).wf(),
            old(self).decls_ok(),
            old(self).ok_ast(lhs0),
        ensures
            step(*old(self), *final(self)),
            r matches Ok(a) ==> final(self).ok_ast(a),
            old(self).tt != TT_OPIDENT ==> (r matches Ok(a) && a == lhs0 && *final(self) == *old(
                self,
            )),
            old(self).tt == TT_OPIDENT && old(self).token_prec >= min_prec && r is Ok
                ==> final(self).measure() < old(self).measure(),
            old(self).tt == TT_OPIDENT && old(self).token_prec < min_prec ==> (r matches Ok(a) && a == lhs0
                && *final(self) == *old(self)),
            old(self).tt == TT_OPIDENT && old(self).token_prec >= min_prec ==> (r matches Ok(a) ==> a.data matches AstData::App {
                kind,
                params,
                ..
            } && kind is Binary && params@.len() == 2),
            one_op(*old(self), min_prec) ==> (r matches Ok(a) && bin_leaf(a, old(self).token_ident@, lhs0)
                && leaf_ahead(*old(self), 1, app_arg(a, 1))) && advanced(*old(self), *final(self), 2),
            two_ops(*old(self), min_prec) ==> (old(self).lexeme_ahead(2) matches Lexeme::Op(t2, p2, rtl2)
                && (r matches Ok(a) && if binds_right(old(self).token_prec, p2, rtl2) {
                bin_right(a, old(self).token_ident@, t2, lhs0) && leaf_ahead(*old(self), 1, app_arg(app_arg(a, 1), 0))
                    && leaf_ahead(*old(self), 3, app_arg(app_arg(a, 1), 1))
            } else {
                bin_left(a, old(self).token_ident@, t2, lhs0) && leaf_ahead(*old(self), 1, app_arg(app_arg(a, 0), 1))
                    && leaf_ahead(*old(self), 3, app_arg(a, 1))
            })) && advanced(*old(self), *final(self), 4),
        decreases old(self).measure(), 5nat,
    {
        let mut lhs = lhs0;
        let ghost first = true;
        let ghost one = one_op(*old(self), min_prec);
        let ghost two = two_ops(*old(self), min_prec);
        let ghost t1 = old(self).token_ident@;
        let ghost (t2, p2, r2) = match old(self).lexeme_ahead(2) {
            Lexeme::Op(t, p, rr) => (t, p, rr),
            _ => (Seq::<char>::empty(), 0u8, false),
        };
        let ghost right = two && binds_right(old(self).token_prec, p2, r2);
        let ghost mut it: nat = 0;
        proof {
            if two {
                lemma_lexeme_kind(*old(self), 2);
            }
        }
        while self.tt == TT_OPIDENT
            invariant
                self.wf(),
                self.decls_ok(),
                extends(*old(self), *self),
                self.measure() <= old(self).measure(),
                self.ok_ast(lhs),
                first ==> *self == *old(self) && lhs == lhs0,
                !first ==> self.measure() < old(self).measure() && old(self).tt == TT_OPIDENT
                    && old(self).token_prec >= min_prec,
                !first ==> (lhs.data matches AstData::App { kind, params, .. } && kind is Binary && params@.len()
                    == 2),
                first <==> it == 0,
                one == one_op(*old(self), min_prec),
                two == two_ops(*old(self), min_prec),
                t1 == old(self).token_ident@,
                two ==> old(self).lexeme_ahead(2) == Lexeme::Op(t2, p2, r2) && old(self).ahead(2) == TT_OPIDENT,
                right == (two && binds_right(old(self).token_prec, p2, r2)),
                one ==> it <= 1 && (it == 1 ==> advanced(*old(self), *self, 2) && bin_leaf(lhs, t1, lhs0)
                    && leaf_ahead(*old(self), 1, app_arg(lhs, 1))),
                right ==> it <= 1 && (it == 1 ==> advanced(*old(self), *self, 4) && bin_right(lhs, t1, t2, lhs0)
                    && leaf_ahead(*old(self), 1, app_arg(app_arg(lhs, 1), 0)) && leaf_ahead(*old(self), 3, app_arg(app_arg(lhs, 1), 1))),
                two && !right ==> it <= 2 && (it == 1 ==> read_at(*old(self), *self, 2) && bin_leaf(lhs, t1, lhs0)
                    && leaf_ahead(*old(self), 1, app_arg(lhs, 1)))
                    && (it == 2 ==> advanced(*old(self), *self, 4) && bin_left(lhs, t1, t2, lhs0)
                    && leaf_ahead(*old(self), 1, app_arg(app_arg(lhs, 0), 1)) && leaf_ahead(*old(self), 3, app_arg(lhs, 1))),
            ensures
                self.wf(),
                self.decls_ok(),
                extends(*old(self), *self),
                self.measure() <= old(self).measure(),
                self.ok_ast(lhs),
                first ==> *self == *old(self) && lhs == lhs0 && (self.tt != TT_OPIDENT
                    || self.token_prec < min_prec),
                !first ==> self.measure() < old(self).measure() && old(self).tt == TT_OPIDENT
                    && old(self).token_prec >= min_prec,
                !first ==> (lhs.data matches AstData::App { kind, params, .. } && kind is Binary && params@.len()
                    == 2),
                one ==> advanced(*old(self), *self, 2) && bin_leaf(lhs, t1, lhs0) && leaf_ahead(*old(self), 1, app_arg(lhs, 1)),
                right ==> advanced(*old(self), *self, 4) && bin_right(lhs, t1, t2, lhs0)
                    && leaf_ahead(*old(self), 1, app_arg(app_arg(lhs, 1), 0)) && leaf_ahead(*old(self), 3, app_arg(app_arg(lhs, 1), 1)),
                two && !right ==> advanced(*old(self), *self, 4) && bin_left(lhs, t1, t2, lhs0)
                    && leaf_ahead(*old(self), 1, app_arg(app_arg(lhs, 0), 1)) && leaf_ahead(*old(self), 3, app_arg(lhs, 1)),
            decreases self.measure(),
        {
            let ghost m_it = self.measure();
            let ghost sb = *self;
            let ghost it0 = it;
            proof {
                if (one || two) && it == 0 {
                    assert(sb == *old(self));
                }
                if one || right {
                    assert(it0 == 0);
                }
                if two && !right {
                    assert(it0 <= 1);
                }
            }
            let prec = self.token_prec;
            if prec < min_prec {
                break;
            }
            let op_ident = self.take_ident();
            let op = self.ast_anyty(AstData::Ident { s: op_ident });
            let ghost st = *self;
            self.next();
            proof {
                first = false;
                lemma_lexed_read(st, *self, st.token_ident@);
                reveal_with_fuel(tok_at, 1);
                assert(advanced(sb, st, 0));
                lemma_read_trans(sb, st, *self, 0, 1);
                if (one || two) && it0 == 0 {
                    lemma_advanced_ahead(sb, *self, 1);
                    assert(self.ahead(0) == sb.ahead(1));
                    assert(self.ahead(1) == sb.ahead(2));
                }
                if two && !right && it0 == 1 {
                    lemma_read_trans(*old(self), sb, *self, 2, 1);
                    lemma_advanced_ahead(*old(self), *self, 3);
                    assert(self.ahead(0) == old(self).ahead(3));
                    assert(self.ahead(1) == old(self).ahead(4));
                }
            }
            let s1 = Ghost(*self);
            let mut rhs = self.rsimple_expr()?;
            let ghost s2 = *self;
            let ghost rhs0 = rhs;
            let ghost stay = (one && it0 == 0) || (two && !right);
            let ghost climb = right && it0 == 0;
            let ghost inner_first = true;
            let ghost leaf_pos: nat = if it0 == 0 {
                1
            } else {
                3
            };
            proof {
                if (one || two) && it0 == 0 {
                    assert(read_at(*old(self), s1@, 1));
                    lemma_leaf_read(*old(self), s1@, 1, rhs0);
                }
                if two && !right && it0 == 1 {
                    assert(read_at(*old(self), s1@, 3));
                    lemma_leaf_read(*old(self), s1@, 3, rhs0);
                }
                if (one || two) && it0 == 0 {
                    lemma_read_trans(*old(self), s1@, s2, 1, 1);
                    lemma_advanced_ahead(*old(self), s2, 2);
                    assert(s2.ahead(0) == old(self).ahead(2));
                    assert(s2.ahead(1) == old(self).ahead(3));
                    assert(s2.ahead(2) == old(self).ahead(4));
                }
                if two && !right && it0 == 1 {
                    lemma_advanced_trans(*old(self), s1@, s2, 3, 1);
                }
            }
            while self.tt == TT_OPIDENT
                invariant
                    self.wf(),
                    self.decls_ok(),
                    extends(*old(self), *self),
                    self.measure() < old(self).measure(),
                    self.measure() < m_it,
                    old(self).tt == TT_OPIDENT,
                    old(self).token_prec >= min_prec,
                    extends(s1@, *self),
                    s1@.ok_ast(lhs),
                    self.ok_ast(rhs),
                    prec == sb.token_prec,
                    one == one_op(*old(self), min_prec),
                    two == two_ops(*old(self), min_prec),
                    right == (two && binds_right(old(self).token_prec, p2, r2)),
                    one ==> it0 == 0,
                    right ==> it0 == 0,
                    two && !right ==> it0 <= 1,
                    stay == ((one && it0 == 0) || (two && !right)),
                    climb == (right && it0 == 0),
                    two ==> t2 == s2.token_ident@ || it0 != 0,
                    stay ==> *self == s2 && rhs == rhs0,
                    stay && (one && it0 == 0 || two && !right && it0 == 1) ==> self.tt != TT_OPIDENT,
                    two && !right && it0 == 0 ==> !binds_right(prec, self.token_prec, self.is_rtl),
                    climb ==> (inner_first ==> *self == s2 && rhs == rhs0) && (!inner_first
                        ==> advanced(*old(self), *self, 4) && bin_leaf(rhs, t2, rhs0) && self.tt
                        != TT_OPIDENT && leaf_ahead(*old(self), 3, app_arg(rhs, 1))),
                    climb ==> one_op(s2, s2.token_prec) && s2.token_ident@ == t2 && binds_right(
                        prec,
                        s2.token_prec,
                        s2.is_rtl,
                    ) && read_at(*old(self), s2, 2),
                    (one || two) && it0 == 0 ==> leaf_ahead(*old(self), 1, rhs0),
                    two && !right && it0 == 1 ==> leaf_ahead(*old(self), 3, rhs0),
                ensures
                    self.wf(),
                    self.decls_ok(),
                    extends(*old(self), *self),
                    self.measure() < old(self).measure(),
                    self.measure() < m_it,
                    old(self).tt == TT_OPIDENT,
                    old(self).token_prec >= min_prec,
                    extends(s1@, *self),
                    s1@.ok_ast(lhs),
                    self.ok_ast(rhs),
                    prec == sb.token_prec,
                    one == one_op(*old(self), min_prec),
                    two == two_ops(*old(self), min_prec),
                    right == (two && binds_right(old(self).token_prec, p2, r2)),
                    one ==> it0 == 0,
                    right ==> it0 == 0,
                    two && !right ==> it0 <= 1,
                    stay == ((one && it0 == 0) || (two && !right)),
                    climb == (right && it0 == 0),
                    two ==> t2 == s2.token_ident@ || it0 != 0,
                    stay ==> *self == s2 && rhs == rhs0,
                    stay && (one && it0 == 0 || two && !right && it0 == 1) ==> self.tt != TT_OPIDENT,
                    two && !right && it0 == 0 ==> !binds_right(prec, self.token_prec, self.is_rtl),
                    climb ==> (inner_first ==> *self == s2 && rhs == rhs0) && (!inner_first
                        ==> advanced(*old(self), *self, 4) && bin_leaf(rhs, t2, rhs0) && self.tt
                        != TT_OPIDENT && leaf_ahead(*old(self), 3, app_arg(rhs, 1))),
                    climb ==> one_op(s2, s2.token_prec) && s2.token_ident@ == t2 && binds_right(
                        prec,
                        s2.token_prec,
                        s2.is_rtl,
                    ) && read_at(*old(self), s2, 2),
                    climb ==> !inner_first,
                    (one || two) && it0 == 0 ==> leaf_ahead(*old(self), 1, rhs0),
                    two && !right && it0 == 1 ==> leaf_ahead(*old(self), 3, rhs0),
                decreases self.measure(),
            {
                let prec2 = self.token_prec;
                if (self.is_rtl && prec2 < prec) || (!self.is_rtl && prec2 <= prec) {
                    break;
                }
                let ghost s3 = *self;
                rhs = self.rexpr_rest(rhs, prec2)?;
                proof {
                    if climb {
                        lemma_advanced_trans(*old(self), s3, *self, 2, 2);
                        lemma_leaf_shift(*old(self), s3, 2, 1, app_arg(rhs, 1));
                        inner_first = false;
                    }
                }
            }
            proof {
                lemma_ok_grows(s1@, *self, lhs);
                lemma_ok_pair(*self, lhs, rhs);
            }
            assert(self.ok_ast(op));
            let ghost gl = lhs;
            let ghost gr = rhs;
            let mut params: Vec<Ast> = Vec::new();
            params.push(lhs);
            params.push(rhs);
            assert(params@ =~= seq![gl, gr]);
            lhs = self.new_app(Box::new(op), params, AppKind::Binary);
            proof {
                assert(app_arg(lhs, 0) == gl);
                assert(app_arg(lhs, 1) == gr);
                it = it + 1;
            }
        }
        Ok(lhs)
    }

    /// Reads an expression: a simple expression and the binary operators
    /// that follow it.
    pub fn rexpr(&mut self) -> (r: ParseResult<Ast>)
        requires
            old(self).wf(),
            old(self).decls_ok(),
        ensures
            step(*old(self), *final(self)),
            r matches Ok(a) ==> final(self).ok_ast(a),
            !starts_expr(old(self).tt) ==> r is Err,
            leaf_expr(*old(self)) ==> (r matches Ok(a) && leaf_of(*old(self), a)) && advanced(
                *old(self),
                *final(self),
                1,
            ) && same_decls(*old(self), *final(self)),
            simple_leaf_at(*old(self), 0) && simple_leaf_at(*old(self), 2) && end_after(*old(self), 3) ==> (old(
                self,
            ).lexeme_ahead(1) matches Lexeme::Op(t1, _, _) ==> (r matches Ok(a) && exists|l: Ast|
                #[trigger] bin_leaf(a, t1, l) && is_leaf(l)) && (r matches Ok(a) && leaf_of(*old(self), app_arg(a, 0))
                && leaf_ahead(*old(self), 2, app_arg(a, 1))) && advanced(*old(self), *final(self), 3)),
            simple_leaf_at(*old(self), 0) && simple_leaf_at(*old(self), 2) && simple_leaf_at(*old(self), 4)
                && end_after(*old(self), 5) ==> (old(self).lexeme_ahead(1) matches Lexeme::Op(t1, p1, _) ==> (
            old(self).lexeme_ahead(3) matches Lexeme::Op(t2, p2, rtl2) ==> (r matches Ok(a) && if binds_right(
                p1,
                p2,
                rtl2,
            ) {
                (exists|l: Ast| #[trigger] bin_right(a, t1, t2, l) && is_leaf(l)) && leaf_of(*old(self), app_arg(a, 0))
                    && leaf_ahead(*old(self), 2, app_arg(app_arg(a, 1), 0)) && leaf_ahead(*old(self), 4, app_arg(app_arg(a, 1), 1))
            } else {
                (exists|l: Ast| #[trigger] bin_left(a, t1, t2, l) && is_leaf(l)) && leaf_of(*old(self), app_arg(app_arg(a, 0), 0))
                    && leaf_ahead(*old(self), 2, app_arg(app_arg(a, 0), 1)) && leaf_ahead(*old(self), 4, app_arg(a, 1))
            }) && advanced(*old(self), *final(self), 5))),
        decreases old(self).measure(), 6nat,
    {
        let lhs = self.rsimple_expr()?;
        proof {
            if leaf_expr(*old(self)) {
                lemma_advanced_ahead(*old(self), *self, 1);
                assert(self.ahead(0) == old(self).ahead(1));
            }
            if simple_leaf_at(*old(self), 0) {
                lemma_advanced_ahead(*old(self), *self, 1);
                lemma_lexeme_kind(*old(self), 1);
                lemma_advanced_lexeme(*old(self), *self, 1, 2);
                lemma_lexeme_kind(*old(self), 3);
                assert(self.ahead(0) == old(self).ahead(1));
                assert(self.ahead(1) == old(self).ahead(2));
                assert(self.ahead(2) == old(self).ahead(3));
                assert(self.ahead(3) == old(self).ahead(4));
                assert(self.ahead(4) == old(self).ahead(5));
            }
        }
        let ghost s1 = *self;
        let r = self.rexpr_rest(lhs, 0);
        proof {
            if simple_leaf_at(*old(self), 0) && r is Ok {
                let a = r.unwrap();
                if leaf_ahead(s1, 1, app_arg(a, 1)) {
                    lemma_leaf_shift(*old(self), s1, 1, 1, app_arg(a, 1));
                }
                if leaf_ahead(s1, 1, app_arg(app_arg(a, 1), 0)) {
                    lemma_leaf_shift(*old(self), s1, 1, 1, app_arg(app_arg(a, 1), 0));
                }
                if leaf_ahead(s1, 3, app_arg(app_arg(a, 1), 1)) {
                    lemma_leaf_shift(*old(self), s1, 1, 3, app_arg(app_arg(a, 1), 1));
                }
                if leaf_ahead(s1, 1, app_arg(app_arg(a, 0), 1)) {
                    lemma_leaf_shift(*old(self), s1, 1, 1, app_arg(app_arg(a, 0), 1));
                }
                if leaf_ahead(s1, 3, app_arg(a, 1)) {
                    lemma_leaf_shift(*old(self), s1, 1, 3, app_arg(a, 1));
                }
                if advanced(s1, *self, 2) {
                    lemma_advanced_trans(*old(self), s1, *self, 1, 2);
                }
                if advanced(s1, *self, 4) {
                    lemma_advanced_trans(*old(self), s1, *self, 1, 4);
                }
            }
        }
        r
    }
}

/// The attribute an `@name` gives, by its name.
pub open spec fn attr_by_name(s: Seq<char>) -> Option<Attr> {
    if s == "attribute"@ {
        Some(Attr::Attribute)
    } else if s == "varying"@ {
        Some(Attr::Varying)
    } else if s == "uniform"@ {
        Some(Attr::Uniform)
    } else if s == "binary"@ {
        Some(Attr::Binary)
    } else if s == "inline"@ {
        Some(Attr::Inline)
    } else if s == "debug"@ {
        Some(Attr::Debug)
    } else {
        None
    }
}

/// A declaration `name` alone, with neither type nor value nor another
/// declaration after it, while a local can still be declared.
pub open spec fn simple_let(p: Parser) -> bool {
    &&& p.tt == TT_IDENT || p.tt == TT_OPIDENT
    &&& p.ahead(1) != TT_COLON
    &&& p.ahead(1) != TT_EQUAL
    &&& p.ahead(1) != TT_COMMA
    &&& p.locals@.len() < u32::MAX
}

/// `a` is the expression that the name or integer at `p` reads as.
pub open spec fn leaf_of(p: Parser, a: Ast) -> bool {
    &&& p.tt == TT_IDENT ==> (a.data matches AstData::Ident { s } && s@ == p.token_ident@)
    &&& p.tt == TT_CONSTINT ==> (a.data matches AstData::ConstLit { v: Lit::Int(n) } && n
        == p.token_number)
}

/// The width in tokens and the kind of the simple item `k` tokens ahead,
/// after `pub` when `is_pub`: 0 a name or an integer standing alone, 1 a
/// declaration `let name` or `var name` without type or value, 2 a
/// function `fn name {}` or `fn name() {}`.
pub open spec fn item_at(p: Parser, k: nat, is_pub: bool) -> Option<(nat, u8)> {
    let u = p.ahead(k);
    let named = p.ahead(k + 1) == TT_IDENT || p.ahead(k + 1) == TT_OPIDENT;
    if !is_pub && (u == TT_IDENT || u == TT_CONSTINT) && p.ahead(k + 1) != TT_DOT && p.ahead(k + 1)
        != TT_LPAREN && p.ahead(k + 1) != TT_LBRACKET && p.ahead(k + 1) != TT_OPIDENT {
        Some((1, 0))
    } else if (u == TT_LET || u == TT_VAR) && named && p.ahead(k + 2) != TT_COLON && p.ahead(k + 2)
        != TT_EQUAL && p.ahead(k + 2) != TT_COMMA {
        Some((2, 1))
    } else if u == TT_FUN && named && p.ahead(k + 2) == TT_LBRACE && p.ahead(k + 3) == TT_RBRACE {
        Some((4, 2))
    } else if u == TT_FUN && named && p.ahead(k + 2) == TT_LPAREN && p.ahead(k + 3) == TT_RPAREN
        && p.ahead(k + 4) == TT_LBRACE && p.ahead(k + 5) == TT_RBRACE {
        Some((6, 2))
    } else {
        None
    }
}

/// The simple items `k` tokens ahead, each maybe after `pub`, separated
/// by `;` and ending at `end` (a `;` may stand before `end`): their kinds
/// (see `item_at`), whether each is `pub`, and the text of the token after
/// the first word of each (the name a declaration or a function declares).
/// `fuel` bounds their number.
pub open spec fn items_at(p: Parser, k: nat, end: u16, fuel: nat) -> Option<Seq<(u8, bool, Seq<char>)>>
    decreases fuel,
{
    if p.ahead(k) == end {
        Some(Seq::empty())
    } else if fuel == 0 {
        None
    } else {
        let is_pub = p.ahead(k) == TT_PUB;
        let s: nat = if is_pub {
            k + 1
        } else {
            k
        };
        match item_at(p, s, is_pub) {
            Some((w, kind)) => {
                let f = p.ahead(s + w);
                if f == end {
                    Some(seq![(kind, is_pub, name_at(p, s + 1))])
                } else if f == TT_SEMICOLON {
                    match items_at(p, s + w + 1, end, (fuel - 1) as nat) {
                        Some(ks) => Some(seq![(kind, is_pub, name_at(p, s + 1))] + ks),
                        None => None,
                    }
                } else {
                    None
                }
            },
            None => None,
        }
    }
}

/// The text of the name `k` tokens ahead (`k` at least 1): that of an
/// identifier or an operator.
pub open spec fn name_at(p: Parser, k: nat) -> Seq<char> {
    match p.lexeme_ahead(k) {
        Lexeme::Ident(t) => t,
        Lexeme::Op(t, _, _) => t,
        _ => Seq::empty(),
    }
}

/// `a` is an item of the given kind: 0 a name or an integer; 1 the
/// declaration of the local `li` named `name`, without a value; 2 the
/// function `name` declared as the local `li`, exported when `is_pub`,
/// without parameters, body or return type.
pub open spec fn item_matches(kind: u8, is_pub: bool, name: Seq<char>, li: nat, a: Ast) -> bool {
    if kind == 0 {
        a.data is Ident || a.data is ConstLit
    } else if kind == 1 {
        a.data matches AstData::LetLocal { name: n, init, local_index, .. } && n@ == name && init is None
            && local_index == li
    } else {
        a.data matches AstData::FnLocal { name: n, lambda: l, local_index, exported } && n@ == name
            && local_index == li && exported == is_pub && l.params@.len() == 0 && l.param_locals@.len() == 0
            && l.expr@.len() == 0 && l.return_type == AstType::NoType
    }
}

/// How many of the items `ks` declare a local (those of kinds 1 and 2).
pub open spec fn decl_count(ks: Seq<(u8, bool, Seq<char>)>) -> nat
    decreases ks.len(),
{
    if ks.len() == 0 {
        0
    } else {
        decl_count(ks.drop_last()) + if ks.last().0 != 0 {
            1nat
        } else {
            0nat
        }
    }
}

/// The names the items `ks` declare, in order.
pub open spec fn declared_names(ks: Seq<(u8, bool, Seq<char>)>) -> Seq<Seq<char>>
    decreases ks.len(),
{
    if ks.len() == 0 {
        Seq::empty()
    } else if ks.last().0 != 0 {
        declared_names(ks.drop_last()).push(ks.last().2)
    } else {
        declared_names(ks.drop_last())
    }
}

/// The names and local indices the items `ks` export, in order, their
/// locals counted from `base`.
pub open spec fn exported_decls(ks: Seq<(u8, bool, Seq<char>)>, base: nat) -> Seq<(Seq<char>, nat)>
    decreases ks.len(),
{
    if ks.len() == 0 {
        Seq::empty()
    } else if ks.last().0 != 0 && ks.last().1 {
        exported_decls(ks.drop_last(), base).push((ks.last().2, base + decl_count(ks.drop_last())))
    } else {
        exported_decls(ks.drop_last(), base)
    }
}

/// The names of the locals `ls`.
pub open spec fn local_names(ls: Seq<LocalDef>) -> Seq<Seq<char>> {
    ls.map_values(|l: LocalDef| l.name@)
}

/// The exported locals of `p`: the name and the index of each, as `exports`
/// and `exports_rev` both list them.
pub open spec fn export_list(p: Parser) -> Seq<(Seq<char>, nat)> {
    p.exports_rev@.map_values(|e: (Ident, u32)| (e.0@, e.1 as nat))
}

/// `new` declares the locals of `old`, then those the items `ks` declare,
/// and exports what `old` exports, then what the items export.
pub open spec fn decls_read(old: Parser, new: Parser, ks: Seq<(u8, bool, Seq<char>)>) -> bool {
    &&& local_names(new.locals@) == local_names(old.locals@) + declared_names(ks)
    &&& export_list(new) == export_list(old) + exported_decls(ks, old.locals@.len())
    &&& new.exports@.map_values(|e: u32| e as nat) == old.exports@.map_values(|e: u32| e as nat)
        + exported_decls(ks, old.locals@.len()).map_values(|d: (Seq<char>, nat)| d.1)
}

/// `new` is `old` with the items of `ks` appended, each of its kind, the
/// locals they declare counted from `base`.
pub open spec fn items_read(old: Seq<Ast>, new: Seq<Ast>, ks: Seq<(u8, bool, Seq<char>)>, base: nat) -> bool {
    &&& new.len() == old.len() + ks.len()
    &&& forall|j: int|
        0 <= j < ks.len() ==> item_matches(
            ks[j].0,
            ks[j].1,
            ks[j].2,
            base + decl_count(ks.take(j)),
            #[trigger] new[old.len() + j],
        )
}

/// Appending one item of the next kind reads one item more.
pub proof fn lemma_items_read_push(
    o: Seq<Ast>,
    a: Seq<Ast>,
    b: Seq<Ast>,
    done: Seq<(u8, bool, Seq<char>)>,
    k: (u8, bool, Seq<char>),
    base: nat,
)
    requires
        items_read(o, a, done, base),
        prefix(a, b),
        b.len() == a.len() + 1,
        item_matches(k.0, k.1, k.2, base + decl_count(done), b.last()),
    ensures
        items_read(o, b, done.push(k), base),
{
    assert forall|j: int| 0 <= j < done.push(k).len() implies item_matches(
        done.push(k)[j].0,
        done.push(k)[j].1,
        done.push(k)[j].2,
        base + decl_count(done.push(k).take(j)),
        #[trigger] b[o.len() + j],
    ) by {
        if j < done.len() {
            assert(b[o.len() + j] == a[o.len() + j]);
            assert(done.push(k).take(j) =~= done.take(j));
        } else {
            assert(done.push(k).take(j) =~= done);
        }
    }
}

/// Reading one item more, with what it declares, reads the declarations
/// of one item more.
pub proof fn lemma_decls_read_push(o: Parser, a: Parser, b: Parser, done: Seq<(u8, bool, Seq<char>)>, k: (u8, bool, Seq<char>))
    requires
        decls_read(o, a, done),
        a.locals@.len() == o.locals@.len() + decl_count(done),
        k.0 == 0 ==> declares_none(a, b),
        k.0 != 0 ==> declares_one(a, b, k.2, k.1),
    ensures
        decls_read(o, b, done.push(k)),
        b.locals@.len() == o.locals@.len() + decl_count(done.push(k)),
{
    let d = done.push(k);
    assert(d.drop_last() =~= done);
    if k.0 != 0 {
        assert(local_names(b.locals@) =~= local_names(a.locals@).push(k.2));
        assert(local_names(b.locals@) =~= local_names(o.locals@) + declared_names(d));
        if k.1 {
            assert(export_list(b) =~= export_list(a).push((k.2, a.locals@.len() as nat)));
            assert(export_list(b) =~= export_list(o) + exported_decls(d, o.locals@.len()));
            assert(b.exports@.map_values(|e: u32| e as nat) =~= a.exports@.map_values(|e: u32| e as nat).push(
                a.locals@.len() as nat,
            ));
            assert(exported_decls(d, o.locals@.len()).map_values(|x: (Seq<char>, nat)| x.1) =~= exported_decls(
                done,
                o.locals@.len(),
            ).map_values(|x: (Seq<char>, nat)| x.1).push(a.locals@.len() as nat));
        } else {
            assert(exported_decls(d, o.locals@.len()) == exported_decls(done, o.locals@.len()));
        }
    } else {
        assert(declared_names(d) == declared_names(done));
        assert(exported_decls(d, o.locals@.len()) == exported_decls(done, o.locals@.len()));
    }
}

/// The items `ks` and one more declare no more locals than there are
/// items.
pub proof fn lemma_decl_count_push(ks: Seq<(u8, bool, Seq<char>)>, k: (u8, bool, Seq<char>))
    requires
        decl_count(ks) <= ks.len(),
    ensures
        decl_count(ks.push(k)) <= ks.push(k).len(),
        decl_count(ks.push(k)) == decl_count(ks) + if k.0 != 0 {
            1nat
        } else {
            0nat
        },
{
    assert(ks.push(k).drop_last() =~= ks);
}

/// `new` declares one local more than `old`, named `name`, and exports it
/// when `is_pub`; nothing else.
pub open spec fn declares_one(old: Parser, new: Parser, name: Seq<char>, is_pub: bool) -> bool {
    &&& old.locals@.len() < u32::MAX
    &&& new.locals@.len() == old.locals@.len() + 1
    &&& new.locals@.drop_last() == old.locals@
    &&& new.locals@.last().name@ == name
    &&& is_pub ==> new.exports@ == old.exports@.push(old.locals@.len() as u32) && new.exports_rev@.len()
        == old.exports_rev@.len() + 1 && new.exports_rev@.drop_last() == old.exports_rev@
        && new.exports_rev@.last().0@ == name && new.exports_rev@.last().1 == old.locals@.len()
    &&& !is_pub ==> new.exports == old.exports && new.exports_rev == old.exports_rev
}

/// `new` declares and exports what `old` does.
pub open spec fn declares_none(old: Parser, new: Parser) -> bool {
    &&& new.locals == old.locals
    &&& new.exports == old.exports
    &&& new.exports_rev == old.exports_rev
}

/// A parser `n` tokens on sees the same simple item as the first `n`
/// tokens ahead.
pub proof fn lemma_item_at_shift(a: Parser, b: Parser, n: nat, is_pub: bool)
    requires
        advanced(a, b, n),
    ensures
        item_at(b, 0, is_pub) == item_at(a, n, is_pub),
{
    lemma_advanced_ahead(a, b, n);
    assert(b.ahead(0) == a.ahead(n));
    assert(b.ahead(1) == a.ahead(n + 1));
    assert(b.ahead(2) == a.ahead(n + 2));
    assert(b.ahead(3) == a.ahead(n + 3));
    assert(b.ahead(4) == a.ahead(n + 4));
    assert(b.ahead(5) == a.ahead(n + 5));
}

/// What a list of simple items starts with: its end, or an item (maybe
/// after `pub`), so that the list is not empty; never `@`.
pub proof fn lemma_items_head(p: Parser, k: nat, end: u16, fuel: nat)
    requires
        items_at(p, k, end, fuel) is Some,
        end == TT_RBRACE || end == TT_EOF,
    ensures
        p.ahead(k) != TT_AT,
        p.ahead(k) == end || items_at(p, k, end, fuel).unwrap().len() > 0,
        p.ahead(k) == end ==> items_at(p, k, end, fuel).unwrap().len() == 0,
        p.ahead(k) != end ==> fuel > 0,
        p.ahead(k) != end ==> p.ahead(k) != TT_PUB ==> item_at(p, k, false) is Some,
        p.ahead(k) != end ==> p.ahead(k) == TT_PUB ==> item_at(p, k + 1, true) is Some,
        p.ahead(k) != end ==> p.ahead(k) == TT_PUB || p.ahead(k) == TT_IDENT || p.ahead(k) == TT_CONSTINT
            || p.ahead(k) == TT_LET || p.ahead(k) == TT_VAR || p.ahead(k) == TT_FUN,
{
}

/// After reading a keyword the parser sees ahead what the first saw one
/// token further.
pub proof fn lemma_keyword_shift(a: Parser, b: Parser)
    requires
        lexed(a, b),
    ensures
        b.tt == a.ahead(1),
        b.ahead(1) == a.ahead(2),
        b.ahead(2) == a.ahead(3),
        b.ahead(3) == a.ahead(4),
        b.ahead(4) == a.ahead(5),
        b.ahead(5) == a.ahead(6),
        b.ahead(6) == a.ahead(7),
        b.locals == a.locals,
{
    lemma_lexed_advanced(a, b, a.token_ident@);
    lemma_advanced_ahead(a, b, 1);
    assert(b.ahead(0) == a.ahead(1));
    assert(b.ahead(1) == a.ahead(1 + 1));
    assert(b.ahead(2) == a.ahead(1 + 2));
    assert(b.ahead(3) == a.ahead(1 + 3));
    assert(b.ahead(4) == a.ahead(1 + 4));
    assert(b.ahead(5) == a.ahead(1 + 5));
    assert(b.ahead(6) == a.ahead(1 + 6));
}

/// More fuel finds the same items.
pub proof fn lemma_items_fuel(p: Parser, k: nat, end: u16, f1: nat, f2: nat)
    requires
        items_at(p, k, end, f1) is Some,
        f1 <= f2,
    ensures
        items_at(p, k, end, f2) == items_at(p, k, end, f1),
    decreases f1,
{
    if p.ahead(k) != end {
        let is_pub = p.ahead(k) == TT_PUB;
        let s: nat = if is_pub {
            k + 1
        } else {
            k
        };
        let (w, kind) = item_at(p, s, is_pub).unwrap();
        if p.ahead(s + w) == TT_SEMICOLON && p.ahead(s + w) != end {
            lemma_items_fuel(p, s + w + 1, end, (f1 - 1) as nat, (f2 - 1) as nat);
        }
    }
}

/// A parser `n` tokens on sees the same simple items as the first `n`
/// tokens further.
pub proof fn lemma_items_shift(a: Parser, b: Parser, n: nat, k: nat, end: u16, fuel: nat)
    requires
        advanced(a, b, n),
    ensures
        items_at(b, k, end, fuel) == items_at(a, n + k, end, fuel),
    decreases fuel,
{
    lemma_advanced_ahead(a, b, n);
    assert(b.ahead(k) == a.ahead(n + k));
    if b.ahead(k) != end && fuel > 0 {
        let is_pub = b.ahead(k) == TT_PUB;
        let s: nat = if is_pub {
            k + 1
        } else {
            k
        };
        let sa: nat = if is_pub {
            n + k + 1
        } else {
            n + k
        };
        assert(sa == n + s);
        assert(b.ahead(s) == a.ahead(n + s));
        assert(b.ahead(s + 1) == a.ahead(n + s + 1));
        assert(b.ahead(s + 2) == a.ahead(n + s + 2));
        assert(b.ahead(s + 3) == a.ahead(n + s + 3));
        assert(b.ahead(s + 4) == a.ahead(n + s + 4));
        assert(b.ahead(s + 5) == a.ahead(n + s + 5));
        assert(item_at(b, s, is_pub) == item_at(a, sa, is_pub));
        lemma_advanced_lexeme(a, b, n, s + 1);
        assert(name_at(b, s + 1) == name_at(a, sa + 1));
        match item_at(b, s, is_pub) {
            Some((w, kind)) => {
                assert(b.ahead(s + w) == a.ahead(sa + w));
                lemma_items_shift(a, b, n, s + w + 1, end, (fuel - 1) as nat);
                assert(n + (s + w + 1) == sa + w + 1);
            },
            None => {},
        }
    }
}

/// `name {}` or `name() {}`, while a local can still be declared.
pub open spec fn simple_fn(p: Parser) -> bool {
    &&& p.tt == TT_IDENT || p.tt == TT_OPIDENT
    &&& (p.ahead(1) == TT_LBRACE && p.ahead(2) == TT_RBRACE) || (p.ahead(1) == TT_LPAREN && p.ahead(2)
        == TT_RPAREN && p.ahead(3) == TT_LBRACE && p.ahead(4) == TT_RBRACE)
    &&& p.locals@.len() < u32::MAX
}

/// How many tokens `simple_fn` reads.
pub open spec fn fn_width(p: Parser) -> nat {
    if p.ahead(1) == TT_LBRACE {
        3
    } else {
        5
    }
}

/// A condition that is a name or an integer, then `{` `}`.
pub open spec fn simple_block(p: Parser) -> bool {
    &&& p.tt == TT_IDENT || p.tt == TT_CONSTINT
    &&& p.ahead(1) == TT_LBRACE
    &&& p.ahead(2) == TT_RBRACE
}

/// `name in a..b {}` where `a` and `b` are names or integers, while a
/// local can still be declared.
pub open spec fn simple_for(p: Parser) -> bool {
    &&& p.tt == TT_IDENT || p.tt == TT_OPIDENT
    &&& p.ahead(1) == TT_IN
    &&& p.ahead(2) == TT_IDENT || p.ahead(2) == TT_CONSTINT
    &&& p.ahead(3) == TT_DOUBLEDOT
    &&& p.ahead(4) == TT_IDENT || p.ahead(4) == TT_CONSTINT
    &&& p.ahead(5) == TT_LBRACE
    &&& p.ahead(6) == TT_RBRACE
    &&& p.locals@.len() < u32::MAX
}

/// The keywords that start an item other than an expression.
pub open spec fn item_start(tt: u16) -> bool {
    tt == TT_FUN || tt == TT_TYPE || tt == TT_LET || tt == TT_VAR || tt == TT_USE
}

impl Parser {
    /// Reads an attribute after `@`: its name gives the attribute, or, for
    /// `language(glsl)`, sets the module's language (then `None`).
    fn rattr(&mut self) -> (r: ParseResult<Option<Attr>>)
        requires
            old(self).wf(),
            old(self).decls_ok(),
        ensures
            step(*old(self), *final(self)),
            !(old(self).tt == TT_IDENT || old(self).tt == TT_OPIDENT) ==> r is Err,
            (old(self).tt == TT_IDENT || old(self).tt == TT_OPIDENT) && old(self).token_ident@
                != "language"@ ==> match attr_by_name(old(self).token_ident@) {
                Some(a) => r matches Ok(Some(b)) && b == a,
                None => r is Err,
            },
            r matches Ok(None) ==> old(self).token_ident@ == "language"@ && final(self).language
                == Language::Glsl,
            r matches Ok(Some(_)) ==> final(self).language == old(self).language,
    {
        let attr_name = self.check_ident()?;
        if text_is(&attr_name, "language") {
            self.check(TT_LPAREN)?;
            let lang_name = self.check_ident()?;
            if text_is(&lang_name, "glsl") {
                self.language = Language::Glsl;
            } else {
                return Err(ParseError(self.span(), "unknown language"));
            }
            self.check(TT_RPAREN)?;
            self.test(TT_SEMICOLON);
            Ok(None)
        } else if text_is(&attr_name, "attribute") {
            Ok(Some(Attr::Attribute))
        } else if text_is(&attr_name, "varying") {
            Ok(Some(Attr::Varying))
        } else if text_is(&attr_name, "uniform") {
            Ok(Some(Attr::Uniform))
        } else if text_is(&attr_name, "binary") {
            Ok(Some(Attr::Binary))
        } else if text_is(&attr_name, "inline") {
            Ok(Some(Attr::Inline))
        } else if text_is(&attr_name, "debug") {
            Ok(Some(Attr::Debug))
        } else {
            Err(ParseError(self.span(), "unknown attribute"))
        }
    }

    /// Reads a function item after `fn`: name, parameters, return type
    /// and body, declaring the function as a local (exported when `is_pub`).
    #[verifier::rlimit(100)]
    #[verifier::spinoff_prover]
    fn rfn_item(&mut self, lambda: &mut AstLambda, is_pub: bool) -> (r: ParseResult<()>)
        requires
            old(self).wf(),
            old(self).decls_ok(),
            old(self).ok_lambda(*old(lambda)),
        ensures
            step(*old(self), *final(self)),
            r is Ok ==> final(self).ok_lambda(*final(lambda)),
            final(lambda).params == old(lambda).params,
            final(lambda).param_locals == old(lambda).param_locals,
            final(lambda).return_type == old(lambda).return_type,
            prefix(old(lambda).expr@, final(lambda).expr@),
            r is Ok ==> final(lambda).expr@.len() == old(lambda).expr@.len() + 1 && (final(lambda).expr@.last().data matches AstData::FnLocal {
                name,
                local_index,
                exported,
                ..
            } && exported == is_pub && local_index + 1 == final(self).locals@.len()
                && final(self).locals@[local_index as int].name@ == name@
                && (is_pub ==> final(self).exports@.len() > 0 && final(self).exports@.last() == local_index)),
            simple_fn(*old(self)) ==> r is Ok && advanced(*old(self), *final(self), fn_width(*old(self)))
                && final(self).locals@.len() == old(self).locals@.len() + 1,
            simple_fn(*old(self)) ==> item_matches(
                2,
                is_pub,
                old(self).token_ident@,
                old(self).locals@.len(),
                final(lambda).expr@.last(),
            ) && declares_one(*old(self), *final(self), old(self).token_ident@, is_pub),
        decreases old(self).measure(), 7nat,
    {
        let name = self.check_ident()?;
        let ghost s1 = *self;
        proof {
            lemma_lexed_advanced(*old(self), s1, Seq::empty());
            lemma_advanced_ahead(*old(self), s1, 1);
        }
        let mut params: Vec<ParamDef> = Vec::new();
        let mut locals: Vec<u32> = Vec::new();
        let ghost mut pos: nat = 1;
        if self.test(TT_LPAREN) {
            let ghost t2 = *self;
            proof {
                lemma_lexed_advanced(s1, t2, s1.token_ident@);
                lemma_advanced_trans(*old(self), s1, t2, 1, 1);
                lemma_advanced_ahead(*old(self), t2, 2);
                assert(t2.ahead(0) == old(self).ahead(2));
            }
            self.rparameters(&mut params, &mut locals)?;
            let ghost t3 = *self;
            self.check(TT_RPAREN)?;
            proof {
                lemma_lexed_advanced(t3, *self, t3.token_ident@);
                if simple_fn(*old(self)) {
                    assert(advanced(*old(self), t3, 2));
                    lemma_advanced_trans(*old(self), t3, *self, 2, 1);
                    pos = 3;
                }
            }
        }
        let ty = if self.test(TT_COLON) {
            self.rtype()?
        } else {
            AstType::NoType
        };
        let ghost s2 = *self;
        proof {
            if simple_fn(*old(self)) {
                lemma_advanced_ahead(*old(self), s2, pos);
                assert(s2.ahead(0) == old(self).ahead(pos));
                assert(s2.ahead(1) == old(self).ahead(pos + 1));
            }
        }
        self.check(TT_LBRACE)?;
        proof {
            lemma_lexed_advanced(s2, *self, s2.token_ident@);
            if simple_fn(*old(self)) {
                lemma_advanced_trans(*old(self), s2, *self, pos, 1);
            }
        }
        let mut sublambda = self.new_lambda(params, locals, ty);
        let ghost s4 = *self;
        self.rlambda(&mut sublambda, TT_RBRACE)?;
        let ghost s5 = *self;
        self.next();
        let ghost s3 = *self;
        proof {
            lemma_lexed_advanced(s5, s3, s5.token_ident@);
            if simple_fn(*old(self)) {
                assert(s5 == s4);
                lemma_advanced_trans(*old(self), s4, s3, pos + 1, 1);
            }
        }
        let ghost s6 = *self;
        let local_index = self.new_local(name.clone(), AstType::NoType, false)?;
        let ghost s7 = *self;
        if is_pub {
            self.add_export(&name, local_index);
        }
        proof {
            lemma_ok_lambda_grows(*old(self), *self, *lambda);
            lemma_ok_lambda_grows(s3, *self, sublambda);
            if simple_fn(*old(self)) {
                assert(sublambda.params@.len() == 0);
                assert(sublambda.param_locals@.len() == 0);
                assert(sublambda.expr@.len() == 0);
                assert(sublambda.return_type == AstType::NoType);
                assert(s6.locals == old(self).locals);
                assert(s6.exports == old(self).exports);
                assert(s6.exports_rev == old(self).exports_rev);
                assert(s7.locals@.drop_last() =~= old(self).locals@);
                assert(name@ == old(self).token_ident@);
                assert(local_index == old(self).locals@.len());
                assert(self.locals@.last().name@ == old(self).token_ident@);
                if is_pub {
                    assert(self.exports_rev@.drop_last() =~= old(self).exports_rev@);
                } else {
                    assert(self.exports == old(self).exports);
                    assert(self.exports_rev == old(self).exports_rev);
                }
                assert(declares_one(*old(self), *self, old(self).token_ident@, is_pub));
            }
        }
        let a = self.ast_anyty(
            AstData::FnLocal { name, lambda: sublambda, local_index, exported: is_pub },
        );
        assert(self.ok_ast(a));
        proof {
            super::lemma_asts_push(
                lambda.expr@,
                a,
                self.locals@.len() as nat,
                self.local_types@.len() as nat,
                self.uses@.len() as nat,
            );
        }
        lambda.expr.push(a);
        proof {
            if simple_fn(*old(self)) {
                assert(lambda.expr@.last() == a);
                assert(item_matches(2, is_pub, old(self).token_ident@, old(self).locals@.len(), a));
            }
        }
        Ok(())
    }

    /// Reads declarations after `let` or `var`: `name: type = init`,
    /// separated by commas; each declares a local, exported when `is_pub`.
    #[verifier::rlimit(100)]
    #[verifier::spinoff_prover]
    fn rlet_items(&mut self, lambda: &mut AstLambda, is_mut: bool, is_pub: bool, attr: Attr) -> (r:
        ParseResult<()>)
        requires
            old(self).wf(),
            old(self).decls_ok(),
            old(self).ok_lambda(*old(lambda)),
        ensures
            step(*old(self), *final(self)),
            r is Ok ==> final(self).ok_lambda(*final(lambda)),
            final(lambda).params == old(lambda).params,
            final(lambda).param_locals == old(lambda).param_locals,
            final(lambda).return_type == old(lambda).return_type,
            prefix(old(lambda).expr@, final(lambda).expr@),
            r is Ok ==> final(lambda).expr@.len() > old(lambda).expr@.len(),
            !(old(self).tt == TT_IDENT || old(self).tt == TT_OPIDENT) ==> r is Err,
            simple_let(*old(self)) ==> r is Ok && advanced(*old(self), *final(self), 1)
                && final(lambda).expr@.len() == old(lambda).expr@.len() + 1
                && final(lambda).expr@.last().data is LetLocal
                && final(self).locals@.len() == old(self).locals@.len() + 1,
            simple_let(*old(self)) ==> item_matches(
                1,
                is_pub,
                old(self).token_ident@,
                old(self).locals@.len(),
                final(lambda).expr@.last(),
            ) && declares_one(*old(self), *final(self), old(self).token_ident@, is_pub),
        decreases old(self).measure(), 7nat,
    {
        let ghost mut first = true;
        loop
            invariant_except_break
                self.wf(),
                self.decls_ok(),
                extends(*old(self), *self),
                self.measure() <= old(self).measure(),
                self.ok_lambda(*lambda),
                lambda.params == old(lambda).params,
                lambda.param_locals == old(lambda).param_locals,
                lambda.return_type == old(lambda).return_type,
                prefix(old(lambda).expr@, lambda.expr@),
                first ==> *self == *old(self) && *lambda == *old(lambda),
                !first ==> lambda.expr@.len() > old(lambda).expr@.len() && (old(self).tt == TT_IDENT
                    || old(self).tt == TT_OPIDENT),
                simple_let(*old(self)) ==> first,
            ensures
                self.wf(),
                self.decls_ok(),
                extends(*old(self), *self),
                self.measure() <= old(self).measure(),
                self.ok_lambda(*lambda),
                lambda.params == old(lambda).params,
                lambda.param_locals == old(lambda).param_locals,
                lambda.return_type == old(lambda).return_type,
                prefix(old(lambda).expr@, lambda.expr@),
                lambda.expr@.len() > old(lambda).expr@.len(),
                old(self).tt == TT_IDENT || old(self).tt == TT_OPIDENT,
                simple_let(*old(self)) ==> advanced(*old(self), *self, 1) && lambda.expr@.len() == old(
                    lambda,
                ).expr@.len() + 1 && lambda.expr@.last().data is LetLocal && self.locals@.len() == old(
                    self,
                ).locals@.len() + 1,
                simple_let(*old(self)) ==> item_matches(
                    1,
                    is_pub,
                    old(self).token_ident@,
                    old(self).locals@.len(),
                    lambda.expr@.last(),
                ) && declares_one(*old(self), *self, old(self).token_ident@, is_pub),
            decreases self.measure(),
        {
            let ghost s0 = *self;
            let ghost first0 = first;
            let name = self.check_ident()?;
            proof {
                lemma_lexed_advanced(s0, *self, Seq::empty());
            }
            let ty = if self.test(TT_COLON) {
                self.rtype()?
            } else {
                AstType::Any
            };
            let init = if self.test(TT_EQUAL) {
                Some(Box::new(self.rexpr()?))
            } else {
                None
            };
            let ghost s1 = *self;
            let local_index = self.new_local(name.clone(), ty.copy(), is_mut)?;
            let ghost s7 = *self;
            if is_pub {
                self.add_export(&name, local_index);
            }
            proof {
                if simple_let(*old(self)) {
                    assert(init is None);
                    assert(s1.locals == old(self).locals);
                    assert(s1.exports == old(self).exports);
                    assert(s1.exports_rev == old(self).exports_rev);
                    assert(s7.locals@.drop_last() =~= old(self).locals@);
                    assert(name@ == old(self).token_ident@);
                    assert(local_index == old(self).locals@.len());
                    assert(self.locals@.last().name@ == old(self).token_ident@);
                    if is_pub {
                        assert(self.exports_rev@.drop_last() =~= old(self).exports_rev@);
                    } else {
                        assert(self.exports == old(self).exports);
                        assert(self.exports_rev == old(self).exports_rev);
                    }
                    assert(declares_one(*old(self), *self, old(self).token_ident@, is_pub));
                }
            }
            proof {
                if init is Some {
                    lemma_ok_grows(s1, *self, *init.unwrap());
                }
                lemma_ok_lambda_grows(s0, *self, *lambda);
            }
            let a = Ast {
                loc: self.span(),
                attr: Attr::NoAttr,
                ty: AstType::NoType,
                data: AstData::LetLocal { name, ty, init, local_index, attr },
            };
            assert(self.ok_ast(a));
            proof {
                super::lemma_asts_push(
                    lambda.expr@,
                    a,
                    self.locals@.len() as nat,
                    self.local_types@.len() as nat,
                    self.uses@.len() as nat,
                );
            }
            lambda.expr.push(a);
            proof {
                if simple_let(*old(self)) {
                    assert(lambda.expr@.last() == a);
                    assert(item_matches(1, is_pub, old(self).token_ident@, old(self).locals@.len(), a));
                }
            }
            if !self.test(TT_COMMA) {
                break;
            }
            proof {
                first = false;
            }
        }
        Ok(())
    }

    /// Reads a `use` item after the keyword: a path and an optional
    /// `as name`.
    fn ruse_item(&mut self, lambda: &mut AstLambda, attr: Attr) -> (r: ParseResult<()>)
        requires
            old(self).wf(),
            old(self).decls_ok(),
            old(self).ok_lambda(*old(lambda)),
        ensures
            step(*old(self), *final(self)),
            r is Ok ==> final(self).ok_lambda(*final(lambda)),
            final(lambda).params == old(lambda).params,
            final(lambda).param_locals == old(lambda).param_locals,
            final(lambda).return_type == old(lambda).return_type,
            prefix(old(lambda).expr@, final(lambda).expr@),
            r is Ok ==> final(lambda).expr@.len() == old(lambda).expr@.len() + 1 && (final(lambda).expr@.last().data matches AstData::Use {
                rel_index,
                ..
            } && rel_index == old(self).uses@.len() && final(self).uses@.len() == old(self).uses@.len() + 1
                && final(self).uses@.last().0 == attr && final(self).uses@.last().1@ == old(self).token_ident@),
            r is Ok <==> ((old(self).tt == TT_CONSTSTR || old(self).tt == TT_IDENT || old(self).tt
                == TT_OPIDENT) && old(self).uses@.len() < 0xffff_ffff),
    {
        let path = self.ruse_path()?;
        let name = if self.test(TT_AS) {
            let n = self.take_ident();
            self.next();
            n
        } else {
            path.clone()
        };
        if self.uses.len() >= 0xffff_ffff {
            return Err(ParseError(self.span(), "too many declarations"));
        }
        let rel_index = self.uses.len() as u32;
        self.uses.push(Use(attr, path));
        proof {
            lemma_ok_lambda_grows(*old(self), *self, *lambda);
        }
        let a = Ast {
            loc: self.span(),
            attr: Attr::NoAttr,
            ty: AstType::NoType,
            data: AstData::Use { name, rel_index },
        };
        assert(self.ok_ast(a));
        proof {
            super::lemma_asts_push(
                lambda.expr@,
                a,
                self.locals@.len() as nat,
                self.local_types@.len() as nat,
                self.uses@.len() as nat,
            );
        }
        lambda.expr.push(a);
        Ok(())
    }

    /// Reads one item, after its attribute and `pub`.
    fn ritem(&mut self, lambda: &mut AstLambda, attr: Attr, is_pub: bool, end_token: Tt) -> (r:
        ParseResult<()>)
        requires
            old(self).wf(),
            old(self).decls_ok(),
            old(self).ok_lambda(*old(lambda)),
        ensures
            step(*old(self), *final(self)),
            r is Ok ==> final(self).ok_lambda(*final(lambda)),
            final(lambda).params == old(lambda).params,
            final(lambda).param_locals == old(lambda).param_locals,
            final(lambda).return_type == old(lambda).return_type,
            prefix(old(lambda).expr@, final(lambda).expr@),
            (old(self).tt == end_token || old(self).tt == TT_EOF) && !item_start(old(self).tt) ==> r is Ok
                && *final(self) == *old(self) && *final(lambda) == *old(lambda),
            !(old(self).tt == end_token || old(self).tt == TT_EOF) && !item_start(old(self).tt) ==> (
            is_pub ==> r is Err) && (r is Ok ==> final(lambda).expr@.len() == old(lambda).expr@.len()
                + 1 && final(lambda).expr@.last().attr == attr),
            item_start(old(self).tt) && r is Ok ==> final(lambda).expr@.len() > old(lambda).expr@.len(),
            item_at(*old(self), 0, is_pub) matches Some((w, kind)) ==> (old(self).locals@.len() < u32::MAX
                && old(self).tt != end_token ==> r is Ok && advanced(*old(self), *final(self), w)
                && final(lambda).expr@.len() == old(lambda).expr@.len() + 1
                && item_matches(kind, is_pub, name_at(*old(self), 1), old(self).locals@.len(), final(lambda).expr@.last())
                && (kind == 0 ==> declares_none(*old(self), *final(self)))
                && (kind != 0 ==> declares_one(*old(self), *final(self), name_at(*old(self), 1), is_pub))),
        decreases old(self).measure(), 8nat,
    {
        if self.test(TT_FUN) {
            let ghost s1 = *self;
            proof {
                lemma_lexed_advanced(*old(self), s1, old(self).token_ident@);
                lemma_advanced_ahead(*old(self), s1, 1);
                assert(s1.ahead(0) == old(self).ahead(1));
                assert(s1.ahead(1) == old(self).ahead(2));
                assert(s1.ahead(2) == old(self).ahead(3));
                assert(s1.ahead(3) == old(self).ahead(4));
                assert(s1.ahead(4) == old(self).ahead(5));
            }
            let r = self.rfn_item(lambda, is_pub);
            proof {
                if simple_fn(s1) {
                    lemma_advanced_trans(*old(self), s1, *self, 1, fn_width(s1));
                    lemma_lexed_name(*old(self), s1, old(self).token_ident@);
                }
            }
            r
        } else if self.tt == TT_TYPE {
            self.next();
            let name = self.check_ident()?;
            self.check(TT_EQUAL)?;
            let ty = self.rtype()?;
            let index = self.new_local_type(name, ty)?;
            proof {
                lemma_ok_lambda_grows(*old(self), *self, *lambda);
            }
            let a = Ast {
                loc: self.span(),
                attr: Attr::NoAttr,
                ty: AstType::NoType,
                data: AstData::TypeDef { index },
            };
            assert(self.ok_ast(a));
            proof {
                super::lemma_asts_push(
                    lambda.expr@,
                    a,
                    self.locals@.len() as nat,
                    self.local_types@.len() as nat,
                    self.uses@.len() as nat,
                );
            }
            lambda.expr.push(a);
            Ok(())
        } else if self.tt == TT_LET || self.tt == TT_VAR {
            let is_mut = self.tt == TT_VAR;
            self.next();
            let ghost s1 = *self;
            proof {
                lemma_lexed_advanced(*old(self), s1, old(self).token_ident@);
                lemma_advanced_ahead(*old(self), s1, 1);
                assert(s1.ahead(0) == old(self).ahead(1));
                assert(s1.ahead(1) == old(self).ahead(2));
            }
            let r = self.rlet_items(lambda, is_mut, is_pub, attr);
            proof {
                if simple_let(s1) {
                    lemma_advanced_trans(*old(self), s1, *self, 1, 1);
                    lemma_lexed_name(*old(self), s1, old(self).token_ident@);
                }
            }
            r
        } else if self.test(TT_USE) {
            self.ruse_item(lambda, attr)
        } else if self.tt != TT_EOF && self.tt != end_token {
            if is_pub {
                return Err(ParseError(self.span(), "spurious 'pub'"));
            }
            let mut expr = self.rexpr()?;
            expr.attr = attr;
            proof {
                lemma_ok_lambda_grows(*old(self), *self, *lambda);
                super::lemma_asts_push(
                    lambda.expr@,
                    expr,
                    self.locals@.len() as nat,
                    self.local_types@.len() as nat,
                    self.uses@.len() as nat,
                );
            }
            lambda.expr.push(expr);
            Ok(())
        } else {
            Ok(())
        }
    }

    /// Reads items up to `end_token`, appending them to `lambda`: items are
    /// separated by `;` and each may have an `@attribute` and `pub`; they
    /// are functions `fn`, named types `type`, declarations `let`/`var`,
    /// `use` and expressions. `@language(glsl)` sets the module's language.
    /// It stops at `end_token` without reading it.
    pub fn rlambda(&mut self, lambda: &mut AstLambda, end_token: Tt) -> (r: ParseResult<()>)
        requires
            old(self).wf(),
            old(self).decls_ok(),
            old(self).ok_lambda(*old(lambda)),
        ensures
            step(*old(self), *final(self)),
            r is Ok ==> final(self).ok_lambda(*final(lambda)),
            final(lambda).params == old(lambda).params,
            final(lambda).param_locals == old(lambda).param_locals,
            final(lambda).return_type == old(lambda).return_type,
            prefix(old(lambda).expr@, final(lambda).expr@),
            r is Ok ==> final(self).tt == end_token,
            old(self).tt == end_token && (end_token == TT_RBRACE || end_token == TT_EOF) ==> r is Ok
                && *final(self) == *old(self) && *final(lambda) == *old(lambda),
            forall|fuel: nat|
                #[trigger] items_at(*old(self), 0, end_token, fuel) is Some && (end_token == TT_RBRACE
                    || end_token == TT_EOF) && old(self).locals@.len() + items_at(*old(self), 0, end_token, fuel).unwrap().len()
                    < u32::MAX ==> r is Ok && items_read(
                    old(lambda).expr@,
                    final(lambda).expr@,
                    items_at(*old(self), 0, end_token, fuel).unwrap(),
                    old(self).locals@.len(),
                ) && decls_read(*old(self), *final(self), items_at(*old(self), 0, end_token, fuel).unwrap()),
        decreases old(self).measure(), 9nat,
    {
        let ghost good: bool = (end_token == TT_RBRACE || end_token == TT_EOF) && exists|f: nat|
            #[trigger] items_at(*old(self), 0, end_token, f) is Some && old(self).locals@.len()
                + items_at(*old(self), 0, end_token, f).unwrap().len() < u32::MAX;
        let ghost f0: nat = choose|f: nat|
            #[trigger] items_at(*old(self), 0, end_token, f) is Some && old(self).locals@.len()
                + items_at(*old(self), 0, end_token, f).unwrap().len() < u32::MAX;
        let ghost ks0: Seq<(u8, bool, Seq<char>)> = if good {
            items_at(*old(self), 0, end_token, f0).unwrap()
        } else {
            Seq::empty()
        };
        let ghost mut pos: nat = 0;
        let ghost mut m: nat = f0;
        let ghost mut done: Seq<(u8, bool, Seq<char>)> = Seq::empty();
        assert forall|fuel: nat| #[trigger] items_at(*old(self), 0, end_token, fuel) is Some && (end_token
            == TT_RBRACE || end_token == TT_EOF) && old(self).locals@.len() + items_at(*old(self), 0, end_token, fuel).unwrap().len()
            < u32::MAX implies good by {}
        proof {
            if good {
                reveal_with_fuel(tok_at, 1);
                assert(advanced(*old(self), *old(self), 0));
                assert(ks0 =~= done + items_at(*old(self), pos, end_token, m).unwrap());
                assert(local_names(old(self).locals@) + declared_names(done) =~= local_names(old(self).locals@));
                assert(export_list(*old(self)) + exported_decls(done, old(self).locals@.len()) =~= export_list(*old(self)));
                assert(old(self).exports@.map_values(|e: u32| e as nat) + exported_decls(done, old(self).locals@.len()).map_values(
                    |d: (Seq<char>, nat)| d.1,
                ) =~= old(self).exports@.map_values(|e: u32| e as nat));
            }
        }
        loop
            invariant
                self.wf(),
                self.decls_ok(),
                extends(*old(self), *self),
                self.measure() <= old(self).measure(),
                self.ok_lambda(*lambda),
                lambda.params == old(lambda).params,
                lambda.param_locals == old(lambda).param_locals,
                lambda.return_type == old(lambda).return_type,
                prefix(old(lambda).expr@, lambda.expr@),
                old(self).tt == end_token && (end_token == TT_RBRACE || end_token == TT_EOF)
                    ==> *self == *old(self) && *lambda == *old(lambda),
                good ==> end_token == TT_RBRACE || end_token == TT_EOF,
                good ==> old(self).locals@.len() + ks0.len() < u32::MAX,
                good ==> advanced(*old(self), *self, pos),
                good ==> items_at(*old(self), pos, end_token, m) is Some,
                good ==> ks0 == done + items_at(*old(self), pos, end_token, m).unwrap(),
                good ==> items_read(old(lambda).expr@, lambda.expr@, done, old(self).locals@.len()),
                good ==> decls_read(*old(self), *self, done),
                good ==> self.locals@.len() == old(self).locals@.len() + decl_count(done),
                good ==> decl_count(done) <= done.len(),
                forall|fuel: nat| #[trigger] items_at(*old(self), 0, end_token, fuel) is Some && (end_token
                    == TT_RBRACE || end_token == TT_EOF) && old(self).locals@.len() + items_at(*old(self), 0, end_token, fuel).unwrap().len()
                    < u32::MAX ==> good,
            ensures
                self.wf(),
                self.decls_ok(),
                extends(*old(self), *self),
                self.measure() <= old(self).measure(),
                self.ok_lambda(*lambda),
                lambda.params == old(lambda).params,
                lambda.param_locals == old(lambda).param_locals,
                lambda.return_type == old(lambda).return_type,
                prefix(old(lambda).expr@, lambda.expr@),
                old(self).tt == end_token && (end_token == TT_RBRACE || end_token == TT_EOF)
                    ==> *self == *old(self) && *lambda == *old(lambda),
                good ==> self.tt == end_token && items_read(old(lambda).expr@, lambda.expr@, ks0, old(self).locals@.len())
                    && decls_read(*old(self), *self, ks0),
            decreases self.measure(),
        {
            let ghost s0 = *self;
            let ghost lam0 = *lambda;
            proof {
                if good {
                    lemma_items_head(*old(self), pos, end_token, m);
                    assert(s0.tt == old(self).ahead(pos));
                }
            }
            let mut attr = Attr::NoAttr;
            if self.test(TT_AT) {
                let a = self.rattr()?;
                proof {
                    lemma_ok_lambda_grows(s0, *self, *lambda);
                }
                match a {
                    Some(a) => {
                        attr = a;
                    },
                    None => {
                        continue ;
                    },
                }
            }
            let ghost s_pub = *self;
            let is_pub = self.test(TT_PUB);
            let ghost s1 = *self;
            let ghost at_end = good && old(self).ahead(pos) == end_token;
            let ghost spos: nat = if is_pub {
                pos + 1
            } else {
                pos
            };
            proof {
                if good {
                    assert(s0.tt == old(self).ahead(pos));
                    assert(s_pub == s0);
                    if is_pub {
                        lemma_lexed_advanced(s_pub, s1, s_pub.token_ident@);
                        lemma_advanced_trans(*old(self), s_pub, s1, pos, 1);
                    }
                    if !at_end {
                        lemma_item_at_shift(*old(self), s1, spos, is_pub);
                    }
                }
            }
            self.ritem(lambda, attr, is_pub, end_token)?;
            let ghost s2 = *self;
            proof {
                if good && !at_end {
                    let (w, kind) = item_at(*old(self), spos, is_pub).unwrap();
                    let k = (kind, is_pub, name_at(*old(self), spos + 1));
                    lemma_advanced_trans(*old(self), s1, s2, spos, w);
                    lemma_advanced_lexeme(*old(self), s1, spos, 1);
                    assert(name_at(s1, 1) == k.2);
                    assert(s1.locals == s0.locals && s1.exports == s0.exports && s1.exports_rev == s0.exports_rev);
                    lemma_items_read_push(old(lambda).expr@, lam0.expr@, lambda.expr@, done, k, old(self).locals@.len());
                    lemma_decls_read_push(*old(self), s1, s2, done, k);
                    lemma_decl_count_push(done, k);
                }
            }
            if !self.test(TT_SEMICOLON) {
                proof {
                    if good && !at_end {
                        let (w, kind) = item_at(*old(self), spos, is_pub).unwrap();
                        done = done.push((kind, is_pub, name_at(*old(self), spos + 1)));
                        pos = spos + w;
                        assert(old(self).ahead(pos) == end_token);
                        assert(ks0 =~= done);
                    }
                    if at_end {
                        assert(items_at(*old(self), pos, end_token, m).unwrap().len() == 0);
                        assert(ks0 =~= done);
                    }
                }
                break;
            }
            proof {
                if good {
                    let (w, kind) = item_at(*old(self), spos, is_pub).unwrap();
                    lemma_lexed_advanced(s2, *self, s2.token_ident@);
                    lemma_advanced_trans(*old(self), s2, *self, spos + w, 1);
                    let rest = items_at(*old(self), (spos + w + 1) as nat, end_token, (m - 1) as nat).unwrap();
                    done = done.push((kind, is_pub, name_at(*old(self), spos + 1)));
                    pos = spos + w + 1;
                    m = (m - 1) as nat;
                    assert(ks0 =~= done + rest);
                }
            }
        }
        self.peek_check(end_token)?;
        proof {
            assert forall|fuel: nat| #[trigger] items_at(*old(self), 0, end_token, fuel) is Some && (end_token
                == TT_RBRACE || end_token == TT_EOF) && old(self).locals@.len() + items_at(*old(self), 0, end_token, fuel).unwrap().len() < u32::MAX
                implies items_read(old(lambda).expr@, lambda.expr@, items_at(*old(self), 0, end_token, fuel).unwrap(), old(self).locals@.len())
                && decls_read(*old(self), *self, items_at(*old(self), 0, end_token, fuel).unwrap()) by {
                {
                    assert(good);
                    if fuel <= f0 {
                        lemma_items_fuel(*old(self), 0, end_token, fuel, f0);
                    } else {
                        lemma_items_fuel(*old(self), 0, end_token, f0, fuel);
                    }
                }
            }
        }
        Ok(())
    }

    /// Parses a whole module: its items up to the end of input. On an
    /// error gives back the source and the path with it.
    pub fn rlambda_module(self) -> (r: ModuleResult<Module>)
        requires
            self.wf(),
            self.decls_ok(),
        ensures
            match r {
                Ok(m) => m.src == self.src && m.path == self.path && super::module_ok(m),
                Err((src, path, _)) => src == self.src && path == self.path,
            },
            forall|fuel: nat|
                #[trigger] items_at(self, 0, TT_EOF, fuel) is Some && self.locals@.len() + items_at(
                    self,
                    0,
                    TT_EOF,
                    fuel,
                ).unwrap().len() < u32::MAX ==> (r matches Ok(m) && items_read(
                    Seq::empty(),
                    m.lambda.expr@,
                    items_at(self, 0, TT_EOF, fuel).unwrap(),
                    self.locals@.len(),
                )),
    {
        let mut p = self;
        let mut lambda = AstLambda {
            params: Vec::new(),
            param_locals: Vec::new(),
            expr: Vec::new(),
            return_type: AstType::Any,
        };
        proof {
            assert(p.ok_lambda(lambda));
            assert(lambda.expr@ =~= Seq::<Ast>::empty());
        }
        match p.rlambda(&mut lambda, TT_EOF) {
            Ok(_) => {
                let m = Module {
                    lambda,
                    src: p.src,
                    path: p.path,
                    uses: p.uses,
                    locals: p.locals,
                    local_types: p.local_types,
                    exports: p.exports,
                    exports_rev: p.exports_rev,
                    language: p.language,
                };
                Ok(m)
            },
            Err(err) => Err((p.src, p.path, err)),
        }
    }
}

} // verus!
