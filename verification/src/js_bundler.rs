use vstd::prelude::*;
use crate::js_ast::{JsAst, JsBuiltin, JsLit, JsOp, JsPattern, JsUnop};
use crate::hyp::{self, AstLambda, Language, LocalDef, ModuleInfo};
use crate::hyp::parser::text_is;
use crate::hyp_to_js::JsEnc;
use crate::glsl_bundler::{self, BundledModule, GlslBundler};
use crate::binary::{self, BundledModules};
use crate::conflict_tree::{ConflictTree, TreeModel};
use crate::text::{push_char, push_int, push_decimal, int_text, decimal};

verus! {

/// An operator precedence (lower binds tighter) and the side it groups on
/// (-1 left, 1 right, 0 either).
#[derive(Clone, Copy, PartialEq, Eq, Structural)]
pub struct Prec(pub u32, pub i32);

impl Prec {
    /// Whether an operator of this precedence needs parentheses in `slot`.
    pub fn need_paren(self, slot: Prec) -> (r: bool)
        ensures
            r == (self.0 > slot.0 || (self.0 == slot.0 && self.1 != slot.1)),
    {
        self.0 > slot.0 || (self.0 == slot.0 && self.1 != slot.1)
    }

    pub fn on_left(self) -> (r: Prec)
        ensures
            r == Prec(self.0, -1i32),
    {
        Prec(self.0, -1i32)
    }

    pub fn on_right(self) -> (r: Prec)
        ensures
            r == Prec(self.0, 1),
    {
        Prec(self.0, 1)
    }

    pub fn on_either(self) -> (r: Prec)
        ensures
            r == Prec(self.0, 0),
    {
        Prec(self.0, 0)
    }
}

#[derive(Clone, Copy, PartialEq, Eq, Structural)]
pub enum NeedSemi {
    No,
    Yes,
}

pub open spec fn js_prec_of(k: nat) -> Prec {
    if k == 0 {
        Prec(1, -1i32)  // member access and indexing

    } else if k == 1 {
        Prec(1, 1)  // new

    } else if k == 2 {
        Prec(2, -1i32)  // call

    } else if k == 3 {
        Prec(5, -1i32)  // * / %

    } else if k == 4 {
        Prec(6, -1i32)  // + -

    } else if k == 5 {
        Prec(7, -1i32)  // shifts

    } else if k == 6 {
        Prec(8, -1i32)  // < <= > >=

    } else if k == 7 {
        Prec(9, -1i32)  // === !==

    } else if k == 8 {
        Prec(10, -1i32)  // &

    } else if k == 9 {
        Prec(11, -1i32)  // ^

    } else if k == 10 {
        Prec(12, -1i32)  // |

    } else if k == 11 {
        Prec(13, -1i32)  // &&

    } else if k == 12 {
        Prec(14, -1i32)  // ||

    } else if k == 13 {
        Prec(15, 1)  // ?:

    } else if k == 14 {
        Prec(16, 1)  // assignment

    } else if k == 15 {
        Prec(17, -1i32)  // comma

    } else if k == 16 {
        Prec(18, 0)  // anything

    } else if k == 17 {
        Prec(4, 1)  // unary + - ! ~

    } else {
        Prec(3, 0)  // ++ --

    }
}

pub fn prec_dot_bracket() -> (r: Prec)
    ensures
        r == js_prec_of(0),
{
    Prec(1, -1i32)
}

pub fn prec_new() -> (r: Prec)
    ensures
        r == js_prec_of(1),
{
    Prec(1, 1)
}

pub fn prec_call() -> (r: Prec)
    ensures
        r == js_prec_of(2),
{
    Prec(2, -1i32)
}

pub fn prec_select() -> (r: Prec)
    ensures
        r == js_prec_of(13),
{
    Prec(15, 1)
}

pub fn prec_assign() -> (r: Prec)
    ensures
        r == js_prec_of(14),
{
    Prec(16, 1)
}

pub fn prec_comma() -> (r: Prec)
    ensures
        r == js_prec_of(15),
{
    Prec(17, -1i32)
}

pub fn prec_max() -> (r: Prec)
    ensures
        r == js_prec_of(16),
{
    Prec(18, 0)
}

pub fn prec_unary_plus_minus() -> (r: Prec)
    ensures
        r == js_prec_of(17),
{
    Prec(4, 1)
}

/// The precedence of a binary operator.
pub open spec fn binop_prec(op: JsOp) -> Prec {
    match op {
        JsOp::Mul | JsOp::Div | JsOp::Rem => js_prec_of(3),
        JsOp::Add | JsOp::Sub => js_prec_of(4),
        JsOp::MulEq | JsOp::DivEq | JsOp::RemEq | JsOp::AddEq | JsOp::SubEq | JsOp::OrEq
        | JsOp::AndEq | JsOp::XorEq => js_prec_of(14),
        JsOp::Eq | JsOp::Ne => js_prec_of(7),
        JsOp::Lt | JsOp::Le | JsOp::Gt | JsOp::Ge => js_prec_of(6),
        JsOp::BitAnd => js_prec_of(8),
        JsOp::BitOr => js_prec_of(10),
        JsOp::BitXor => js_prec_of(9),
        JsOp::AndAnd => js_prec_of(11),
        JsOp::OrOr => js_prec_of(12),
        JsOp::Shl | JsOp::Shr | JsOp::Lshr => js_prec_of(5),
    }
}

/// The text of a binary operator with the spaces around it.
pub open spec fn binop_text(op: JsOp) -> Seq<char> {
    match op {
        JsOp::Mul => " * "@,
        JsOp::Div => " / "@,
        JsOp::Rem => " % "@,
        JsOp::Add => " + "@,
        JsOp::Sub => " - "@,
        JsOp::MulEq => " *= "@,
        JsOp::DivEq => " /= "@,
        JsOp::RemEq => " %= "@,
        JsOp::OrEq => " |= "@,
        JsOp::AndEq => " &= "@,
        JsOp::XorEq => " ^= "@,
        JsOp::AddEq => " += "@,
        JsOp::SubEq => " -= "@,
        JsOp::BitAnd => " & "@,
        JsOp::BitOr => " | "@,
        JsOp::BitXor => " ^ "@,
        JsOp::AndAnd => " && "@,
        JsOp::OrOr => " || "@,
        JsOp::Shl => " << "@,
        JsOp::Shr => " >> "@,
        JsOp::Lshr => " >>> "@,
        JsOp::Eq => " === "@,
        JsOp::Lt => " < "@,
        JsOp::Le => " <= "@,
        JsOp::Ne => " !== "@,
        JsOp::Gt => " > "@,
        JsOp::Ge => " >= "@,
    }
}

/// `*`, `/` and `%`.
pub open spec fn is_multiplicative(op: JsOp) -> bool {
    op is Mul || op is Div || op is Rem
}

/// `+` and `-`.
pub open spec fn is_additive(op: JsOp) -> bool {
    op is Add || op is Sub
}

/// `<<`, `>>` and `>>>`.
pub open spec fn is_shift(op: JsOp) -> bool {
    op is Shl || op is Shr || op is Lshr
}

/// `<`, `<=`, `>` and `>=`.
pub open spec fn is_relational(op: JsOp) -> bool {
    op is Lt || op is Le || op is Gt || op is Ge
}

/// `===` and `!==`.
pub open spec fn is_equality(op: JsOp) -> bool {
    op is Eq || op is Ne
}

/// The assignments that combine with an operator, such as `+=`.
pub open spec fn is_compound_assign(op: JsOp) -> bool {
    op is MulEq || op is DivEq || op is RemEq || op is AddEq || op is SubEq || op is OrEq || op is AndEq
        || op is XorEq
}

/// The binary operators follow JavaScript's precedence table, from the
/// tightest: `* / %`, then `+ -`, shifts, `< <= > >=`, `=== !==`, `&`, `^`,
/// `|`, `&&`, `||`, and the compound assignments loosest. A larger number
/// is a looser operator; operators of one row share their precedence; all
/// group to the left but the assignments, which group to the right.
pub proof fn law_js_binop_precedence(a: JsOp, b: JsOp)
    ensures
        is_multiplicative(a) && is_additive(b) ==> binop_prec(a).0 < binop_prec(b).0,
        is_additive(a) && is_shift(b) ==> binop_prec(a).0 < binop_prec(b).0,
        is_shift(a) && is_relational(b) ==> binop_prec(a).0 < binop_prec(b).0,
        is_relational(a) && is_equality(b) ==> binop_prec(a).0 < binop_prec(b).0,
        is_equality(a) && b is BitAnd ==> binop_prec(a).0 < binop_prec(b).0,
        a is BitAnd && b is BitXor ==> binop_prec(a).0 < binop_prec(b).0,
        a is BitXor && b is BitOr ==> binop_prec(a).0 < binop_prec(b).0,
        a is BitOr && b is AndAnd ==> binop_prec(a).0 < binop_prec(b).0,
        a is AndAnd && b is OrOr ==> binop_prec(a).0 < binop_prec(b).0,
        a is OrOr && is_compound_assign(b) ==> binop_prec(a).0 < binop_prec(b).0,
        (is_multiplicative(a) && is_multiplicative(b)) || (is_additive(a) && is_additive(b)) || (is_shift(a)
            && is_shift(b)) || (is_relational(a) && is_relational(b)) || (is_equality(a) && is_equality(b))
            || (is_compound_assign(a) && is_compound_assign(b)) ==> binop_prec(a) == binop_prec(b),
        !is_compound_assign(a) ==> binop_prec(a).1 == -1,
        is_compound_assign(a) ==> binop_prec(a).1 == 1,
{
}

/// A shift written as the left operand of `+` or `-` is put in
/// parentheses, so that the text reads back as the same tree: for any
/// operands, `(x << y) + z` and never `x << y + z`.
pub proof fn law_js_shift_in_sum(c: PrintCtx, x: JsAst, s: JsOp, y: JsAst, p: JsOp, z: JsAst, slot: Prec, must: bool)
    requires
        is_shift(s),
        is_additive(p),
    ensures
        js_text(
            c,
            JsAst::Binary {
                left: Box::new(JsAst::Binary { left: Box::new(x), op: s, right: Box::new(y) }),
                op: p,
                right: Box::new(z),
            },
            slot,
            must,
        ) == paren(
            need_paren(binop_prec(p), slot),
            "("@ + js_text(c, x, left_of(binop_prec(s)), true) + binop_text(s) + js_text(
                c,
                y,
                right_of(binop_prec(s)),
                true,
            ) + ")"@ + binop_text(p) + js_text(c, z, right_of(binop_prec(p)), true),
        ),
{
    let inner = JsAst::Binary { left: Box::new(x), op: s, right: Box::new(y) };
    assert(need_paren(binop_prec(s), left_of(binop_prec(p))));
    assert(js_text(c, inner, left_of(binop_prec(p)), true) == "("@ + js_text(c, x, left_of(binop_prec(s)), true)
        + binop_text(s) + js_text(c, y, right_of(binop_prec(s)), true) + ")"@);
}

/// Operators of one row group to the left: with `+` and `-`, `x - y + z`
/// is written without parentheses and reads as `(x - y) + z`, while a sum
/// or difference as the right operand is put in parentheses: `x - (y + z)`.
pub proof fn law_js_left_grouping(c: PrintCtx, x: JsAst, p: JsOp, y: JsAst, q: JsOp, z: JsAst, slot: Prec, must: bool)
    requires
        is_additive(p),
        is_additive(q),
    ensures
        js_text(
            c,
            JsAst::Binary {
                left: Box::new(JsAst::Binary { left: Box::new(x), op: p, right: Box::new(y) }),
                op: q,
                right: Box::new(z),
            },
            slot,
            must,
        ) == paren(
            need_paren(binop_prec(q), slot),
            js_text(c, x, left_of(binop_prec(p)), true) + binop_text(p) + js_text(c, y, right_of(binop_prec(p)), true)
                + binop_text(q) + js_text(c, z, right_of(binop_prec(q)), true),
        ),
        js_text(
            c,
            JsAst::Binary {
                left: Box::new(x),
                op: q,
                right: Box::new(JsAst::Binary { left: Box::new(y), op: p, right: Box::new(z) }),
            },
            slot,
            must,
        ) == paren(
            need_paren(binop_prec(q), slot),
            js_text(c, x, left_of(binop_prec(q)), true) + binop_text(q) + "("@ + js_text(
                c,
                y,
                left_of(binop_prec(p)),
                true,
            ) + binop_text(p) + js_text(c, z, right_of(binop_prec(p)), true) + ")"@,
        ),
{
    let l = JsAst::Binary { left: Box::new(x), op: p, right: Box::new(y) };
    let r = JsAst::Binary { left: Box::new(y), op: p, right: Box::new(z) };
    assert(!need_paren(binop_prec(p), left_of(binop_prec(q))));
    assert(js_text(c, l, left_of(binop_prec(q)), true) == js_text(c, x, left_of(binop_prec(p)), true) + binop_text(p)
        + js_text(c, y, right_of(binop_prec(p)), true));
    assert(need_paren(binop_prec(p), right_of(binop_prec(q))));
    assert(js_text(c, r, right_of(binop_prec(q)), true) == "("@ + js_text(c, y, left_of(binop_prec(p)), true)
        + binop_text(p) + js_text(c, z, right_of(binop_prec(p)), true) + ")"@);
    assert(js_text(c, x, left_of(binop_prec(q)), true) == js_text(c, x, left_of(binop_prec(q)), true));
}

fn binop_prec_x(op: JsOp) -> (r: Prec)
    ensures
        r == binop_prec(op),
{
    match op {
        JsOp::Mul | JsOp::Div | JsOp::Rem => Prec(5, -1i32),
        JsOp::Add | JsOp::Sub => Prec(6, -1i32),
        JsOp::MulEq | JsOp::DivEq | JsOp::RemEq | JsOp::AddEq | JsOp::SubEq | JsOp::OrEq
        | JsOp::AndEq | JsOp::XorEq => Prec(16, 1),
        JsOp::Eq | JsOp::Ne => Prec(9, -1i32),
        JsOp::Lt | JsOp::Le | JsOp::Gt | JsOp::Ge => Prec(8, -1i32),
        JsOp::BitAnd => Prec(10, -1i32),
        JsOp::BitOr => Prec(12, -1i32),
        JsOp::BitXor => Prec(11, -1i32),
        JsOp::AndAnd => Prec(13, -1i32),
        JsOp::OrOr => Prec(14, -1i32),
        JsOp::Shl | JsOp::Shr | JsOp::Lshr => Prec(7, -1i32),
    }
}

fn binop_str(op: JsOp) -> (r: &'static str)
    ensures
        r@ == binop_text(op),
{
    match op {
        JsOp::Mul => " * ",
        JsOp::Div => " / ",
        JsOp::Rem => " % ",
        JsOp::Add => " + ",
        JsOp::Sub => " - ",
        JsOp::MulEq => " *= ",
        JsOp::DivEq => " /= ",
        JsOp::RemEq => " %= ",
        JsOp::OrEq => " |= ",
        JsOp::AndEq => " &= ",
        JsOp::XorEq => " ^= ",
        JsOp::AddEq => " += ",
        JsOp::SubEq => " -= ",
        JsOp::BitAnd => " & ",
        JsOp::BitOr => " | ",
        JsOp::BitXor => " ^ ",
        JsOp::AndAnd => " && ",
        JsOp::OrOr => " || ",
        JsOp::Shl => " << ",
        JsOp::Shr => " >> ",
        JsOp::Lshr => " >>> ",
        JsOp::Eq => " === ",
        JsOp::Lt => " < ",
        JsOp::Le => " <= ",
        JsOp::Ne => " !== ",
        JsOp::Gt => " > ",
        JsOp::Ge => " >= ",
    }
}

/// The text and precedence of a unary operator.
pub open spec fn unop_text(op: JsUnop) -> Seq<char> {
    match op {
        JsUnop::Plus => "+"@,
        JsUnop::Minus => "-"@,
        JsUnop::BitNot => "~"@,
        JsUnop::Not => "!"@,
        JsUnop::PreInc => "++"@,
        JsUnop::PreDec => "--"@,
    }
}

pub open spec fn unop_prec(op: JsUnop) -> Prec {
    match op {
        JsUnop::Not | JsUnop::Plus | JsUnop::Minus | JsUnop::BitNot => js_prec_of(17),
        JsUnop::PreInc | JsUnop::PreDec => js_prec_of(18),
    }
}

fn unop_str(op: JsUnop) -> (r: &'static str)
    ensures
        r@ == unop_text(op),
{
    match op {
        JsUnop::Plus => "+",
        JsUnop::Minus => "-",
        JsUnop::BitNot => "~",
        JsUnop::Not => "!",
        JsUnop::PreInc => "++",
        JsUnop::PreDec => "--",
    }
}

fn unop_prec_x(op: JsUnop) -> (r: Prec)
    ensures
        r == unop_prec(op),
{
    match op {
        JsUnop::Not | JsUnop::Plus | JsUnop::Minus | JsUnop::BitNot => Prec(4, 1),
        JsUnop::PreInc | JsUnop::PreDec => Prec(3, 0),
    }
}

// ---------------------------------------------------------------------------
// Base64

/// The character of the 6-bit value `v` in the standard Base64 alphabet:
/// `A`-`Z`, `a`-`z`, `0`-`9`, `+` and `/`.
pub open spec fn b64_char(v: int) -> char {
    if v < 26 {
        (65 + v) as char
    } else if v < 52 {
        (97 + v - 26) as char
    } else if v < 62 {
        (48 + v - 52) as char
    } else if v == 62 {
        '+'
    } else {
        '/'
    }
}

/// The standard Base64 encoding (with padding) of `data`: each group of
/// three bytes gives four characters of six bits each; a last group of
/// one or two bytes is filled with zero bits and padded with `=`.
pub open spec fn base64_standard(data: Seq<u8>) -> Seq<char>
    decreases data.len(),
{
    if data.len() == 0 {
        Seq::empty()
    } else if data.len() == 1 {
        let a = data[0] as int;
        seq![b64_char(a / 4), b64_char((a % 4) * 16), '=', '=']
    } else if data.len() == 2 {
        let a = data[0] as int;
        let b = data[1] as int;
        seq![b64_char(a / 4), b64_char((a % 4) * 16 + b / 16), b64_char((b % 16) * 4), '=']
    } else {
        let a = data[0] as int;
        let b = data[1] as int;
        let c = data[2] as int;
        seq![
            b64_char(a / 4),
            b64_char((a % 4) * 16 + b / 16),
            b64_char((b % 16) * 4 + c / 64),
            b64_char(c % 64),
        ] + base64_standard(data.subrange(3, data.len() as int))
    }
}

/// Appends the standard Base64 encoding of `data` to `buf`
/// (`base64::encode_config_buf` with `base64::STANDARD`).
/// Claimed: `buf` afterwards is its old text followed by the encoding
/// `base64_standard(data)`.
#[verifier::external_body]
fn base64_append(data: &[u8], buf: &mut String)
    ensures
        final(buf)@ == old(buf)@ + base64_standard(data@),
{
    base64::encode_config_buf(data, base64::STANDARD, buf);
}

// ---------------------------------------------------------------------------
// Text

/// Whether `s` holds a line break.
pub open spec fn has_line_break(s: Seq<char>) -> bool {
    exists|i: int| 0 <= i < s.len() && (s[i] == '\r' || s[i] == '\n')
}

/// A string literal of `s`: between backquotes when it holds a line
/// break, else between double quotes. Nothing in it is escaped.
pub open spec fn str_lit_text(s: Seq<char>) -> Seq<char> {
    if has_line_break(s) {
        seq!['`'] + s + seq!['`']
    } else {
        seq!['"'] + s + seq!['"']
    }
}

/// Every element of `a` stands at the same place in `b`.
pub open spec fn prefix_of(a: Seq<char>, b: Seq<char>) -> bool {
    a.len() <= b.len() && forall|i: int| 0 <= i < a.len() ==> #[trigger] a[i] == b[i]
}

/// Looks up the index of the function `key` among the written GLSL functions.
pub open spec fn fn_map_lookup(m: Seq<((u32, u32), usize)>, key: (u32, u32)) -> Option<usize>
    decreases m.len(),
{
    if m.len() == 0 {
        None
    } else if m.last().0 == key {
        Some(m.last().1)
    } else {
        fn_map_lookup(m.drop_last(), key)
    }
}

// ---------------------------------------------------------------------------
// Module order

/// The number of zero marks.
pub open spec fn count_zero(m: Seq<u8>) -> nat
    decreases m.len(),
{
    if m.len() == 0 {
        0
    } else {
        count_zero(m.drop_last()) + if m.last() == 0 {
            1nat
        } else {
            0nat
        }
    }
}

proof fn lemma_count_zero_mono(a: Seq<u8>, b: Seq<u8>)
    requires
        a.len() == b.len(),
        forall|i: int| 0 <= i < a.len() && b[i] == 0 ==> a[i] == 0,
    ensures
        count_zero(b) <= count_zero(a),
    decreases a.len(),
{
    if a.len() > 0 {
        lemma_count_zero_mono(a.drop_last(), b.drop_last());
    }
}

proof fn lemma_count_zero_set(a: Seq<u8>, i: int, v: u8)
    requires
        0 <= i < a.len(),
        a[i] == 0,
        v != 0,
    ensures
        count_zero(a.update(i, v)) + 1 == count_zero(a),
    decreases a.len(),
{
    if i < a.len() - 1 {
        lemma_count_zero_set(a.drop_last(), i, v);
        assert(a.update(i, v).drop_last() =~= a.drop_last().update(i, v));
    } else {
        assert(a.update(i, v).drop_last() =~= a.drop_last());
    }
}

/// The state of the ordering: marks are 0 (unvisited), 1 (being visited)
/// or 2 (done); the output holds exactly the modules marked done, each once.
pub open spec fn order_inv(marks: Seq<u8>, output: Seq<u32>, n: nat) -> bool {
    &&& marks.len() == n
    &&& forall|i: int| 0 <= i < n ==> #[trigger] marks[i] <= 2
    &&& forall|k: int| 0 <= k < output.len() ==> #[trigger] output[k] < n && marks[output[k] as int] == 2
    &&& forall|i: int| 0 <= i < n && #[trigger] marks[i] == 2 ==> output.contains(i as u32)
    &&& forall|k1: int, k2: int| 0 <= k1 < k2 < output.len() ==> output[k1] != output[k2]
}

/// Marks only advance: done stays done, being visited stays so or
/// becomes done, and nothing becomes unvisited.
pub open spec fn marks_advance(a: Seq<u8>, b: Seq<u8>) -> bool {
    &&& a.len() == b.len()
    &&& forall|i: int| 0 <= i < a.len() && a[i] == 2 ==> #[trigger] b[i] == 2
    &&& forall|i: int| 0 <= i < a.len() && a[i] == 1 ==> #[trigger] b[i] == 1
    &&& forall|i: int| 0 <= i < a.len() && #[trigger] b[i] == 0 ==> a[i] == 0
}

/// Visiting the module `cur` depth first, from the marks `marks` and the
/// order so far `out`, `fuel` bounding the depth: `cur` is marked as being
/// visited, its imports that are unvisited are visited in turn, then `cur`
/// is marked done and comes out. Gives the marks and the order after.
pub open spec fn dfs_visit(infos: Seq<ModuleInfo>, marks: Seq<u8>, out: Seq<u32>, cur: int, fuel: nat) -> (
    Seq<u8>,
    Seq<u32>,
)
    decreases fuel, 0nat, 0int,
{
    if fuel == 0 {
        (marks, out)
    } else {
        let (m, o) = dfs_imports(infos, marks.update(cur, 1), out, cur, 0, (fuel - 1) as nat);
        (m.update(cur, 2), o.push(cur as u32))
    }
}

/// Visiting in turn the imports of `cur` from its import `j` on, each
/// that is still unvisited.
pub open spec fn dfs_imports(
    infos: Seq<ModuleInfo>,
    marks: Seq<u8>,
    out: Seq<u32>,
    cur: int,
    j: int,
    fuel: nat,
) -> (Seq<u8>, Seq<u32>)
    decreases fuel, 1nat, infos[cur].import_map@.len() - j,
{
    if j < 0 || j >= infos[cur].import_map@.len() {
        (marks, out)
    } else {
        let c = infos[cur].import_map@[j] as int;
        if c < marks.len() && marks[c] == 0 {
            let (m, o) = dfs_visit(infos, marks, out, c, fuel);
            dfs_imports(infos, m, o, cur, j + 1, fuel)
        } else {
            dfs_imports(infos, marks, out, cur, j + 1, fuel)
        }
    }
}

/// Visiting, from module `i` on, each module not done yet.
pub open spec fn dfs_from(infos: Seq<ModuleInfo>, marks: Seq<u8>, out: Seq<u32>, i: int) -> Seq<u32>
    decreases infos.len() - i,
{
    if i < 0 || i >= infos.len() {
        out
    } else if marks[i] == 2 {
        dfs_from(infos, marks, out, i + 1)
    } else {
        let (m, o) = dfs_visit(infos, marks, out, i, infos.len());
        dfs_from(infos, m, o, i + 1)
    }
}

/// The depth-first post-order of the modules: from module 0 on, each
/// module not yet visited is visited (see `dfs_visit`), nothing being
/// visited at first.
pub open spec fn dfs_order(infos: Seq<ModuleInfo>) -> Seq<u32> {
    dfs_from(infos, Seq::new(infos.len(), |k: int| 0u8), Seq::empty(), 0)
}

/// There are no more zero marks than marks.
proof fn lemma_count_zero_le(m: Seq<u8>)
    ensures
        count_zero(m) <= m.len(),
    decreases m.len(),
{
    if m.len() > 0 {
        lemma_count_zero_le(m.drop_last());
    }
}

/// Visits module `cur` depth first: its imports come out before it. An
/// import that is being visited (a cycle) is skipped.
fn visit(
    cur: usize,
    infos: &Vec<ModuleInfo>,
    marks: &mut Vec<u8>,
    output: &mut Vec<u32>,
    Ghost(rank): Ghost<Seq<nat>>,
    Ghost(fuel): Ghost<nat>,
)
    requires
        fuel >= count_zero(old(marks)@),
        cur < infos@.len(),
        infos@.len() <= u32::MAX,
        old(marks)@[cur as int] == 0,
        order_inv(old(marks)@, old(output)@, infos@.len()),
        ranked(infos@, rank) ==> imports_first(old(output)@, infos@),
        ranked(infos@, rank) ==> forall|i: int|
            0 <= i < infos@.len() && #[trigger] old(marks)@[i] == 1 ==> rank[i] > rank[cur as int],
    ensures
        ranked(infos@, rank) ==> imports_first(final(output)@, infos@),
        order_inv(final(marks)@, final(output)@, infos@.len()),
        marks_advance(old(marks)@, final(marks)@),
        final(marks)@[cur as int] == 2,
        forall|i: int| 0 <= i < old(marks)@.len() && #[trigger] final(marks)@[i] == 1 ==> old(marks)@[i] == 1,
        forall|k: int| 0 <= k < old(output)@.len() ==> #[trigger] final(output)@[k] == old(output)@[k],
        old(output)@.len() <= final(output)@.len(),
        (final(marks)@, final(output)@) == dfs_visit(infos@, old(marks)@, old(output)@, cur as int, fuel),
    decreases count_zero(old(marks)@),
{
    let ghost m0 = marks@;
    let ghost o0 = output@;
    marks.set(cur, 1);
    proof {
        lemma_count_zero_set(m0, cur as int, 1);
    }
    let imports = &infos[cur].import_map;
    let mut j: usize = 0;
    while j < imports.len()
        invariant
            j <= imports@.len(),
            cur < infos@.len(),
            infos@.len() <= u32::MAX,
            imports == infos@[cur as int].import_map,
            order_inv(marks@, output@, infos@.len()),
            marks_advance(m0.update(cur as int, 1), marks@),
            marks@[cur as int] == 1,
            m0 == old(marks)@,
            m0.len() == infos@.len(),
            count_zero(marks@) < count_zero(m0),
            forall|i: int| 0 <= i < m0.len() && #[trigger] marks@[i] == 1 ==> (i == cur || m0[i] == 1),
            forall|k: int| 0 <= k < old(output)@.len() ==> #[trigger] output@[k] == old(output)@[k],
            old(output)@.len() <= output@.len(),
            ranked(infos@, rank) ==> imports_first(output@, infos@),
            ranked(infos@, rank) ==> forall|i: int|
                0 <= i < infos@.len() && #[trigger] m0[i] == 1 ==> rank[i] > rank[cur as int],
            ranked(infos@, rank) ==> forall|jj: int|
                0 <= jj < j && #[trigger] imports@[jj] < infos@.len() ==> marks@[imports@[jj] as int] == 2,
            fuel >= count_zero(m0),
            fuel >= 1,
            dfs_imports(infos@, marks@, output@, cur as int, j as int, (fuel - 1) as nat) == dfs_imports(
                infos@,
                m0.update(cur as int, 1),
                o0,
                cur as int,
                0,
                (fuel - 1) as nat,
            ),
        decreases imports@.len() - j,
    {
        let c = imports[j] as usize;
        let ghost mj = marks@;
        proof {
            assert(m0.len() == infos@.len());
            if c < infos@.len() {
                assert(mj[c as int] == 1 ==> (c == cur || m0[c as int] == 1));
            }
        }
        if c < marks.len() && marks[c] == 0 {
            let ghost mb = marks@;
            proof {
                if ranked(infos@, rank) {
                    assert(imports@[j as int] == c);
                    assert(rank[c as int] < rank[cur as int]);
                    assert forall|i: int| 0 <= i < infos@.len() && #[trigger] marks@[i] == 1 implies rank[i]
                        > rank[c as int] by {
                        assert(m0.len() == infos@.len());
                        assert(marks@[i] == 1 ==> (i == cur || m0[i] == 1));
                    }
                }
            }
            visit(c, infos, marks, output, Ghost(rank), Ghost((fuel - 1) as nat));
            proof {
                lemma_count_zero_mono(mb, marks@);
            }
        }
        proof {
            if ranked(infos@, rank) && c < infos@.len() {
                assert(imports@[j as int] == c);
                assert(rank[c as int] < rank[cur as int]);
                assert(mj[c as int] <= 2);
                assert(marks@[c as int] == 2);
            }
        }
        j = j + 1;
    }
    proof {
        assert(dfs_imports(infos@, marks@, output@, cur as int, j as int, (fuel - 1) as nat) == (marks@, output@));
    }
    let ghost m1 = marks@;
    marks.set(cur, 2);
    proof {
        assert(!output@.contains(cur as u32)) by {
            if output@.contains(cur as u32) {
                let k = choose|k: int| 0 <= k < output@.len() && output@[k] == cur as u32;
                assert(m1[output@[k] as int] == 2);
            }
        }
    }
    let ghost o1 = output@;
    output.push(cur as u32);
    proof {
        assert forall|i: int| 0 <= i < infos@.len() && #[trigger] marks@[i] == 2 implies output@.contains(i as u32) by {
            if i == cur {
                assert(output@[output@.len() - 1] == cur as u32);
            } else {
                assert(m1[i] == 2);
                assert(o1.contains(i as u32));
                let k = choose|k: int| 0 <= k < o1.len() && o1[k] == i as u32;
                assert(output@[k] == i as u32);
            }
        }
        if ranked(infos@, rank) {
            assert forall|k: int, jj: int|
                0 <= k < output@.len() && 0 <= jj < infos@[output@[k] as int].import_map@.len()
                    && #[trigger] infos@[output@[k] as int].import_map@[jj] < infos@.len() implies exists|i: int|
                0 <= i < k && #[trigger] output@[i] == infos@[output@[k] as int].import_map@[jj] by {
                if k < o1.len() {
                    assert(output@[k] == o1[k]);
                    let i = choose|i: int| 0 <= i < k && #[trigger] o1[i] == infos@[o1[k] as int].import_map@[jj];
                    assert(output@[i] == o1[i]);
                } else {
                    let c = imports@[jj];
                    assert(m1[c as int] == 2);
                    assert(o1.contains(c));
                    let i = choose|i: int| 0 <= i < o1.len() && o1[i] == c;
                    assert(output@[i] == c);
                }
            }
        }
    }
}

/// `rank` orders the modules so that each imports only modules of lower
/// rank: the imports have no cycle.
pub open spec fn ranked(infos: Seq<ModuleInfo>, rank: Seq<nat>) -> bool {
    &&& rank.len() == infos.len()
    &&& forall|m: int, j: int|
        0 <= m < infos.len() && 0 <= j < infos[m].import_map@.len() && #[trigger] infos[m].import_map@[j]
            < infos.len() ==> rank[infos[m].import_map@[j] as int] < rank[m]
}

/// The imports have no cycle.
pub open spec fn acyclic(infos: Seq<ModuleInfo>) -> bool {
    exists|rank: Seq<nat>| ranked(infos, rank)
}

/// Every module of `order` comes after each module it imports.
pub open spec fn imports_first(order: Seq<u32>, infos: Seq<ModuleInfo>) -> bool {
    forall|k: int, j: int|
        0 <= k < order.len() && 0 <= j < infos[order[k] as int].import_map@.len()
            && #[trigger] infos[order[k] as int].import_map@[j] < infos.len() ==> exists|i: int|
            0 <= i < k && #[trigger] order[i] == infos[order[k] as int].import_map@[j]
}

/// Each of `n` modules appears in `order` exactly once.
pub open spec fn is_permutation(order: Seq<u32>, n: nat) -> bool {
    &&& order.len() == n
    &&& forall|k: int| 0 <= k < order.len() ==> #[trigger] order[k] < n
    &&& forall|x: u32| x < n ==> #[trigger] order.contains(x)
    &&& forall|k1: int, k2: int| 0 <= k1 < k2 < order.len() ==> order[k1] != order[k2]
}

/// An order of the modules in which each module comes after the modules
/// it imports (but for imports that close a cycle), found depth first from
/// module 0 on. Each module appears exactly once; where the imports have
/// no cycle, every module comes after all it imports.
pub fn module_ordering(infos: &Vec<ModuleInfo>) -> (r: Vec<u32>)
    requires
        infos@.len() <= u32::MAX,
    ensures
        is_permutation(r@, infos@.len()),
        acyclic(infos@) ==> imports_first(r@, infos@),
        r@ == dfs_order(infos@),
{
    let ghost rank: Seq<nat> = if acyclic(infos@) {
        choose|rank: Seq<nat>| ranked(infos@, rank)
    } else {
        Seq::empty()
    };
    let n = infos.len();
    let mut marks: Vec<u8> = Vec::new();
    let mut i: usize = 0;
    while i < n
        invariant
            i <= n,
            n == infos@.len(),
            marks@.len() == i,
            forall|j: int| 0 <= j < i ==> #[trigger] marks@[j] == 0,
        decreases n - i,
    {
        marks.push(0);
        i = i + 1;
    }
    let mut output: Vec<u32> = Vec::new();
    proof {
        assert(marks@ =~= Seq::new(n as nat, |k: int| 0u8));
    }
    i = 0;
    while i < n
        invariant
            i <= n,
            n == infos@.len(),
            infos@.len() <= u32::MAX,
            dfs_from(infos@, marks@, output@, i as int) == dfs_order(infos@),
            order_inv(marks@, output@, n as nat),
            forall|j: int| 0 <= j < n ==> #[trigger] marks@[j] != 1,
            forall|j: int| 0 <= j < i ==> #[trigger] marks@[j] == 2,
            acyclic(infos@) ==> ranked(infos@, rank),
            ranked(infos@, rank) ==> imports_first(output@, infos@),
        decreases n - i,
    {
        if marks[i] != 2 {
            proof {
                lemma_count_zero_le(marks@);
            }
            visit(i, infos, &mut marks, &mut output, Ghost(rank), Ghost(n as nat));
        }
        i = i + 1;
    }
    proof {
        assert forall|x: u32| x < n implies #[trigger] output@.contains(x) by {
            assert(marks@[x as int] == 2);
        }
        lemma_distinct_len(output@, n as nat);
    }
    output
}

/// A list of distinct numbers below `n` that holds every number below
/// `n` has `n` elements.
proof fn lemma_distinct_len(s: Seq<u32>, n: nat)
    requires
        forall|k: int| 0 <= k < s.len() ==> #[trigger] s[k] < n,
        forall|x: u32| x < n ==> #[trigger] s.contains(x),
        forall|k1: int, k2: int| 0 <= k1 < k2 < s.len() ==> s[k1] != s[k2],
        n <= u32::MAX + 1,
    ensures
        s.len() == n,
{
    let set_s = s.to_set();
    let full = Set::new(|x: u32| x < n);
    assert(set_s =~= full) by {
        assert forall|x: u32| set_s.contains(x) implies full.contains(x) by {
            let k = choose|k: int| 0 <= k < s.len() && s[k] == x;
        }
        assert forall|x: u32| full.contains(x) implies set_s.contains(x) by {
            assert(s.contains(x));
        }
    }
    s.unique_seq_to_set();
    lemma_range_set_len(n);
}

/// The numbers below `n` are `n` in number.
proof fn lemma_range_set_len(n: nat)
    requires
        n <= u32::MAX + 1,
    ensures
        Set::new(|x: u32| x < n).len() == n,
        Set::new(|x: u32| x < n).finite(),
    decreases n,
{
    if n == 0 {
        assert(Set::new(|x: u32| x < n) =~= Set::<u32>::empty());
    } else {
        lemma_range_set_len((n - 1) as nat);
        assert(Set::new(|x: u32| x < n) =~= Set::new(|x: u32| x < (n - 1) as nat).insert((n - 1) as u32));
    }
}

// ---------------------------------------------------------------------------
// Float literals

/// The JavaScript form of a float literal written `t` (as a float prints):
/// a whole value is its integer part alone (`1` for `1.0`), any other
/// value keeps one digit before the point at least and loses the trailing
/// zeros of its fraction (`0.5` for `00.50`).
pub open spec fn js_float_text(t: Seq<char>) -> Seq<char> {
    let d = glsl_bundler::dot_pos(t);
    let ip = glsl_bundler::strip_leading_zeros(t.subrange(0, d));
    let int_text = if ip.len() == 0 {
        "0"@
    } else {
        ip
    };
    let frac = if d < t.len() {
        t.subrange(d + 1, t.len() as int)
    } else {
        Seq::empty()
    };
    let f = glsl_bundler::strip_trailing_zeros(frac);
    if f.len() == 0 {
        int_text
    } else {
        int_text + "."@ + f
    }
}

/// The JavaScript form of the float literal `t`.
pub fn format_js_float(t: &String) -> (r: String)
    ensures
        r@ == js_float_text(t@),
{
    let cs = glsl_bundler::chars_of(t.as_str());
    let n = cs.len();
    let mut d: usize = 0;
    while d < n && cs[d] != '.'
        invariant
            d <= n,
            n == cs@.len(),
            forall|i: int| 0 <= i < d ==> cs@[i] != '.',
        decreases n - d,
    {
        d = d + 1;
    }
    proof {
        glsl_bundler::lemma_dot_pos(cs@, d as int);
    }
    let mut iz: usize = 0;
    while iz < d && cs[iz] == '0'
        invariant
            iz <= d <= n,
            n == cs@.len(),
            forall|i: int| 0 <= i < iz ==> cs@[i] == '0',
        decreases d - iz,
    {
        iz = iz + 1;
    }
    proof {
        let ipart = cs@.subrange(0, d as int);
        glsl_bundler::lemma_strip_leading(ipart, iz as int);
        assert(ipart.subrange(iz as int, ipart.len() as int) =~= cs@.subrange(iz as int, d as int));
    }
    let fs = if d < n {
        d + 1
    } else {
        n
    };
    let mut te = n;
    while te > fs && cs[te - 1] == '0'
        invariant
            fs <= te <= n,
            n == cs@.len(),
            forall|i: int| te <= i < n ==> cs@[i] == '0',
        decreases te,
    {
        te = te - 1;
    }
    let ghost frac = if d < n {
        cs@.subrange(d + 1, n as int)
    } else {
        Seq::<char>::empty()
    };
    proof {
        assert(frac =~= cs@.subrange(fs as int, n as int));
        glsl_bundler::lemma_strip_trailing(frac, te - fs);
        assert(frac.subrange(0, te - fs) =~= cs@.subrange(fs as int, te as int));
    }
    let mut out = String::new();
    if iz == d {
        push_char(&mut out, '0');
    } else {
        glsl_bundler::push_range(&mut out, &cs, iz, d);
    }
    if te > fs {
        push_char(&mut out, '.');
        glsl_bundler::push_range(&mut out, &cs, fs, te);
    }
    proof {
        reveal_strlit("0");
        reveal_strlit(".");
        assert(out@ =~= js_float_text(cs@));
    }
    out
}

// ---------------------------------------------------------------------------
// GLSL sources

/// The sources all have at least `l` characters and agree on the first `l`.
pub open spec fn agree(srcs: Seq<Seq<char>>, l: int) -> bool {
    &&& srcs.len() > 0
    &&& forall|i: int| 0 <= i < srcs.len() ==> l <= #[trigger] srcs[i].len()
    &&& forall|i: int, k: int| 0 <= i < srcs.len() && 0 <= k < l ==> #[trigger] srcs[i][k] == srcs[0][k]
}

/// The length of the longest prefix common to the sources, searched from `l` on.
pub open spec fn lcp_from(srcs: Seq<Seq<char>>, l: nat) -> nat
    decreases srcs[0].len() - l,
{
    if l < srcs[0].len() && agree(srcs, (l + 1) as int) {
        lcp_from(srcs, l + 1)
    } else {
        l
    }
}

/// The length of the longest prefix common to all the sources (0 for none).
pub open spec fn lcp_len(srcs: Seq<Seq<char>>) -> nat {
    if srcs.len() == 0 {
        0
    } else {
        lcp_from(srcs, 0)
    }
}

/// The texts of exported functions.
pub open spec fn srcs_of(fs: Seq<(String, u32)>) -> Seq<Seq<char>> {
    Seq::new(fs.len(), |i: int| fs[i].0@)
}

/// String literals of the sources without their first `l` characters,
/// separated by commas.
pub open spec fn lits_text(srcs: Seq<Seq<char>>, l: int) -> Seq<char>
    decreases srcs.len(),
{
    if srcs.len() == 0 {
        Seq::empty()
    } else if srcs.len() == 1 {
        str_lit_text(srcs[0].subrange(l, srcs[0].len() as int))
    } else {
        lits_text(srcs.drop_last(), l) + ","@ + str_lit_text(srcs.last().subrange(l, srcs.last().len() as int))
    }
}

/// A GLSL module as JavaScript: with one exported function, a string of
/// the module's source and the function's; else an array of the
/// functions' sources, each prefixed, when used, with the module's source
/// and the prefix all of them share (taken out of each).
pub open spec fn glsl_module_text(name: Seq<char>, prefix: Seq<char>, srcs: Seq<Seq<char>>) -> Seq<char> {
    if srcs.len() == 1 {
        "var "@ + name + " = "@ + str_lit_text(prefix + srcs[0]) + ";\n"@
    } else {
        let l = lcp_len(srcs);
        let common = if srcs.len() > 0 {
            srcs[0].subrange(0, l as int)
        } else {
            Seq::empty()
        };
        "var "@ + name + " = ["@ + lits_text(srcs, l as int) + "].map(function (a) { return "@ + str_lit_text(
            prefix + common,
        ) + " + a; });\n"@
    }
}

/// Where each exported function of module `abs` is found: its index in the
/// module's array, or `usize::MAX` when the module has only one.
pub open spec fn fn_entries(abs: usize, fs: Seq<(String, u32)>) -> Seq<((u32, u32), usize)> {
    Seq::new(
        fs.len(),
        |i: int|
            ((abs as u32, fs[i].1), if fs.len() == 1 {
                usize::MAX
            } else {
                i as usize
            }),
    )
}

/// All the GLSL modules as JavaScript.
pub open spec fn glsl_bundle_text(infos: Seq<ModuleInfo>, glsl: Seq<(usize, BundledModule)>) -> Seq<char>
    decreases glsl.len(),
{
    if glsl.len() == 0 {
        Seq::empty()
    } else {
        let (abs, bm) = glsl.last();
        glsl_bundle_text(infos, glsl.drop_last()) + glsl_module_text(
            infos[abs as int].name@,
            bm.prefix@,
            srcs_of(bm.exported_functions@),
        )
    }
}

/// Where the exported functions of all the GLSL modules are found.
pub open spec fn glsl_bundle_entries(glsl: Seq<(usize, BundledModule)>) -> Seq<((u32, u32), usize)>
    decreases glsl.len(),
{
    if glsl.len() == 0 {
        Seq::empty()
    } else {
        glsl_bundle_entries(glsl.drop_last()) + fn_entries(glsl.last().0, glsl.last().1.exported_functions@)
    }
}

/// The views of character vectors.
pub open spec fn char_views(v: Seq<Vec<char>>) -> Seq<Seq<char>> {
    Seq::new(v.len(), |i: int| v[i]@)
}

/// Whether the sources, which agree on their first `l` characters, also
/// agree on the next one.
fn extends_at(srcs: &Vec<Vec<char>>, l: usize) -> (r: bool)
    requires
        agree(char_views(srcs@), l as int),
    ensures
        r == agree(char_views(srcs@), l + 1),
{
    let ghost v = char_views(srcs@);
    if l >= srcs[0].len() {
        assert(!(l + 1 <= v[0].len()));
        return false;
    }
    let c = srcs[0][l];
    let mut i: usize = 0;
    while i < srcs.len()
        invariant
            i <= srcs@.len(),
            v == char_views(srcs@),
            agree(v, l as int),
            l < v[0].len(),
            c == v[0][l as int],
            forall|j: int| 0 <= j < i ==> l < #[trigger] v[j].len() && v[j][l as int] == c,
        decreases srcs@.len() - i,
    {
        assert(v[i as int] == srcs@[i as int]@);
        if l >= srcs[i].len() || srcs[i][l] != c {
            assert(!agree(v, l + 1)) by {
                if agree(v, l + 1) {
                    assert(v[i as int].len() >= l + 1);
                    assert(v[i as int][l as int] == v[0][l as int]);
                }
            }
            return false;
        }
        assert(l < v[i as int].len() && v[i as int][l as int] == c);
        assert forall|j: int| 0 <= j < i + 1 implies l < #[trigger] v[j].len() && v[j][l as int] == c by {
            if j == i {
                assert(l < v[i as int].len() && v[i as int][l as int] == c);
            }
        }
        i = i + 1;
    }
    assert forall|j: int, k: int| 0 <= j < v.len() && 0 <= k < l + 1 implies #[trigger] v[j][k] == v[0][k] by {
        if k < l {
        } else {
            assert(l < v[j].len());
            assert(v[j][l as int] == c);
        }
    }
    true
}


/// The common prefix is no longer than any source.
proof fn lemma_lcp_bound(srcs: Seq<Seq<char>>, l: nat)
    requires
        srcs.len() > 0,
        agree(srcs, l as int),
    ensures
        agree(srcs, lcp_from(srcs, l) as int),
    decreases srcs[0].len() - l,
{
    if l < srcs[0].len() && agree(srcs, (l + 1) as int) {
        lemma_lcp_bound(srcs, l + 1);
    }
}


/// The search stops where the sources stop agreeing.
proof fn lemma_lcp_stops(srcs: Seq<Seq<char>>, l: nat)
    requires
        srcs.len() > 0,
        l <= srcs[0].len(),
    ensures
        !(lcp_from(srcs, l) < srcs[0].len() && agree(srcs, (lcp_from(srcs, l) + 1) as int)),
        lcp_from(srcs, l) <= srcs[0].len(),
    decreases srcs[0].len() - l,
{
    if l < srcs[0].len() && agree(srcs, (l + 1) as int) {
        lemma_lcp_stops(srcs, l + 1);
    }
}

/// The prefix that the GLSL sources share is the longest they share, and
/// taking it out of each source and putting it back in front gives each
/// source back.
pub proof fn law_common_prefix(srcs: Seq<Seq<char>>, i: int)
    requires
        0 <= i < srcs.len(),
    ensures
        srcs[0].subrange(0, lcp_len(srcs) as int) + srcs[i].subrange(lcp_len(srcs) as int, srcs[i].len() as int)
            == srcs[i],
        agree(srcs, lcp_len(srcs) as int),
        !agree(srcs, (lcp_len(srcs) + 1) as int),
{
    assert(agree(srcs, 0));
    lemma_lcp_bound(srcs, 0);
    lemma_lcp_stops(srcs, 0);
    let l = lcp_len(srcs) as int;
    assert(srcs[0].subrange(0, l) + srcs[i].subrange(l, srcs[i].len() as int) =~= srcs[i]);
}

/// The length of the longest prefix common to all the sources.
fn common_prefix_len(srcs: &Vec<Vec<char>>) -> (r: usize)
    ensures
        r == lcp_len(char_views(srcs@)),
{
    let ghost v = char_views(srcs@);
    if srcs.len() == 0 {
        return 0;
    }
    let n0 = srcs[0].len();
    let mut l: usize = 0;
    assert(agree(v, 0));
    while l < n0
        invariant
            v == char_views(srcs@),
            srcs@.len() > 0,
            n0 == v[0].len(),
            l <= n0,
            agree(v, l as int),
            lcp_from(v, 0) == lcp_from(v, l as nat),
        ensures
            lcp_from(v, 0) == l,
        decreases n0 - l,
    {
        if !extends_at(srcs, l) {
            break;
        }
        l = l + 1;
    }
    l
}

// ---------------------------------------------------------------------------
// Name conflicts

/// The texts of `names`.
pub open spec fn name_views(names: Seq<String>) -> Seq<Seq<char>> {
    Seq::new(names.len(), |i: int| names[i]@)
}

/// The conflict trees of the JavaScript modules side by side, each local
/// paired with its module.
pub open spec fn bundled_tree(infos: Seq<ModuleInfo>) -> TreeModel<(u32, u32)>
    decreases infos.len(),
{
    if infos.len() == 0 {
        TreeModel { items: Seq::empty(), children: Seq::empty(), sum_of_children: 0 }
    } else {
        let b = bundled_tree(infos.drop_last());
        let mi = infos.last();
        if mi.language == Language::Js {
            let a = crate::conflict_tree::annotate_model(mi.conflict_tree@, (infos.len() - 1) as u32);
            TreeModel { items: b.items + a.items, children: b.children + a.children, sum_of_children: 0 }
        } else {
            b
        }
    }
}

proof fn lemma_bundled_sum(infos: Seq<ModuleInfo>)
    ensures
        bundled_tree(infos).sum_of_children == 0,
    decreases infos.len(),
{
    if infos.len() > 0 {
        lemma_bundled_sum(infos.drop_last());
    }
}

/// `new` is `old` with only names of locals changed.
pub open spec fn renamed_only(old: JsBundler, new: JsBundler) -> bool {
    &&& same_but_names(old.module_infos@, new.module_infos@)
    &&& new.buf == old.buf
    &&& new.indent_len == old.indent_len
    &&& new.current_module == old.current_module
    &&& new.module_lambdas == old.module_lambdas
    &&& new.glsl_fn_map == old.glsl_fn_map
    &&& new.wasm_offsets == old.wasm_offsets
    &&& new.ok == old.ok
}

/// No local is an item twice.
pub open spec fn items_distinct(items: Seq<((u32, u32), usize)>) -> bool {
    forall|i: int, j: int| 0 <= i < j < items.len() ==> #[trigger] items[i].0 != #[trigger] items[j].0
}

/// The texts of two lists together are those of each.
proof fn lemma_set_concat(a: Seq<Seq<char>>, b: Seq<Seq<char>>)
    ensures
        (a + b).to_set() == a.to_set().union(b.to_set()),
{
    assert forall|y: Seq<char>| (a + b).to_set().contains(y) <==> a.to_set().union(b.to_set()).contains(y) by {
        if (a + b).contains(y) {
            let j = choose|j: int| 0 <= j < (a + b).len() && (a + b)[j] == y;
            if j < a.len() {
                assert(a[j] == y);
            } else {
                assert(b[j - a.len()] == y);
            }
        }
        if a.contains(y) {
            let j = choose|j: int| 0 <= j < a.len() && a[j] == y;
            assert((a + b)[j] == y);
        }
        if b.contains(y) {
            let j = choose|j: int| 0 <= j < b.len() && b[j] == y;
            assert((a + b)[a.len() + j] == y);
        }
    }
    assert((a + b).to_set() =~= a.to_set().union(b.to_set()));
}

/// No text occurs twice in `s`.
pub open spec fn no_dup(s: Seq<Seq<char>>) -> bool {
    forall|i: int, j: int| 0 <= i < j < s.len() ==> #[trigger] s[i] != #[trigger] s[j]
}

/// The local `x` exists among `infos`.
pub open spec fn valid_local(infos: Seq<ModuleInfo>, x: (u32, u32)) -> bool {
    x.0 < infos.len() && x.1 < infos[x.0 as int].locals@.len()
}

/// `name` followed by `$` and the decimal digits of `i`.
pub open spec fn suffixed(name: Seq<char>, i: nat) -> Seq<char> {
    name + "$"@ + decimal(i)
}

/// `b` is `a` with only names of locals changed.
pub open spec fn same_but_names(a: Seq<ModuleInfo>, b: Seq<ModuleInfo>) -> bool {
    &&& a.len() == b.len()
    &&& forall|i: int|
        0 <= i < a.len() ==> #[trigger] b[i] == (ModuleInfo { locals: b[i].locals, ..a[i] })
            && b[i].locals@.len() == a[i].locals@.len()
    &&& forall|i: int, j: int|
        0 <= i < a.len() && 0 <= j < a[i].locals@.len() ==> #[trigger] b[i].locals@[j] == (LocalDef {
            name: b[i].locals@[j].name,
            ..a[i].locals@[j]
        })
}

/// Whether `name` is among `names`.
fn contains_name(names: &Vec<String>, name: &String) -> (r: bool)
    ensures
        r == name_views(names@).contains(name@),
{
    let mut i: usize = 0;
    while i < names.len()
        invariant
            i <= names@.len(),
            forall|j: int| 0 <= j < i ==> names@[j]@ != name@,
        decreases names@.len() - i,
    {
        if text_is(&names[i], name.as_str()) {
            assert(name_views(names@)[i as int] == name@);
            return true;
        }
        i = i + 1;
    }
    proof {
        if name_views(names@).contains(name@) {
            let j = choose|j: int| 0 <= j < names@.len() && name_views(names@)[j] == name@;
            assert(names@[j]@ == name@);
        }
    }
    false
}

/// Takes the first `name` out of `names`, if there is one.
fn remove_name(names: &mut Vec<String>, name: &String)
    ensures
        forall|i: int|
            0 <= i < old(names)@.len() && #[trigger] name_views(old(names)@)[i] == name@ && (forall|j: int|
                0 <= j < i ==> name_views(old(names)@)[j] != name@) ==> name_views(final(names)@) == name_views(
                old(names)@,
            ).remove(i),
        name_views(final(names)@).to_set() =~= name_views(old(names)@).to_set().remove(name@)
            || name_views(final(names)@).contains(name@),
        forall|x: Seq<char>| #[trigger] name_views(final(names)@).contains(x) ==> name_views(old(names)@).contains(x),
{
    let mut i: usize = 0;
    while i < names.len()
        invariant
            i <= names@.len(),
            *names == *old(names),
            forall|j: int| 0 <= j < i ==> names@[j]@ != name@,
        decreases names@.len() - i,
    {
        if text_is(&names[i], name.as_str()) {
            let ghost before = names@;
            names.remove(i);
            proof {
                assert(names@ == before.remove(i as int));
                assert(name_views(names@) =~= name_views(before).remove(i as int));
                assert forall|ii: int|
                    0 <= ii < before.len() && #[trigger] name_views(before)[ii] == name@ && (forall|j: int|
                        0 <= j < ii ==> name_views(before)[j] != name@) implies ii == i by {
                    if ii > i {
                        assert(name_views(before)[i as int] == name@);
                    }
                    if ii < i {
                        assert(before[ii]@ != name@);
                    }
                }
                assert forall|x: Seq<char>| #[trigger] name_views(names@).contains(x) implies name_views(
                    before,
                ).contains(x) by {
                    let k = choose|k: int| 0 <= k < names@.len() && name_views(names@)[k] == x;
                    if k < i {
                        assert(name_views(before)[k] == x);
                    } else {
                        assert(name_views(before)[k + 1] == x);
                    }
                }
                if !name_views(names@).contains(name@) {
                    assert forall|x: Seq<char>| name_views(names@).to_set().contains(x) <==> name_views(
                        before,
                    ).to_set().remove(name@).contains(x) by {
                        if name_views(before).contains(x) && x != name@ {
                            let k = choose|k: int| 0 <= k < before.len() && name_views(before)[k] == x;
                            if k < i {
                                assert(name_views(names@)[k] == x);
                            } else {
                                assert(k != i);
                                assert(name_views(names@)[k - 1] == x);
                            }
                        }
                    }
                }
            }
            return;
        }
        i = i + 1;
    }
    proof {
        assert forall|x: Seq<char>| name_views(names@).to_set().contains(x) <==> name_views(
            names@,
        ).to_set().remove(name@).contains(x) by {
            if x == name@ && name_views(names@).contains(x) {
                let k = choose|k: int| 0 <= k < names@.len() && name_views(names@)[k] == x;
                assert(names@[k]@ != name@);
            }
        }
    }
}

/// A decimal representation has at least one digit, and more than one
/// from 10 on.
proof fn lemma_decimal_len(n: nat)
    ensures
        decimal(n).len() >= 1,
        n >= 10 ==> decimal(n).len() >= 2,
    decreases n,
{
    if n >= 10 {
        lemma_decimal_len(n / 10);
    }
}

/// Different numbers have different decimal representations.
proof fn lemma_decimal_injective(a: nat, b: nat)
    requires
        decimal(a) == decimal(b),
    ensures
        a == b,
    decreases a,
{
    lemma_decimal_len(a);
    lemma_decimal_len(b);
    if a < 10 && b < 10 {
        assert(decimal(a)[0] == crate::text::digit_char(a));
        assert(decimal(b)[0] == crate::text::digit_char(b));
        assert(crate::text::digit_char(a) as u32 == 48 + a);
        assert(crate::text::digit_char(b) as u32 == 48 + b);
        assert(48 + a == 48 + b);
    } else if a >= 10 && b >= 10 {
        assert(decimal(a).last() == decimal(b).last());
        assert(decimal(a).last() == crate::text::digit_char(a % 10));
        assert(decimal(b).last() == crate::text::digit_char(b % 10));
        assert(crate::text::digit_char(a % 10) as u32 == 48 + a % 10);
        assert(crate::text::digit_char(b % 10) as u32 == 48 + b % 10);
        assert(a % 10 == b % 10);
        assert(decimal(a).drop_last() == decimal(a / 10));
        assert(decimal(b).drop_last() == decimal(b / 10));
        lemma_decimal_injective(a / 10, b / 10);
        assert(a == (a / 10) * 10 + a % 10);
        assert(b == (b / 10) * 10 + b % 10);
    } else if a < 10 {
        assert(decimal(a).len() == 1);
    } else {
        assert(decimal(b).len() == 1);
    }
}

/// Different numbers give different suffixed names.
proof fn lemma_suffixed_injective(name: Seq<char>, a: nat, b: nat)
    requires
        suffixed(name, a) == suffixed(name, b),
    ensures
        a == b,
{
    reveal_strlit("$");
    let k = name.len() + 1;
    assert(suffixed(name, a).subrange(k as int, suffixed(name, a).len() as int) =~= decimal(a));
    assert(suffixed(name, b).subrange(k as int, suffixed(name, b).len() as int) =~= decimal(b));
    lemma_decimal_injective(a, b);
}

/// Among `name$0` ... `name$n`, one is not among `n` names.
proof fn lemma_fresh_exists(seen: Seq<Seq<char>>, name: Seq<char>)
    ensures
        exists|j: nat| j <= seen.len() && !seen.contains(#[trigger] suffixed(name, j)),
{
    let n = seen.len() as int;
    if forall|j: nat| j <= seen.len() ==> seen.contains(#[trigger] suffixed(name, j)) {
        let x = vstd::set_lib::set_int_range(0, n + 1);
        let f = |j: int| choose|k: int| 0 <= k < n && seen[k] == suffixed(name, j as nat);
        let y = x.map(f);
        assert forall|j: int| x.contains(j) implies 0 <= #[trigger] f(j) < n && seen[f(j)] == suffixed(name, j as nat) by {
            assert(seen.contains(suffixed(name, j as nat)));
        }
        assert(vstd::relations::injective_on(f, x)) by {
            assert forall|a: int, b: int| x.contains(a) && x.contains(b) && #[trigger] f(a) == #[trigger] f(b) implies a == b by {
                lemma_suffixed_injective(name, a as nat, b as nat);
            }
        }
        vstd::set_lib::lemma_int_range(0, n + 1);
        vstd::set_lib::lemma_map_size(x, y, f);
        let r = vstd::set_lib::set_int_range(0, n);
        assert(y.subset_of(r)) by {
            assert forall|k: int| y.contains(k) implies r.contains(k) by {
                let j = choose|j: int| x.contains(j) && f(j) == k;
            }
        }
        vstd::set_lib::lemma_int_range(0, n);
        vstd::set_lib::lemma_len_subset(y, r);
        assert(false);
    }
}

/// The first of `name$0`, `name$1`, ... that is not among `seen` (one of
/// the first `seen.len() + 1` of them never is).
fn fresh_name(seen: &Vec<String>, name: &String) -> (r: String)
    ensures
        exists|k: nat|
            r@ == suffixed(name@, k) && !name_views(seen@).contains(r@) && forall|j: nat|
                j < k ==> name_views(seen@).contains(#[trigger] suffixed(name@, j)),
{
    proof {
        lemma_fresh_exists(name_views(seen@), name@);
    }
    let mut i: u64 = 0;
    let n = seen.len() as u64;
    loop
        invariant
            n == seen@.len(),
            i <= n,
            forall|j: nat| j < i ==> name_views(seen@).contains(#[trigger] suffixed(name@, j)),
            exists|j: nat| j <= seen@.len() && !name_views(seen@).contains(#[trigger] suffixed(name@, j)),
        decreases n - i,
    {
        let mut cand = name.clone();
        push_char(&mut cand, '$');
        push_decimal(&mut cand, i);
        proof {
            reveal_strlit("$");
            assert(cand@ =~= suffixed(name@, i as nat));
        }
        if !contains_name(seen, &cand) {
            return cand;
        }
        proof {
            if i == n {
                let j = choose|j: nat| j <= seen@.len() && !name_views(seen@).contains(#[trigger] suffixed(name@, j));
                if j < i {
                    assert(name_views(seen@).contains(suffixed(name@, j)));
                }
                assert(false);
            }
        }
        i = i + 1;
    }
}

/// Why a program could not be written.
pub enum BundleError {
    /// The translation of the module at this index found these errors.
    Module(usize, Vec<hyp::ParseError>),
    /// Something could not be written: a reference to a local or module
    /// that does not exist, or a builtin that has no value.
    Unwritable,
    /// The sources of the modules together are too large to be held.
    TooLarge,
}

/// The total length of the modules' sources.
pub open spec fn sum_src(mods: Seq<ModuleInfo>) -> nat
    decreases mods.len(),
{
    if mods.len() == 0 {
        0
    } else {
        sum_src(mods.drop_last()) + mods.last().src@.len()
    }
}

/// The binary bundle holds no more bytes than all the sources together.
proof fn lemma_bundle_len(mods: Seq<ModuleInfo>)
    ensures
        binary::bundler::spec_bundle(mods).0.len() + binary::bundler::spec_bundle(mods).1.len() <= sum_src(mods),
    decreases mods.len(),
{
    if mods.len() > 0 {
        lemma_bundle_len(mods.drop_last());
    }
}

/// The total length of the modules' sources, when it fits in a `usize`.
fn total_src_len(infos: &Vec<ModuleInfo>) -> (r: Option<usize>)
    ensures
        r matches Some(t) ==> t == sum_src(infos@),
        r is None ==> sum_src(infos@) > usize::MAX,
{
    let mut total: usize = 0;
    let mut i: usize = 0;
    while i < infos.len()
        invariant
            i <= infos@.len(),
            total == sum_src(infos@.take(i as int)),
        decreases infos@.len() - i,
    {
        assert(infos@.take(i + 1).drop_last() =~= infos@.take(i as int));
        let l = infos[i].src.len();
        if total > usize::MAX - l {
            proof {
                lemma_sum_src_prefix(infos@, i + 1);
            }
            return None;
        }
        total = total + l;
        i = i + 1;
    }
    assert(infos@.take(i as int) =~= infos@);
    Some(total)
}

/// The sources of a prefix of the modules are no longer than all of them.
proof fn lemma_sum_src_prefix(mods: Seq<ModuleInfo>, k: int)
    requires
        0 <= k <= mods.len(),
    ensures
        sum_src(mods.take(k)) <= sum_src(mods),
    decreases mods.len(),
{
    if k < mods.len() {
        assert(mods.drop_last().take(k) =~= mods.take(k));
        lemma_sum_src_prefix(mods.drop_last(), k);
    } else {
        assert(mods.take(k) =~= mods);
    }
}

/// The first GLSL module whose translation found errors or could not be
/// written, if any.
fn first_glsl_failure(glsl: &Vec<(usize, BundledModule)>) -> (r: Option<usize>)
    ensures
        r matches Some(g) ==> g < glsl@.len() && (glsl@[g as int].1.errors@.len() > 0 || !glsl@[g as int].1.ok),
        r is None ==> forall|i: int| #![trigger glsl@[i]]
            0 <= i < glsl@.len() ==> glsl@[i].1.errors@.len() == 0 && glsl@[i].1.ok,
{
    let mut g: usize = 0;
    while g < glsl.len()
        invariant
            g <= glsl@.len(),
            forall|i: int| #![trigger glsl@[i]] 0 <= i < g ==> glsl@[i].1.errors@.len() == 0 && glsl@[i].1.ok,
        decreases glsl@.len() - g,
    {
        if glsl[g].1.errors.len() > 0 || !glsl[g].1.ok {
            return Some(g);
        }
        assert(glsl@[g as int].1.errors@.len() == 0 && glsl@[g as int].1.ok);
        g = g + 1;
    }
    None
}

/// Renaming locals does not change the binary bundle.
proof fn lemma_bundle_same_but_names(a: Seq<ModuleInfo>, b: Seq<ModuleInfo>)
    requires
        same_but_names(a, b),
    ensures
        binary::bundler::spec_bundle(a) == binary::bundler::spec_bundle(b),
    decreases a.len(),
{
    if a.len() > 0 {
        let a1 = a.drop_last();
        let b1 = b.drop_last();
        assert forall|i: int| 0 <= i < a1.len() implies #[trigger] b1[i] == (ModuleInfo { locals: b1[i].locals, ..a1[i] })
            && b1[i].locals@.len() == a1[i].locals@.len() by {
            assert(b[i] == (ModuleInfo { locals: b[i].locals, ..a[i] }));
        }
        assert forall|i: int, j: int|
            0 <= i < a1.len() && 0 <= j < a1[i].locals@.len() implies #[trigger] b1[i].locals@[j] == (LocalDef {
                name: b1[i].locals@[j].name,
                ..a1[i].locals@[j]
            }) by {
            assert(b[i].locals@[j] == (LocalDef { name: b[i].locals@[j].name, ..a[i].locals@[j] }));
        }
        lemma_bundle_same_but_names(a1, b1);
        assert(b[a.len() - 1] == (ModuleInfo { locals: b[a.len() - 1].locals, ..a[a.len() - 1] }));
    }
}

/// The name of local `x.1` of module `x.0`.
pub open spec fn item_name(infos: Seq<ModuleInfo>, x: (u32, u32)) -> Seq<char> {
    infos[x.0 as int].locals@[x.1 as int].name@
}

/// The names of the locals of `items`, in order.
pub open spec fn node_names(infos: Seq<ModuleInfo>, items: Seq<((u32, u32), usize)>) -> Seq<Seq<char>> {
    Seq::new(items.len(), |i: int| item_name(infos, items[i].0))
}

/// The local `x` is an item of `items`.
pub open spec fn in_items(items: Seq<((u32, u32), usize)>, x: (u32, u32)) -> bool {
    exists|i: int| #![trigger items[i]] 0 <= i < items.len() && items[i].0 == x
}

/// The local `x` is an item of some node of `t`.
pub open spec fn in_tree(t: TreeModel<(u32, u32)>, x: (u32, u32)) -> bool
    decreases t,
{
    in_items(t.items, x) || in_trees(t.children, x)
}

/// The local `x` is an item of some node of one of the trees `chs`.
pub open spec fn in_trees(chs: Seq<TreeModel<(u32, u32)>>, x: (u32, u32)) -> bool
    decreases chs,
{
    chs.len() > 0 && (in_trees(chs.drop_last(), x) || in_tree(chs.last(), x))
}

/// Each local is an item of at most one node of `t`, once.
pub open spec fn unique_tree(t: TreeModel<(u32, u32)>) -> bool
    decreases t,
{
    &&& forall|i: int, j: int| 0 <= i < j < t.items.len() ==> #[trigger] t.items[i].0 != #[trigger] t.items[j].0
    &&& forall|x: (u32, u32)| !(#[trigger] in_items(t.items, x) && in_trees(t.children, x))
    &&& unique_trees(t.children)
}

/// Each local is an item of at most one node of the trees `chs`, once.
pub open spec fn unique_trees(chs: Seq<TreeModel<(u32, u32)>>) -> bool
    decreases chs,
{
    chs.len() == 0 || (unique_trees(chs.drop_last()) && unique_tree(chs.last()) && forall|x: (u32, u32)|
        !(#[trigger] in_trees(chs.drop_last(), x) && in_tree(chs.last(), x)))
}

/// Every item of `items` is a local of a module of `infos`.
pub open spec fn items_refs_ok(infos: Seq<ModuleInfo>, items: Seq<((u32, u32), usize)>) -> bool {
    forall|i: int|
        #![trigger items[i]]
        0 <= i < items.len() ==> items[i].0.0 < infos.len() && items[i].0.1 < infos[items[i].0.0 as int].locals@.len()
}

/// Every item of `t` is a local of a module of `infos`.
pub open spec fn refs_ok(infos: Seq<ModuleInfo>, t: TreeModel<(u32, u32)>) -> bool
    decreases t,
{
    items_refs_ok(infos, t.items) && refs_ok_all(infos, t.children)
}

pub open spec fn refs_ok_all(infos: Seq<ModuleInfo>, chs: Seq<TreeModel<(u32, u32)>>) -> bool
    decreases chs,
{
    chs.len() == 0 || (refs_ok_all(infos, chs.drop_last()) && refs_ok(infos, chs.last()))
}

/// No two items of a node of `t` share a name, nor does an item share a
/// name with an item of a node above it or with a name of `above`.
pub open spec fn names_apart(infos: Seq<ModuleInfo>, t: TreeModel<(u32, u32)>, above: Set<Seq<char>>) -> bool
    decreases t,
{
    let names = node_names(infos, t.items);
    &&& forall|i: int, j: int| 0 <= i < j < names.len() ==> #[trigger] names[i] != #[trigger] names[j]
    &&& forall|i: int| 0 <= i < names.len() ==> !above.contains(#[trigger] names[i])
    &&& apart_all(infos, t.children, above.union(names.to_set()))
}

/// Each of the trees `chs` has its names apart from `above`.
pub open spec fn apart_all(infos: Seq<ModuleInfo>, chs: Seq<TreeModel<(u32, u32)>>, above: Set<Seq<char>>) -> bool
    decreases chs,
{
    chs.len() == 0 || (apart_all(infos, chs.drop_last(), above) && names_apart(infos, chs.last(), above))
}

/// The least `k` for which `name$k` is not among `taken`.
pub open spec fn least_free(taken: Set<Seq<char>>, name: Seq<char>) -> nat {
    choose|k: nat| !taken.contains(suffixed(name, k)) && forall|j: nat| j < k ==> taken.contains(#[trigger] suffixed(name, j))
}

/// The name that a local named `name` gets where the names `taken` are
/// taken: its own when it is free, else `name$k` for the least `k` that
/// makes it free.
pub open spec fn pick_name(taken: Set<Seq<char>>, name: Seq<char>) -> Seq<char> {
    if taken.contains(name) {
        suffixed(name, least_free(taken, name))
    } else {
        name
    }
}

/// Each local of `t` is named in `new` as `pick_name` names it from its
/// name in `old`, the names `above` and those of the items before it in its
/// node being taken; below a node, its names are taken too.
pub open spec fn renamed_as(
    old: Seq<ModuleInfo>,
    new: Seq<ModuleInfo>,
    t: TreeModel<(u32, u32)>,
    above: Set<Seq<char>>,
) -> bool
    decreases t,
{
    let names = node_names(new, t.items);
    &&& forall|i: int|
        0 <= i < names.len() ==> #[trigger] names[i] == pick_name(
            above.union(names.take(i).to_set()),
            item_name(old, t.items[i].0),
        )
    &&& renamed_all(old, new, t.children, above.union(names.to_set()))
}

/// Each of the trees `chs` is named as `renamed_as` says, below `above`.
pub open spec fn renamed_all(
    old: Seq<ModuleInfo>,
    new: Seq<ModuleInfo>,
    chs: Seq<TreeModel<(u32, u32)>>,
    above: Set<Seq<char>>,
) -> bool
    decreases chs,
{
    chs.len() == 0 || (renamed_all(old, new, chs.drop_last(), above) && renamed_as(old, new, chs.last(), above))
}

/// `name$k` is the first free one: it is the name `pick_name` gives.
proof fn lemma_pick_name(taken: Set<Seq<char>>, name: Seq<char>, k: nat)
    requires
        taken.contains(name),
        !taken.contains(suffixed(name, k)),
        forall|j: nat| j < k ==> taken.contains(#[trigger] suffixed(name, j)),
    ensures
        pick_name(taken, name) == suffixed(name, k),
{
    let k2 = least_free(taken, name);
    assert(!taken.contains(suffixed(name, k2)) && forall|j: nat| j < k2 ==> taken.contains(#[trigger] suffixed(name, j)));
    if k2 < k {
        assert(taken.contains(suffixed(name, k2)));
    }
    if k < k2 {
        assert(taken.contains(suffixed(name, k)));
    }
}

/// Renaming as `renamed_as` says depends only on the names of the tree's
/// locals, before and after.
proof fn lemma_renamed_as_frame(
    a: Seq<ModuleInfo>,
    b: Seq<ModuleInfo>,
    c: Seq<ModuleInfo>,
    d: Seq<ModuleInfo>,
    t: TreeModel<(u32, u32)>,
    above: Set<Seq<char>>,
)
    requires
        renamed_as(a, c, t, above),
        forall|x: (u32, u32)| #[trigger] in_tree(t, x) ==> item_name(a, x) == item_name(b, x) && item_name(c, x) == item_name(d, x),
    ensures
        renamed_as(b, d, t, above),
    decreases t,
{
    assert forall|i: int| 0 <= i < t.items.len() implies #[trigger] node_names(d, t.items)[i] == node_names(c, t.items)[i]
        && item_name(a, t.items[i].0) == item_name(b, t.items[i].0) by {
        assert(in_items(t.items, t.items[i].0));
        assert(in_tree(t, t.items[i].0));
    }
    assert(node_names(d, t.items) =~= node_names(c, t.items));
    assert forall|x: (u32, u32)| #[trigger] in_trees(t.children, x) implies item_name(a, x) == item_name(b, x) && item_name(c, x) == item_name(d, x) by {
        assert(in_tree(t, x));
    }
    lemma_renamed_all_frame(a, b, c, d, t.children, above.union(node_names(c, t.items).to_set()));
}

proof fn lemma_renamed_all_frame(
    a: Seq<ModuleInfo>,
    b: Seq<ModuleInfo>,
    c: Seq<ModuleInfo>,
    d: Seq<ModuleInfo>,
    chs: Seq<TreeModel<(u32, u32)>>,
    above: Set<Seq<char>>,
)
    requires
        renamed_all(a, c, chs, above),
        forall|x: (u32, u32)| #[trigger] in_trees(chs, x) ==> item_name(a, x) == item_name(b, x) && item_name(c, x) == item_name(d, x),
    ensures
        renamed_all(b, d, chs, above),
    decreases chs,
{
    if chs.len() > 0 {
        assert forall|x: (u32, u32)| #[trigger] in_trees(chs.drop_last(), x) implies item_name(a, x) == item_name(b, x)
            && item_name(c, x) == item_name(d, x) by {
            assert(in_trees(chs, x));
        }
        lemma_renamed_all_frame(a, b, c, d, chs.drop_last(), above);
        assert forall|x: (u32, u32)| #[trigger] in_tree(chs.last(), x) implies item_name(a, x) == item_name(b, x)
            && item_name(c, x) == item_name(d, x) by {
            assert(in_trees(chs, x));
        }
        lemma_renamed_as_frame(a, b, c, d, chs.last(), above);
    }
}

/// A local of one of the trees is a local of their list.
proof fn lemma_in_trees_index(chs: Seq<TreeModel<(u32, u32)>>, c: int, x: (u32, u32))
    requires
        0 <= c < chs.len(),
        in_tree(chs[c], x),
    ensures
        in_trees(chs, x),
    decreases chs.len(),
{
    if c < chs.len() - 1 {
        assert(chs.drop_last()[c] == chs[c]);
        lemma_in_trees_index(chs.drop_last(), c, x);
    }
}

/// A local of a list of trees is a local of one of them.
proof fn lemma_in_trees_witness(chs: Seq<TreeModel<(u32, u32)>>, x: (u32, u32)) -> (c: int)
    requires
        in_trees(chs, x),
    ensures
        0 <= c < chs.len(),
        in_tree(chs[c], x),
    decreases chs.len(),
{
    if in_tree(chs.last(), x) {
        chs.len() - 1
    } else {
        let c = lemma_in_trees_witness(chs.drop_last(), x);
        assert(chs.drop_last()[c] == chs[c]);
        c
    }
}

/// Each tree of a list whose references are valid has valid references.
proof fn lemma_refs_ok_index(infos: Seq<ModuleInfo>, chs: Seq<TreeModel<(u32, u32)>>, c: int)
    requires
        refs_ok_all(infos, chs),
        0 <= c < chs.len(),
    ensures
        refs_ok(infos, chs[c]),
    decreases chs.len(),
{
    if c < chs.len() - 1 {
        assert(chs.drop_last()[c] == chs[c]);
        lemma_refs_ok_index(infos, chs.drop_last(), c);
    }
}

/// Each tree of a list of unique trees is unique.
proof fn lemma_unique_each(chs: Seq<TreeModel<(u32, u32)>>, c: int)
    requires
        unique_trees(chs),
        0 <= c < chs.len(),
    ensures
        unique_tree(chs[c]),
    decreases chs.len(),
{
    if c < chs.len() - 1 {
        assert(chs.drop_last()[c] == chs[c]);
        lemma_unique_each(chs.drop_last(), c);
    }
}

/// Two trees of a list of unique trees share no local.
proof fn lemma_unique_index(chs: Seq<TreeModel<(u32, u32)>>, c: int, d: int, x: (u32, u32))
    requires
        unique_trees(chs),
        0 <= c < chs.len(),
        0 <= d < chs.len(),
        c != d,
    ensures
        !(in_tree(chs[c], x) && in_tree(chs[d], x)),
    decreases chs.len(),
{
    let n = chs.len() - 1;
    if c < n && d < n {
        assert(chs.drop_last()[c] == chs[c]);
        assert(chs.drop_last()[d] == chs[d]);
        lemma_unique_index(chs.drop_last(), c, d, x);
    } else if c == n {
        assert(chs.drop_last()[d] == chs[d]);
        if in_tree(chs[d], x) {
            lemma_in_trees_index(chs.drop_last(), d, x);
        }
    } else {
        assert(chs.drop_last()[c] == chs[c]);
        if in_tree(chs[c], x) {
            lemma_in_trees_index(chs.drop_last(), c, x);
        }
    }
}

/// A local of a tree whose references are valid exists.
proof fn lemma_in_tree_valid(infos: Seq<ModuleInfo>, t: TreeModel<(u32, u32)>, x: (u32, u32))
    requires
        refs_ok(infos, t),
        in_tree(t, x),
    ensures
        valid_local(infos, x),
    decreases t,
{
    if in_items(t.items, x) {
        let i = choose|i: int| #![trigger t.items[i]] 0 <= i < t.items.len() && t.items[i].0 == x;
    } else {
        let c = lemma_in_trees_witness(t.children, x);
        lemma_refs_ok_index(infos, t.children, c);
        lemma_in_tree_valid(infos, t.children[c], x);
    }
}

/// Names apart depend only on the names of the tree's locals.
proof fn lemma_names_apart_frame(a: Seq<ModuleInfo>, b: Seq<ModuleInfo>, t: TreeModel<(u32, u32)>, above: Set<Seq<char>>)
    requires
        names_apart(a, t, above),
        forall|x: (u32, u32)| #[trigger] in_tree(t, x) ==> item_name(a, x) == item_name(b, x),
    ensures
        names_apart(b, t, above),
    decreases t,
{
    assert forall|i: int| 0 <= i < t.items.len() implies #[trigger] node_names(b, t.items)[i] == node_names(a, t.items)[i] by {
        assert(in_items(t.items, t.items[i].0));
        assert(in_tree(t, t.items[i].0));
    }
    assert(node_names(b, t.items) =~= node_names(a, t.items));
    assert forall|x: (u32, u32)| #[trigger] in_trees(t.children, x) implies item_name(a, x) == item_name(b, x) by {
        assert(in_tree(t, x));
    }
    lemma_apart_all_frame(a, b, t.children, above.union(node_names(a, t.items).to_set()));
}

proof fn lemma_apart_all_frame(a: Seq<ModuleInfo>, b: Seq<ModuleInfo>, chs: Seq<TreeModel<(u32, u32)>>, above: Set<Seq<char>>)
    requires
        apart_all(a, chs, above),
        forall|x: (u32, u32)| #[trigger] in_trees(chs, x) ==> item_name(a, x) == item_name(b, x),
    ensures
        apart_all(b, chs, above),
    decreases chs,
{
    if chs.len() > 0 {
        assert forall|x: (u32, u32)| #[trigger] in_trees(chs.drop_last(), x) implies item_name(a, x) == item_name(b, x) by {
            assert(in_trees(chs, x));
        }
        lemma_apart_all_frame(a, b, chs.drop_last(), above);
        assert forall|x: (u32, u32)| #[trigger] in_tree(chs.last(), x) implies item_name(a, x) == item_name(b, x) by {
            assert(in_trees(chs, x));
        }
        lemma_names_apart_frame(a, b, chs.last(), above);
    }
}

/// Item references stay valid when only names change.
proof fn lemma_refs_ok_frame(a: Seq<ModuleInfo>, b: Seq<ModuleInfo>, t: TreeModel<(u32, u32)>)
    requires
        refs_ok(a, t),
        same_but_names(a, b),
    ensures
        refs_ok(b, t),
    decreases t,
{
    assert forall|i: int| 0 <= i < t.items.len() implies (#[trigger] t.items[i]).0.0 < b.len() && t.items[i].0.1
        < b[t.items[i].0.0 as int].locals@.len() by {
        assert(t.items[i].0.0 < a.len() && t.items[i].0.1 < a[t.items[i].0.0 as int].locals@.len());
        assert(b[t.items[i].0.0 as int].locals@.len() == a[t.items[i].0.0 as int].locals@.len());
    }
    lemma_refs_ok_all_frame(a, b, t.children);
}

proof fn lemma_refs_ok_all_frame(a: Seq<ModuleInfo>, b: Seq<ModuleInfo>, chs: Seq<TreeModel<(u32, u32)>>)
    requires
        refs_ok_all(a, chs),
        same_but_names(a, b),
    ensures
        refs_ok_all(b, chs),
    decreases chs,
{
    if chs.len() > 0 {
        lemma_refs_ok_all_frame(a, b, chs.drop_last());
        lemma_refs_ok_frame(a, b, chs.last());
    }
}

// ---------------------------------------------------------------------------
// What the printer writes

/// Whether an operator of precedence `op` needs parentheses in `slot`.
pub open spec fn need_paren(op: Prec, slot: Prec) -> bool {
    op.0 > slot.0 || (op.0 == slot.0 && op.1 != slot.1)
}

/// `t`, in parentheses when `p`.
pub open spec fn paren(p: bool, t: Seq<char>) -> Seq<char> {
    if p {
        "("@ + t + ")"@
    } else {
        t
    }
}

/// The pieces of a path joined by dots.
pub open spec fn dotted(path: Seq<String>) -> Seq<char>
    decreases path.len(),
{
    if path.len() == 0 {
        Seq::empty()
    } else if path.len() == 1 {
        path[0]@
    } else {
        dotted(path.drop_last()) + "."@ + path.last()@
    }
}

/// The text of a literal.
pub open spec fn lit_text(l: JsLit) -> Seq<char> {
    match l {
        JsLit::Int(v) => int_text(v as int),
        JsLit::Str(s) => str_lit_text(s@),
        JsLit::Bool(b) => if b {
            "true"@
        } else {
            "false"@
        },
        JsLit::Float(t) => js_float_text(t@),
    }
}

/// The name of local `index` of module `abs`, when there is one.
pub open spec fn local_name(infos: Seq<ModuleInfo>, abs: int, index: int) -> Option<Seq<char>> {
    if 0 <= abs < infos.len() && 0 <= index < infos[abs].locals@.len() {
        Some(infos[abs].locals@[index].name@)
    } else {
        None
    }
}

/// What the printer reads of the bundler: the modules, the current
/// module, where the GLSL functions are, the WebAssembly offsets and the
/// indentation level.
pub type PrintCtx = (Seq<ModuleInfo>, usize, Seq<((u32, u32), usize)>, Seq<(String, u64)>, u32);

/// What the printer reads of `b`.
pub open spec fn ctx(b: JsBundler) -> PrintCtx {
    (b.module_infos@, b.current_module, b.glsl_fn_map@, b.wasm_offsets@, b.indent_len)
}

/// One indentation level more (it stays at its largest value).
pub open spec fn deeper(c: PrintCtx) -> PrintCtx {
    (c.0, c.1, c.2, c.3, if c.4 < u32::MAX {
        (c.4 + 1) as u32
    } else {
        c.4
    })
}

/// Two spaces per indentation level.
pub open spec fn indent_text(n: nat) -> Seq<char>
    decreases n,
{
    if n == 0 {
        Seq::empty()
    } else {
        indent_text((n - 1) as nat) + "  "@
    }
}

/// The text, or nothing.
pub open spec fn or_empty(o: Option<Seq<char>>) -> Seq<char> {
    match o {
        Some(t) => t,
        None => Seq::empty(),
    }
}

/// The precedence `p` grouping on the left, on the right, on either side.
pub open spec fn left_of(p: Prec) -> Prec {
    Prec(p.0, -1i32)
}

pub open spec fn right_of(p: Prec) -> Prec {
    Prec(p.0, 1)
}

pub open spec fn either_of(p: Prec) -> Prec {
    Prec(p.0, 0)
}

/// What a reference to local `local` of module `abs` is written as: a GLSL
/// function is its module's name (indexed when the module has several
/// functions), another GLSL local is its name as a string, a JavaScript
/// local its name.
pub open spec fn member_text(c: PrintCtx, abs: u32, local: u32) -> Option<Seq<char>> {
    if abs < c.0.len() && local < c.0[abs as int].locals@.len() {
        let mi = c.0[abs as int];
        let l = mi.locals@[local as int];
        if mi.language == Language::Glsl {
            if l.ty is Fn {
                match fn_map_lookup(c.2, (abs, local)) {
                    Some(ai) => Some(
                        mi.name@ + if ai == usize::MAX {
                            Seq::empty()
                        } else {
                            "["@ + decimal(ai as nat) + "]"@
                        },
                    ),
                    None => Some("<invalid glsl function ref>"@),
                }
            } else {
                Some(str_lit_text(l.name@))
            }
        } else {
            Some(l.name@)
        }
    } else {
        None
    }
}

/// The offset recorded last for the WebAssembly export `key`.
pub open spec fn offset_lookup(m: Seq<(String, u64)>, key: Seq<char>) -> Option<u64>
    decreases m.len(),
{
    if m.len() == 0 {
        None
    } else if m.last().0@ == key {
        Some(m.last().1)
    } else {
        offset_lookup(m.drop_last(), key)
    }
}

/// What a leaf of the tree is written as in `slot` (`None` for inner nodes
/// and for references to what does not exist).
pub open spec fn js_leaf_text(c: PrintCtx, a: JsAst, slot: Prec) -> Option<Seq<char>> {
    match a {
        JsAst::Break => Some("break"@),
        JsAst::Undefined => Some(paren(need_paren(js_prec_of(17), slot), "void 0"@)),
        JsAst::Lit { lit } => Some(lit_text(lit)),
        JsAst::Path { path } => Some(paren(need_paren(js_prec_of(0), slot), dotted(path@))),
        JsAst::Builtin { builtin } => if builtin is Wasm {
            Some("wasm"@)
        } else {
            None
        },
        JsAst::Use { .. } => Some(Seq::empty()),
        JsAst::Local { index } => local_name(c.0, c.1 as int, index as int),
        JsAst::ModuleRef { abs_index } => Some(
            "/*not found*/ "@ + if abs_index < c.0.len() {
                c.0[abs_index as int].name@
            } else {
                Seq::empty()
            },
        ),
        JsAst::ModuleMember { abs_index, local_index } => member_text(c, abs_index, local_index),
        JsAst::Field { base, member } => if *base is Builtin && base->builtin is Wasm {
            match offset_lookup(c.3, member@) {
                Some(o) => Some(decimal(o as nat)),
                None => Some(paren(need_paren(js_prec_of(0), slot), "wasm."@ + member@)),
            }
        } else {
            None
        },
        _ => None,
    }
}

/// What the tree `a` is written as in `slot`, as an expression when
/// `must`: leaves as `js_leaf_text` says (nothing for a reference to what
/// does not exist), operators with parentheses where their precedence
/// needs them, blocks and bodies as `stmts_text` says, loops as `for`, an
/// `if` as `c ? a : b` where an expression is needed and it is one.
pub open spec fn js_text(c: PrintCtx, a: JsAst, slot: Prec, must: bool) -> Seq<char>
    decreases a, 3nat, 0nat,
{
    let max = js_prec_of(16);
    match a {
        JsAst::Fn { index, args, expr, .. } => "function "@ + or_empty(local_name(c.0, c.1 as int, index as int))
            + "("@ + patterns_text(c, args@) + ") "@ + js_text(c, *expr, max, false) + "\n"@,
        JsAst::Call { func, args } => js_text(c, *func, js_prec_of(2), true) + "("@ + list_text(
            c,
            args@,
            args@.len(),
        ) + ")"@,
        JsAst::Block { stmts } => stmts_text(c, stmts@, slot != max, slot),
        JsAst::NewObject { assignments } => "{"@ + object_text(c, assignments@, assignments@.len()) + "}"@,
        JsAst::NewCtor { ctor, params } => "new "@ + js_text(c, *ctor, left_of(js_prec_of(1)), true) + "("@
            + list_text(c, params@, params@.len()) + ")"@,
        JsAst::Global { index, constant, value } => (if constant {
            "const "@
        } else {
            "var "@
        }) + or_empty(local_name(c.0, c.1 as int, index as int)) + " = "@ + js_text(
            c,
            *value,
            right_of(js_prec_of(14)),
            true,
        ) + ";"@,
        JsAst::Locals { local_indexes, values } => "var "@ + locals_text(
            c,
            local_indexes@,
            values@,
            local_indexes@.len(),
        ) + ";"@,
        JsAst::Assign { left, right } => paren(
            need_paren(js_prec_of(14), slot),
            js_text(c, *left, left_of(js_prec_of(14)), true) + " = "@ + js_text(
                c,
                *right,
                right_of(js_prec_of(14)),
                true,
            ),
        ),
        JsAst::Array { elems } => "["@ + list_text(c, elems@, elems@.len()) + "]"@,
        JsAst::If { cond, then_branch, else_branch } => if must && crate::js_ast::spec_is_expr(a) {
            paren(
                need_paren(js_prec_of(13), slot),
                js_text(c, *cond, max, true) + " ? "@ + stmts_text(c, then_branch@, true, js_prec_of(13))
                    + " : "@ + match else_branch {
                    Some(e) => js_text(c, *e, js_prec_of(13), true),
                    None => "0"@,
                },
            )
        } else {
            "if ("@ + js_text(c, *cond, max, true) + ") "@ + stmts_text(c, then_branch@, true, max)
                + match else_branch {
                Some(e) => (if braces_semi(then_branch@) == NeedSemi::Yes {
                    ";\n"@
                } else {
                    Seq::empty()
                }) + " else "@ + js_text(c, *e, max, false),
                None => Seq::empty(),
            }
        },
        JsAst::While { cond, body } => "for (;"@ + js_text(c, *cond, max, false) + ";) "@ + stmts_text(
            c,
            body@,
            true,
            max,
        ),
        JsAst::For { pre, cond, post, body } => "for ("@ + js_text(c, *pre, max, false) + (if js_need_semi(
            *pre,
            max,
            false,
        ) == NeedSemi::Yes {
            ";"@
        } else {
            Seq::empty()
        }) + js_text(c, *cond, max, true) + ";"@ + js_text(c, *post, max, true) + ") "@ + stmts_text(
            c,
            body@,
            true,
            max,
        ),
        JsAst::Loop { body } => "for (;;) "@ + stmts_text(c, body@, true, max),
        JsAst::Unary { value, op } => paren(
            need_paren(unop_prec(op), slot),
            unop_text(op) + js_text(c, *value, right_of(unop_prec(op)), true),
        ),
        JsAst::Binary { left, op, right } => paren(
            need_paren(binop_prec(op), slot),
            js_text(c, *left, left_of(binop_prec(op)), true) + binop_text(op) + js_text(
                c,
                *right,
                right_of(binop_prec(op)),
                true,
            ),
        ),
        JsAst::Field { base, member } => if *base is Builtin && base->builtin is Wasm {
            or_empty(js_leaf_text(c, a, slot))
        } else if member@ == "new"@ {
            "new "@ + js_text(c, *base, left_of(js_prec_of(1)), true)
        } else {
            paren(
                need_paren(js_prec_of(0), slot),
                js_text(c, *base, left_of(js_prec_of(0)), true) + "."@ + member@,
            )
        },
        JsAst::Index { expr, index } => paren(
            need_paren(js_prec_of(0), slot),
            js_text(c, *expr, left_of(js_prec_of(0)), true) + "["@ + js_text(c, *index, max, true) + "]"@,
        ),
        JsAst::MethodCall { receiver, method, args } => (if method@ == "new"@ {
            "new "@ + js_text(c, *receiver, left_of(js_prec_of(1)), true)
        } else {
            js_text(c, *receiver, left_of(js_prec_of(0)), true) + "."@ + method@
        }) + "("@ + list_text(c, args@, args@.len()) + ")"@,
        JsAst::Lambda { inputs, body } => "function("@ + patterns_text(c, inputs@) + ") "@ + js_text(
            c,
            *body,
            max,
            false,
        ),
        JsAst::Return { value } => "return "@ + js_text(c, *value, max, true),
        _ => or_empty(js_leaf_text(c, a, slot)),
    }
}

/// The first `k` expressions of `items`, separated by `, `, each in the
/// place of an operand of the comma.
pub open spec fn list_text(c: PrintCtx, items: Seq<JsAst>, k: nat) -> Seq<char>
    decreases items, 1nat, k,
{
    if k == 0 || k > items.len() {
        Seq::empty()
    } else {
        list_text(c, items, (k - 1) as nat) + (if k > 1 {
            ", "@
        } else {
            Seq::empty()
        }) + js_text(c, items[k - 1], either_of(js_prec_of(15)), true)
    }
}

/// The first `k` fields of an object, `name: value`, separated by `, `.
pub open spec fn object_text(c: PrintCtx, fields: Seq<(String, JsAst)>, k: nat) -> Seq<char>
    decreases fields, 1nat, k,
{
    if k == 0 || k > fields.len() {
        Seq::empty()
    } else {
        object_text(c, fields, (k - 1) as nat) + (if k > 1 {
            ", "@
        } else {
            Seq::empty()
        }) + fields[k - 1].0@ + ": "@ + js_text(c, fields[k - 1].1, either_of(js_prec_of(15)), true)
    }
}

/// The first `k` locals of a declaration, separated by `, `, each with
/// ` = ` and its value when it has one.
pub open spec fn locals_text(c: PrintCtx, indexes: Seq<u32>, values: Seq<JsAst>, k: nat) -> Seq<char>
    decreases values, 1nat, k,
{
    if k == 0 || k > indexes.len() {
        Seq::empty()
    } else {
        locals_text(c, indexes, values, (k - 1) as nat) + (if k > 1 {
            ", "@
        } else {
            Seq::empty()
        }) + or_empty(local_name(c.0, c.1 as int, indexes[k - 1] as int)) + (if k - 1 < values.len() {
            " = "@ + js_text(c, values[k - 1], right_of(js_prec_of(14)), true)
        } else {
            Seq::empty()
        })
    }
}

/// Statements: bare, as expressions separated by commas (in parentheses
/// when there are several and `slot` needs them), when `can_skip` and they
/// are all expressions; else in braces, one per line, one level deeper.
pub open spec fn stmts_text(c: PrintCtx, s: Seq<JsAst>, can_skip: bool, slot: Prec) -> Seq<char>
    decreases s, 2nat, 0nat,
{
    if can_skip && s.len() > 0 && crate::js_ast::all_expr(s) {
        paren(s.len() != 1 && need_paren(js_prec_of(15), slot), inner_text(c, s, s.len(), slot, true))
    } else {
        "{\n"@ + inner_text(deeper(c), s, s.len(), js_prec_of(16), false) + indent_text(c.4 as nat) + "}"@
    }
}

/// The first `k` of the statements `s`: separated by `, ` when `commas`,
/// else each indented on a line of its own with `;` after those that need
/// one. A single statement takes `slot`, several the comma's place.
pub open spec fn inner_text(c: PrintCtx, s: Seq<JsAst>, k: nat, slot: Prec, commas: bool) -> Seq<char>
    decreases s, 1nat, k,
{
    let prec = if s.len() == 1 {
        slot
    } else {
        js_prec_of(15)
    };
    if k == 0 || k > s.len() {
        Seq::empty()
    } else {
        inner_text(c, s, (k - 1) as nat, slot, commas) + (if k > 1 && commas {
            ", "@
        } else {
            Seq::empty()
        }) + (if !commas {
            indent_text(c.4 as nat)
        } else {
            Seq::empty()
        }) + js_text(c, s[k - 1], prec, commas) + (if !commas {
            (if js_need_semi(s[k - 1], prec, commas) == NeedSemi::Yes {
                ";"@
            } else {
                Seq::empty()
            }) + "\n"@
        } else {
            Seq::empty()
        })
    }
}

/// The imports handed to a WebAssembly instance: `name: name` for each,
/// separated by `, `.
pub open spec fn imports_text(names: Seq<String>) -> Seq<char>
    decreases names.len(),
{
    if names.len() == 0 {
        Seq::empty()
    } else if names.len() == 1 {
        names[0]@ + ": "@ + names[0]@
    } else {
        imports_text(names.drop_last()) + ", "@ + names.last()@ + ": "@ + names.last()@
    }
}

/// The beginning of a program with a WebAssembly module.
pub open spec fn iife_begin_text(data: Seq<u8>, imports: Seq<String>) -> Seq<char> {
    "\n(function(window){\nvar m = new WebAssembly.Module(Uint8Array.from(atob('"@ + base64_standard(data)
        + "').split('').map(x => x.charCodeAt(0))));\nvar wasm = new WebAssembly.Instance(m, { i: {"@
        + imports_text(imports) + "} }).exports;\n"@
}

/// `s` without the `=` that end it.
pub open spec fn strip_padding(s: Seq<char>) -> Seq<char>
    decreases s.len(),
{
    if s.len() > 0 && s.last() == '=' {
        strip_padding(s.drop_last())
    } else {
        s
    }
}

/// Bytes read as the characters of the same codes.
pub open spec fn byte_chars(b: Seq<u8>) -> Seq<char> {
    Seq::new(b.len(), |i: int| b[i] as char)
}

/// The binary modules as JavaScript: one array of byte values made of the
/// bytes safe for a string, as they are, followed by the others, in
/// Base64 without its padding; nothing when there are no bytes.
pub open spec fn bin_text(js_safe: Seq<u8>, b64: Seq<u8>) -> Seq<char> {
    if js_safe.len() == 0 && b64.len() == 0 {
        Seq::empty()
    } else {
        "var $bin=("@ + (if js_safe.len() > 0 {
            "\""@ + byte_chars(js_safe) + "\""@
        } else {
            Seq::empty()
        }) + (if b64.len() > 0 {
            (if js_safe.len() > 0 {
                "+"@
            } else {
                Seq::empty()
            }) + "atob(\""@ + strip_padding(base64_standard(b64)) + "\")"@
        } else {
            Seq::empty()
        }) + ").split('').map(x=>x.charCodeAt(0));"@
    }
}

/// What a parameter pattern is written as: a local's name (nothing when
/// it does not exist), or the patterns in brackets.
pub open spec fn pattern_text(c: PrintCtx, p: JsPattern) -> Seq<char>
    decreases p,
{
    match p {
        JsPattern::Local(i) => or_empty(local_name(c.0, c.1 as int, i as int)),
        JsPattern::Array(ps) => "["@ + patterns_text(c, ps@) + "]"@,
    }
}

/// Patterns separated by `, `.
pub open spec fn patterns_text(c: PrintCtx, ps: Seq<JsPattern>) -> Seq<char>
    decreases ps,
{
    if ps.len() == 0 {
        Seq::empty()
    } else if ps.len() == 1 {
        pattern_text(c, ps[0])
    } else {
        patterns_text(c, ps.drop_last()) + ", "@ + pattern_text(c, ps.last())
    }
}

/// The nodes written by `leaf_to_js`.
pub open spec fn is_leaf(a: JsAst) -> bool {
    ||| a is Break
    ||| a is Undefined
    ||| a is Lit
    ||| a is Path
    ||| a is Builtin
    ||| a is Use
    ||| a is Local
    ||| a is ModuleRef
    ||| a is ModuleMember
}

/// An opening parenthesis when `p`.
pub open spec fn paren_open(p: bool) -> Seq<char> {
    if p {
        "("@
    } else {
        Seq::empty()
    }
}

/// Whether statements in braces end a statement without `;`: they do
/// unless they are written bare, as expressions.
pub open spec fn braces_semi(stmts: Seq<JsAst>) -> NeedSemi {
    if stmts.len() > 0 && crate::js_ast::all_expr(stmts) {
        NeedSemi::Yes
    } else {
        NeedSemi::No
    }
}

/// Whether a statement made of `a`, written in `slot`, needs a `;` after
/// it: not after functions, declarations and `use`, nor after a block in
/// braces or a loop or `if` whose body ends in braces.
pub open spec fn js_need_semi(a: JsAst, slot: Prec, must_be_expr: bool) -> NeedSemi
    decreases a,
{
    match a {
        JsAst::Fn { .. } | JsAst::Use { .. } | JsAst::Global { .. } | JsAst::Locals { .. } => NeedSemi::No,
        JsAst::Block { stmts } => if slot != js_prec_of(16) {
            braces_semi(stmts@)
        } else {
            NeedSemi::No
        },
        JsAst::If { then_branch, else_branch, .. } => if must_be_expr && crate::js_ast::spec_is_expr(a) {
            NeedSemi::Yes
        } else {
            match else_branch {
                Some(e) => js_need_semi(*e, js_prec_of(16), false),
                None => braces_semi(then_branch@),
            }
        },
        JsAst::While { body, .. } => braces_semi(body@),
        JsAst::For { body, .. } => braces_semi(body@),
        JsAst::Loop { body } => braces_semi(body@),
        _ => NeedSemi::Yes,
    }
}

// ---------------------------------------------------------------------------
// The bundler

/// Writes the modules as one JavaScript program: the GLSL modules as
/// strings of source, the binary modules as one byte array, and the
/// JavaScript modules' code, in dependency order, inside one function.
pub struct JsBundler<'a> {
    pub buf: String,
    pub indent_len: u32,
    pub current_module: usize,
    pub module_infos: Vec<ModuleInfo>,
    pub module_lambdas: &'a Vec<AstLambda>,
    /// For each GLSL function written, its (module, local) and its index in
    /// the module's array of sources (`usize::MAX` when it is alone).
    pub glsl_fn_map: Vec<((u32, u32), usize)>,
    pub wasm_offsets: Vec<(String, u64)>,
    /// False once something could not be written (a missing local, a
    /// builtin without a value).
    pub ok: bool,
}

/// Writing keeps what was written and the bundler's other state.
pub open spec fn js_writes(old: JsBundler, new: JsBundler) -> bool {
    &&& prefix_of(old.buf@, new.buf@)
    &&& new.indent_len == old.indent_len
    &&& new.current_module == old.current_module
    &&& new.module_infos == old.module_infos
    &&& new.module_lambdas == old.module_lambdas
    &&& new.glsl_fn_map == old.glsl_fn_map
    &&& new.wasm_offsets == old.wasm_offsets
    &&& new.ok ==> old.ok
}

/// `new` is `old` with `t` written.
pub open spec fn wrote(old: JsBundler, new: JsBundler, t: Seq<char>) -> bool {
    &&& new.buf@ == old.buf@ + t
    &&& js_writes(old, new)
    &&& new.ok == old.ok
}

impl<'a> JsBundler<'a> {
    pub fn new(module_infos: Vec<ModuleInfo>, module_lambdas: &'a Vec<AstLambda>) -> (r: JsBundler<'a>)
        ensures
            r.buf@.len() == 0,
            r.indent_len == 0,
            r.current_module == 0,
            r.module_infos == module_infos,
            r.module_lambdas == module_lambdas,
            r.glsl_fn_map@.len() == 0,
            r.wasm_offsets@.len() == 0,
            r.ok,
    {
        JsBundler {
            buf: String::new(),
            indent_len: 0,
            module_infos,
            module_lambdas,
            glsl_fn_map: Vec::new(),
            wasm_offsets: Vec::new(),
            current_module: 0,
            ok: true,
        }
    }

    /// Writes `t`.
    fn push_str(&mut self, t: &str)
        ensures
            wrote(*old(self), *final(self), t@),
    {
        self.buf.append(t);
    }

    fn push_ch(&mut self, c: char)
        ensures
            wrote(*old(self), *final(self), seq![c]),
    {
        push_char(&mut self.buf, c);
        assert(self.buf@ =~= old(self).buf@ + seq![c]);
    }

    /// Opens a parenthesis when an operator of precedence `op` needs one in
    /// `slot`, and tells whether it did.
    pub fn wrap_p(&mut self, slot: Prec, op: Prec) -> (r: bool)
        ensures
            r == (op.0 > slot.0 || (op.0 == slot.0 && op.1 != slot.1)),
            wrote(*old(self), *final(self), if r { "("@ } else { Seq::empty() }),
    {
        let p = op.need_paren(slot);
        if p {
            self.push_str("(");
        } else {
            assert(self.buf@ =~= old(self).buf@ + Seq::<char>::empty());
        }
        p
    }

    /// Closes the parenthesis that `wrap_p` opened, if it did.
    pub fn unwrap_p(&mut self, f: bool)
        ensures
            wrote(*old(self), *final(self), if f { ")"@ } else { Seq::empty() }),
    {
        if f {
            self.push_str(")");
        } else {
            assert(self.buf@ =~= old(self).buf@ + Seq::<char>::empty());
        }
    }

    /// Writes two spaces per indentation level.
    pub fn indent(&mut self)
        ensures
            wrote(*old(self), *final(self), indent_text(old(self).indent_len as nat)),
    {
        let mut i: u32 = 0;
        assert(self.buf@ =~= old(self).buf@ + indent_text(0));
        while i < self.indent_len
            invariant
                i <= self.indent_len,
                wrote(*old(self), *self, indent_text(i as nat)),
            decreases self.indent_len - i,
        {
            self.push_str("  ");
            i = i + 1;
            assert(self.buf@ =~= old(self).buf@ + indent_text(i as nat));
        }
    }

    /// Writes a string literal of `s` (see `str_lit_text`).
    pub fn str_lit(&mut self, s: &str)
        ensures
            wrote(*old(self), *final(self), str_lit_text(s@)),
    {
        let n = s.unicode_len();
        let mut i: usize = 0;
        let mut found = false;
        while i < n
            invariant
                i <= n,
                n == s@.len(),
                found <==> exists|j: int| 0 <= j < i && (s@[j] == '\r' || s@[j] == '\n'),
            decreases n - i,
        {
            let c = s.get_char(i);
            if c == '\r' || c == '\n' {
                found = true;
            }
            i = i + 1;
        }
        if found {
            self.push_ch('`');
            self.push_str(s);
            self.push_ch('`');
            assert(self.buf@ =~= old(self).buf@ + str_lit_text(s@));
        } else {
            self.push_ch('"');
            self.push_str(s);
            self.push_ch('"');
            assert(self.buf@ =~= old(self).buf@ + str_lit_text(s@));
        }
    }

    /// Writes the name of module `abs_index` (nothing, and not ok, when
    /// there is no such module).
    pub fn push_module_name(&mut self, abs_index: u32)
        ensures
            js_writes(*old(self), *final(self)),
            (abs_index as int) < old(self).module_infos@.len() ==> wrote(
                *old(self),
                *final(self),
                old(self).module_infos@[abs_index as int].name@,
            ),
            (abs_index as int) >= old(self).module_infos@.len() ==> final(self).buf@ == old(self).buf@,
    {
        if (abs_index as usize) < self.module_infos.len() {
            let name = self.module_infos[abs_index as usize].name.clone();
            self.push_str(name.as_str());
        } else {
            self.ok = false;
        }
    }

    /// Writes the name of local `index` of module `abs` (nothing, and not
    /// ok, when there is none).
    fn push_local_name(&mut self, abs: usize, index: u32)
        ensures
            js_writes(*old(self), *final(self)),
            abs < old(self).module_infos@.len() && index < old(self).module_infos@[abs as int].locals@.len()
                ==> wrote(
                *old(self),
                *final(self),
                old(self).module_infos@[abs as int].locals@[index as int].name@,
            ),
            final(self).buf@ == old(self).buf@ + or_empty(
                local_name(old(self).module_infos@, abs as int, index as int),
            ),
    {
        if abs < self.module_infos.len() && (index as usize) < self.module_infos[abs].locals.len() {
            let name = self.module_infos[abs].locals[index as usize].name.clone();
            self.push_str(name.as_str());
        } else {
            self.ok = false;
            assert(self.buf@ =~= old(self).buf@ + Seq::<char>::empty());
        }
    }

    pub fn write_iife_begin_plain(&mut self)
        ensures
            wrote(*old(self), *final(self), "(function(window){\n"@),
    {
        self.push_str("(function(window){\n");
    }

    /// Writes the beginning of the program with a WebAssembly module built
    /// from `wasm_data` (in Base64) and given `wasm_imports`.
    #[verifier::spinoff_prover]
    pub fn write_iife_begin(&mut self, wasm_data: &[u8], wasm_imports: &[String])
        ensures
            wrote(*old(self), *final(self), iife_begin_text(wasm_data@, wasm_imports@)),
    {
        self.push_str("\n(function(window){\nvar m = new WebAssembly.Module(Uint8Array.from(atob('");
        base64_append(wasm_data, &mut self.buf);
        self.push_str("').split('').map(x => x.charCodeAt(0))));\nvar wasm = new WebAssembly.Instance(m, { i: {");
        let ghost b1 = self.buf@;
        proof {
            let mid = b1.subrange(old(self).buf@.len() as int, b1.len() as int);
            assert(wasm_imports@.take(0) =~= Seq::<String>::empty());
            assert(b1 =~= old(self).buf@ + (mid + imports_text(wasm_imports@.take(0))));
        }
        let mut k: usize = 0;
        while k < wasm_imports.len()
            invariant
                k <= wasm_imports@.len(),
                wrote(*old(self), *self, b1.subrange(old(self).buf@.len() as int, b1.len() as int) + imports_text(wasm_imports@.take(k as int))),
                prefix_of(old(self).buf@, b1),
                b1.len() >= old(self).buf@.len(),
            decreases wasm_imports@.len() - k,
        {
            if k > 0 {
                self.push_str(", ");
            }
            self.push_str(wasm_imports[k].as_str());
            self.push_str(": ");
            self.push_str(wasm_imports[k].as_str());
            proof {
                let q = wasm_imports@.take(k + 1);
                assert(q.drop_last() =~= wasm_imports@.take(k as int));
                assert(q.last() == wasm_imports@[k as int]);
                let mid = b1.subrange(old(self).buf@.len() as int, b1.len() as int);
                assert(self.buf@ =~= old(self).buf@ + (mid + imports_text(q)));
            }
            k = k + 1;
        }
        assert(wasm_imports@.take(k as int) =~= wasm_imports@);
        self.push_str("} }).exports;\n");
        proof {
            let mid = b1.subrange(old(self).buf@.len() as int, b1.len() as int);
            assert(mid =~= "\n(function(window){\nvar m = new WebAssembly.Module(Uint8Array.from(atob('"@
                + base64_standard(wasm_data@)
                + "').split('').map(x => x.charCodeAt(0))));\nvar wasm = new WebAssembly.Instance(m, { i: {"@);
            assert(self.buf@ =~= old(self).buf@ + iife_begin_text(wasm_data@, wasm_imports@));
        }
    }

    pub fn write_iife_end(&mut self)
        ensures
            wrote(*old(self), *final(self), "})(this)"@),
    {
        self.push_str("})(this)");
    }

    /// The bytes in double quotes, each as the character of its code.
    fn quoted_bytes(b: &Vec<u8>) -> (t: String)
        ensures
            t@ == seq!['"'] + byte_chars(b@) + seq!['"'],
    {
        let mut t = String::new();
        push_char(&mut t, '"');
        let mut i: usize = 0;
        while i < b.len()
            invariant
                i <= b@.len(),
                t@ == seq!['"'] + byte_chars(b@.take(i as int)),
            decreases b@.len() - i,
        {
            push_char(&mut t, b[i] as char);
            i = i + 1;
            assert(t@ =~= seq!['"'] + byte_chars(b@.take(i as int)));
        }
        assert(b@.take(i as int) =~= b@);
        push_char(&mut t, '"');
        t
    }

    /// `atob("...")` of the bytes in Base64 without its padding.
    fn atob_text(b: &Vec<u8>) -> (t: String)
        ensures
            t@ == "atob(\""@ + strip_padding(base64_standard(b@)) + "\")"@,
    {
        let mut t = String::new();
        t.append("atob(\"");
        let mut enc = String::new();
        base64_append(b.as_slice(), &mut enc);
        let cs = glsl_bundler::chars_of(enc.as_str());
        let mut end = cs.len();
        assert(cs@.take(end as int) =~= cs@);
        while end > 0 && cs[end - 1] == '='
            invariant
                end <= cs@.len(),
                strip_padding(cs@) == strip_padding(cs@.take(end as int)),
            decreases end,
        {
            assert(cs@.take(end as int).drop_last() =~= cs@.take(end - 1));
            end = end - 1;
        }
        assert(cs@.take(end as int) =~= cs@.subrange(0, end as int));
        glsl_bundler::push_range(&mut t, &cs, 0, end);
        t.append("\")");
        proof {
            reveal_strlit("atob(\"");
            reveal_strlit("\")");
        }
        t
    }

    /// Writes the binary modules (see `bin_text`).
    pub fn write_bin(&mut self, bun: BundledModules)
        ensures
            wrote(*old(self), *final(self), bin_text(bun.js_safe@, bun.base64@)),
    {
        if bun.js_safe.len() > 0 || bun.base64.len() > 0 {
            self.push_str("var $bin=(");
            if bun.js_safe.len() > 0 {
                let q = Self::quoted_bytes(&bun.js_safe);
                self.push_str(q.as_str());
            }
            if bun.base64.len() > 0 {
                if bun.js_safe.len() > 0 {
                    self.push_str("+");
                }
                let a = Self::atob_text(&bun.base64);
                self.push_str(a.as_str());
            }
            self.push_str(").split('').map(x=>x.charCodeAt(0));");
            proof {
                reveal_strlit("\"");
                reveal_strlit("+");
                assert(self.buf@ =~= old(self).buf@ + bin_text(bun.js_safe@, bun.base64@));
            }
        } else {
            assert(self.buf@ =~= old(self).buf@ + bin_text(bun.js_safe@, bun.base64@));
        }
    }

    /// Writes the current module, a binary one, as `var name = "..."` with
    /// its source in Base64 (nothing, and not ok, when there is no such
    /// module).
    pub fn binary_to_js(&mut self)
        ensures
            js_writes(*old(self), *final(self)),
            old(self).current_module < old(self).module_infos@.len() ==> wrote(
                *old(self),
                *final(self),
                "var "@ + old(self).module_infos@[old(self).current_module as int].name@ + " = \""@
                    + base64_standard(old(self).module_infos@[old(self).current_module as int].src@)
                    + "\";"@,
            ),
    {
        let cur = self.current_module;
        if cur >= self.module_infos.len() {
            self.ok = false;
            return;
        }
        let name = self.module_infos[cur].name.clone();
        let mut enc = String::new();
        base64_append(self.module_infos[cur].src.as_slice(), &mut enc);
        self.push_str("var ");
        self.push_str(name.as_str());
        self.push_str(" = \"");
        self.push_str(enc.as_str());
        self.push_str("\";");
        assert(enc@ =~= base64_standard(old(self).module_infos@[cur as int].src@));
        assert(self.buf@ =~= old(self).buf@ + ("var "@ + name@ + " = \""@ + enc@ + "\";"@));
    }

    /// Writes a parameter pattern: a local's name, or `[` patterns `]`.
    pub fn pattern_to_js(&mut self, pat: &JsPattern)
        ensures
            js_writes(*old(self), *final(self)),
            final(self).buf@ == old(self).buf@ + pattern_text(ctx(*old(self)), *pat),
        decreases pat,
    {
        match pat {
            JsPattern::Local(i) => {
                let cur = self.current_module;
                self.push_local_name(cur, *i);
            },
            JsPattern::Array(subpats) => {
                self.push_str("[");
                self.patterns_to_js(subpats);
                self.push_str("]");
                assert(self.buf@ =~= old(self).buf@ + ("["@ + patterns_text(ctx(*old(self)), subpats@) + "]"@));
            },
        }
    }

    /// Writes patterns separated by commas.
    fn patterns_to_js(&mut self, subpats: &Vec<JsPattern>)
        ensures
            js_writes(*old(self), *final(self)),
            final(self).buf@ == old(self).buf@ + patterns_text(ctx(*old(self)), subpats@),
        decreases subpats,
    {
        let ghost c = ctx(*self);
        let mut k: usize = 0;
        assert(subpats@.take(0) =~= Seq::<JsPattern>::empty());
        assert(self.buf@ =~= old(self).buf@ + Seq::<char>::empty());
        while k < subpats.len()
            invariant
                k <= subpats@.len(),
                js_writes(*old(self), *self),
                c == ctx(*old(self)),
                self.buf@ == old(self).buf@ + patterns_text(c, subpats@.take(k as int)),
            decreases subpats@.len() - k,
        {
            let ghost q = subpats@.take(k + 1);
            proof {
                assert(q.drop_last() =~= subpats@.take(k as int));
                assert(q.last() == subpats@[k as int]);
            }
            if k > 0 {
                self.push_str(", ");
            }
            self.pattern_to_js(&subpats[k]);
            proof {
                if k == 0 {
                    assert(q[0] == subpats@[0]);
                }
                assert(self.buf@ =~= old(self).buf@ + patterns_text(c, q));
            }
            k = k + 1;
        }
        assert(subpats@.take(k as int) =~= subpats@);
    }

    /// The index of the GLSL function `key` in its module's array.
    fn glsl_fn_get(&self, key: (u32, u32)) -> (r: Option<usize>)
        ensures
            r == fn_map_lookup(self.glsl_fn_map@, key),
    {
        let mut i = self.glsl_fn_map.len();
        assert(self.glsl_fn_map@.take(i as int) =~= self.glsl_fn_map@);
        while i > 0
            invariant
                i <= self.glsl_fn_map@.len(),
                fn_map_lookup(self.glsl_fn_map@, key) == fn_map_lookup(self.glsl_fn_map@.take(i as int), key),
            decreases i,
        {
            assert(self.glsl_fn_map@.take(i as int).drop_last() =~= self.glsl_fn_map@.take(i - 1));
            let (k, v) = self.glsl_fn_map[i - 1];
            if k.0 == key.0 && k.1 == key.1 {
                return Some(v);
            }
            i = i - 1;
        }
        None
    }

    /// Writes `stmts` (see `inner_text`).
    pub fn stmts_inner_to_js(&mut self, stmts: &Vec<JsAst>, slot: Prec, commas: bool)
        ensures
            js_writes(*old(self), *final(self)),
            final(self).buf@ == old(self).buf@ + inner_text(ctx(*old(self)), stmts@, stmts@.len(), slot, commas),
        decreases stmts, 1nat,
    {
        let ghost c = ctx(*self);
        let prec = if stmts.len() == 1 {
            slot
        } else {
            prec_comma()
        };
        let mut i: usize = 0;
        assert(self.buf@ =~= old(self).buf@ + Seq::<char>::empty());
        while i < stmts.len()
            invariant
                i <= stmts@.len(),
                js_writes(*old(self), *self),
                c == ctx(*old(self)),
                prec == (if stmts@.len() == 1 {
                    slot
                } else {
                    js_prec_of(15)
                }),
                self.buf@ == old(self).buf@ + inner_text(c, stmts@, i as nat, slot, commas),
            decreases stmts@.len() - i,
        {
            let ghost b0 = self.buf@;
            if i > 0 && commas {
                self.push_str(", ");
            }
            let ghost b1 = self.buf@;
            if !commas {
                self.indent();
            }
            let ghost b2 = self.buf@;
            let need_semi = self.to_js(&stmts[i], prec, commas);
            let ghost b3 = self.buf@;
            if !commas {
                if need_semi == NeedSemi::Yes {
                    self.push_str(";");
                }
                self.push_str("\n");
            }
            proof {
                let sep = if i + 1 > 1 && commas {
                    ", "@
                } else {
                    Seq::<char>::empty()
                };
                let ind = if !commas {
                    indent_text(c.4 as nat)
                } else {
                    Seq::<char>::empty()
                };
                let tail = if !commas {
                    (if js_need_semi(stmts@[i as int], prec, commas) == NeedSemi::Yes {
                        ";"@
                    } else {
                        Seq::<char>::empty()
                    }) + "\n"@
                } else {
                    Seq::<char>::empty()
                };
                assert(b1 =~= b0 + sep);
                assert(b2 =~= b1 + ind);
                assert(self.buf@ =~= b3 + tail);
                assert(self.buf@ =~= old(self).buf@ + inner_text(c, stmts@, (i + 1) as nat, slot, commas));
            }
            i = i + 1;
        }
    }

    /// Writes statements (see `stmts_text`) and tells whether a `;` must
    /// follow.
    pub fn stmts_to_js(&mut self, stmts: &Vec<JsAst>, can_skip_braces: bool, slot: Prec) -> (r: NeedSemi)
        ensures
            js_writes(*old(self), *final(self)),
            final(self).buf@ == old(self).buf@ + stmts_text(ctx(*old(self)), stmts@, can_skip_braces, slot),
            r == (if can_skip_braces {
                braces_semi(stmts@)
            } else {
                NeedSemi::No
            }),
        decreases stmts, 2nat,
    {
        let ghost c = ctx(*self);
        if can_skip_braces && stmts.len() > 0 && crate::js_ast::all_is_expr(stmts) {
            let p = if stmts.len() != 1 {
                self.wrap_p(slot, prec_comma())
            } else {
                false
            };
            let ghost b1 = self.buf@;
            self.stmts_inner_to_js(stmts, slot, true);
            let ghost b2 = self.buf@;
            self.unwrap_p(p);
            proof {
                let t = inner_text(c, stmts@, stmts@.len(), slot, true);
                assert(self.buf@ =~= old(self).buf@ + paren(p, t));
            }
            NeedSemi::Yes
        } else {
            self.push_str("{\n");
            let level = self.indent_len;
            if level < u32::MAX {
                self.indent_len = level + 1;
            }
            let ghost b1 = self.buf@;
            assert(ctx(*self) == deeper(c));
            self.stmts_inner_to_js(stmts, prec_max(), false);
            let ghost b2 = self.buf@;
            self.indent_len = level;
            self.indent();
            self.push_str("}");
            proof {
                let t = inner_text(deeper(c), stmts@, stmts@.len(), js_prec_of(16), false);
                assert(b2 =~= b1 + t);
                assert(self.buf@ =~= old(self).buf@ + ("{\n"@ + t + indent_text(c.4 as nat) + "}"@));
            }
            NeedSemi::No
        }
    }

    /// Writes expressions separated by `, ` (see `list_text`).
    fn list_to_js(&mut self, items: &Vec<JsAst>)
        ensures
            js_writes(*old(self), *final(self)),
            final(self).buf@ == old(self).buf@ + list_text(ctx(*old(self)), items@, items@.len()),
        decreases items, 2nat,
    {
        let ghost c = ctx(*self);
        let slot = prec_comma().on_either();
        let mut i: usize = 0;
        assert(self.buf@ =~= old(self).buf@ + Seq::<char>::empty());
        while i < items.len()
            invariant
                i <= items@.len(),
                js_writes(*old(self), *self),
                c == ctx(*old(self)),
                slot == Prec(17, 0),
                self.buf@ == old(self).buf@ + list_text(c, items@, i as nat),
            decreases items@.len() - i,
        {
            let ghost b0 = self.buf@;
            if i > 0 {
                self.push_str(", ");
            }
            let ghost b1 = self.buf@;
            self.to_js(&items[i], slot, true);
            proof {
                let sep = if i + 1 > 1 {
                    ", "@
                } else {
                    Seq::<char>::empty()
                };
                assert(b1 =~= b0 + sep);
                assert(self.buf@ =~= old(self).buf@ + list_text(c, items@, (i + 1) as nat));
            }
            i = i + 1;
        }
    }

    /// Writes `name: value` pairs separated by `, ` (see `object_text`).
    fn object_to_js(&mut self, assignments: &Vec<(String, JsAst)>)
        ensures
            js_writes(*old(self), *final(self)),
            final(self).buf@ == old(self).buf@ + object_text(ctx(*old(self)), assignments@, assignments@.len()),
        decreases assignments, 2nat,
    {
        let ghost c = ctx(*self);
        let mut i: usize = 0;
        assert(self.buf@ =~= old(self).buf@ + Seq::<char>::empty());
        while i < assignments.len()
            invariant
                i <= assignments@.len(),
                js_writes(*old(self), *self),
                c == ctx(*old(self)),
                self.buf@ == old(self).buf@ + object_text(c, assignments@, i as nat),
            decreases assignments@.len() - i,
        {
            let ghost b0 = self.buf@;
            if i > 0 {
                self.push_str(", ");
            }
            let ghost b1 = self.buf@;
            self.push_str(assignments[i].0.as_str());
            self.push_str(": ");
            proof {
                assert(decreases_to!(*assignments => assignments@[i as int]));
                assert(decreases_to!(assignments@[i as int] => assignments@[i as int].1));
            }
            let ghost b2 = self.buf@;
            self.to_js(&assignments[i].1, prec_comma().on_either(), true);
            proof {
                let sep = if i + 1 > 1 {
                    ", "@
                } else {
                    Seq::<char>::empty()
                };
                assert(b1 =~= b0 + sep);
                assert(b2 =~= b1 + assignments@[i as int].0@ + ": "@);
                assert(self.buf@ =~= old(self).buf@ + object_text(c, assignments@, (i + 1) as nat));
            }
            i = i + 1;
        }
    }

    /// Writes `base.member` for a WebAssembly export: its recorded offset,
    /// or `wasm.member`.
    fn wasm_member_to_js(&mut self, member: &String, slot: Prec)
        ensures
            wrote(*old(self), *final(self), match offset_lookup(old(self).wasm_offsets@, member@) {
                Some(o) => decimal(o as nat),
                None => paren(need_paren(js_prec_of(0), slot), "wasm."@ + member@),
            }),
    {
        let mut i = self.wasm_offsets.len();
        assert(self.wasm_offsets@.take(i as int) =~= self.wasm_offsets@);
        while i > 0
            invariant
                i <= self.wasm_offsets@.len(),
                offset_lookup(self.wasm_offsets@, member@) == offset_lookup(
                    self.wasm_offsets@.take(i as int),
                    member@,
                ),
                *self == *old(self),
            decreases i,
        {
            assert(self.wasm_offsets@.take(i as int).drop_last() =~= self.wasm_offsets@.take(i - 1));
            if text_is(&self.wasm_offsets[i - 1].0, member.as_str()) {
                let o = self.wasm_offsets[i - 1].1;
                let mut t = String::new();
                push_decimal(&mut t, o);
                self.push_str(t.as_str());
                return;
            }
            i = i - 1;
        }
        let p = self.wrap_p(slot, prec_dot_bracket());
        self.push_str("wasm.");
        self.push_str(member.as_str());
        self.unwrap_p(p);
        proof {
            reveal_strlit("wasm.");
            reveal_strlit("(");
            reveal_strlit(")");
            assert(self.buf@ =~= old(self).buf@ + paren(need_paren(js_prec_of(0), slot), "wasm."@ + member@));
        }
    }

    /// Writes a leaf of the tree (see `js_leaf_text`). A reference to what
    /// does not exist, or a builtin other than `wasm`, writes nothing and
    /// leaves the bundler not ok.
    fn leaf_to_js(&mut self, ast: &JsAst, slot: Prec) -> (r: NeedSemi)
        requires
            is_leaf(*ast),
        ensures
            js_writes(*old(self), *final(self)),
            r == (if *ast is Use {
                NeedSemi::No
            } else {
                NeedSemi::Yes
            }),
            final(self).buf@ == old(self).buf@ + or_empty(js_leaf_text(ctx(*old(self)), *ast, slot)),
            (*ast is Builtin && !(ast->builtin is Wasm)) ==> !final(self).ok,
    {
        let ghost want = or_empty(js_leaf_text(ctx(*self), *ast, slot));
        match ast {
            JsAst::Break => {
                self.push_str("break");
                assert(self.buf@ =~= old(self).buf@ + want);
                NeedSemi::Yes
            },
            JsAst::Undefined => {
                let p = self.wrap_p(slot, prec_unary_plus_minus());
                self.push_str("void 0");
                self.unwrap_p(p);
                proof {
                    assert(self.buf@ =~= old(self).buf@ + paren(p, "void 0"@));
                }
                assert(self.buf@ =~= old(self).buf@ + want);
                NeedSemi::Yes
            },
            JsAst::Lit { lit } => {
                match lit {
                    JsLit::Int(v) => {
                        let mut t = String::new();
                        push_int(&mut t, *v);
                        assert(t@ =~= int_text(*v as int));
                        self.push_str(t.as_str());
                    },
                    JsLit::Str(v) => {
                        self.str_lit(v.as_str());
                    },
                    JsLit::Bool(v) => {
                        if *v {
                            self.push_str("true");
                        } else {
                            self.push_str("false");
                        }
                    },
                    JsLit::Float(v) => {
                        let t = format_js_float(v);
                        self.push_str(t.as_str());
                    },
                }
                assert(self.buf@ =~= old(self).buf@ + want);
                NeedSemi::Yes
            },
            JsAst::Path { path } => {
                let p = self.wrap_p(slot, prec_dot_bracket());
                let ghost b0 = self.buf@;
                let mut i: usize = 0;
                while i < path.len()
                    invariant
                        i <= path@.len(),
                        wrote(*old(self), *self, paren_open(p) + dotted(path@.take(i as int))),
                        b0 == old(self).buf@ + paren_open(p),
                    decreases path@.len() - i,
                {
                    if i > 0 {
                        self.push_ch('.');
                    }
                    self.push_str(path[i].as_str());
                    proof {
                        let q = path@.take(i + 1);
                        assert(q.drop_last() =~= path@.take(i as int));
                        reveal_strlit(".");
                        assert(self.buf@ =~= old(self).buf@ + (paren_open(p) + dotted(q)));
                    }
                    i = i + 1;
                }
                assert(path@.take(i as int) =~= path@);
                self.unwrap_p(p);
                proof {
                    reveal_strlit("(");
                    assert(self.buf@ =~= old(self).buf@ + paren(p, dotted(path@)));
                }
                assert(self.buf@ =~= old(self).buf@ + want);
                NeedSemi::Yes
            },
            JsAst::Builtin { builtin } => {
                match builtin {
                    JsBuiltin::Wasm => {
                        self.push_str("wasm");
                    },
                    _ => {
                        self.ok = false;
                        assert(self.buf@ =~= old(self).buf@ + Seq::<char>::empty());
                    },
                }
                assert(self.buf@ =~= old(self).buf@ + want);
                NeedSemi::Yes
            },
            JsAst::Use { .. } => {
                assert(self.buf@ =~= old(self).buf@ + Seq::<char>::empty());
                NeedSemi::No
            },
            JsAst::Local { index } => {
                let cur = self.current_module;
                self.push_local_name(cur, *index);
                assert(self.buf@ =~= old(self).buf@ + want);
                NeedSemi::Yes
            },
            JsAst::ModuleRef { abs_index } => {
                self.push_str("/*not found*/ ");
                self.push_module_name(*abs_index);
                proof {
                    if (*abs_index as int) < old(self).module_infos@.len() {
                        assert(self.buf@ =~= old(self).buf@ + ("/*not found*/ "@
                            + old(self).module_infos@[*abs_index as int].name@));
                    } else {
                        assert(self.buf@ =~= old(self).buf@ + "/*not found*/ "@);
                    }
                }
                assert(self.buf@ =~= old(self).buf@ + want);
                NeedSemi::Yes
            },
            JsAst::ModuleMember { abs_index, local_index } => {
                self.member_to_js(*abs_index, *local_index);
                assert(self.buf@ =~= old(self).buf@ + want);
                NeedSemi::Yes
            },
            _ => {
                assert(false);
                NeedSemi::Yes
            },
        }
    }

    /// Writes a reference to local `local` of module `abs` (see `member_text`).
    fn member_to_js(&mut self, abs: u32, local: u32)
        ensures
            js_writes(*old(self), *final(self)),
            final(self).buf@ == old(self).buf@ + or_empty(member_text(ctx(*old(self)), abs, local)),
    {
        let a = abs as usize;
        if a >= self.module_infos.len() || (local as usize) >= self.module_infos[a].locals.len() {
            self.ok = false;
            assert(self.buf@ =~= old(self).buf@ + Seq::<char>::empty());
            return;
        }
        if self.module_infos[a].language == Language::Glsl {
            if self.module_infos[a].locals[local as usize].ty.is_fn() {
                match self.glsl_fn_get((abs, local)) {
                    Some(ai) => {
                        self.push_module_name(abs);
                        if ai != usize::MAX {
                            self.push_ch('[');
                            let mut t = String::new();
                            push_decimal(&mut t, ai as u64);
                            self.push_str(t.as_str());
                            self.push_ch(']');
                            proof {
                                reveal_strlit("[");
                                reveal_strlit("]");
                                assert(self.buf@ =~= old(self).buf@ + (old(self).module_infos@[a as int].name@ + ("["@
                                    + decimal(ai as nat) + "]"@)));
                            }
                        } else {
                            assert(self.buf@ =~= old(self).buf@ + (old(self).module_infos@[a as int].name@
                                + Seq::<char>::empty()));
                        }
                    },
                    None => {
                        self.push_str("<invalid glsl function ref>");
                    },
                }
            } else {
                let name = self.module_infos[a].locals[local as usize].name.clone();
                self.str_lit(name.as_str());
            }
        } else {
            self.push_local_name(a, local);
        }
    }

    /// Writes a function, a declaration, a lambda or a `return`.
    fn decl_to_js(&mut self, ast: &JsAst, slot: Prec, must_be_expr: bool) -> (r: NeedSemi)
        requires
            *ast is Fn || *ast is Global || *ast is Locals || *ast is Lambda || *ast is Return,
        ensures
            js_writes(*old(self), *final(self)),
            final(self).buf@ == old(self).buf@ + js_text(ctx(*old(self)), *ast, slot, must_be_expr),
            r == (if *ast is Lambda || *ast is Return {
                NeedSemi::Yes
            } else {
                NeedSemi::No
            }),
        decreases ast, 4nat,
    {
        let ghost c = ctx(*self);
        let cur = self.current_module;
        match ast {
            JsAst::Fn { index, expr, args, .. } => {
                self.push_str("function ");
                self.push_local_name(cur, *index);
                self.push_str("(");
                let ghost b1 = self.buf@;
                self.patterns_to_js(args);
                self.push_str(") ");
                self.to_js(expr, prec_max(), false);
                self.push_str("\n");
                proof {
                    assert(self.buf@ =~= old(self).buf@ + js_text(c, *ast, slot, must_be_expr));
                }
                NeedSemi::No
            },
            JsAst::Global { index, constant, value } => {
                if *constant {
                    self.push_str("const ");
                } else {
                    self.push_str("var ");
                }
                let ghost b0 = self.buf@;
                self.push_local_name(cur, *index);
                self.push_str(" = ");
                self.to_js(value, prec_assign().on_right(), true);
                self.push_str(";");
                proof {
                    assert(self.buf@ =~= old(self).buf@ + js_text(c, *ast, slot, must_be_expr));
                }
                NeedSemi::No
            },
            JsAst::Locals { local_indexes, values } => {
                self.push_str("var ");
                let ghost b0 = self.buf@;
                let mut i: usize = 0;
                assert(self.buf@ =~= b0 + locals_text(c, local_indexes@, values@, 0));
                while i < local_indexes.len()
                    invariant
                        i <= local_indexes@.len(),
                        js_writes(*old(self), *self),
                        cur == self.current_module,
                        c == ctx(*old(self)),
                        *ast == (JsAst::Locals { local_indexes: *local_indexes, values: *values }),
                        self.buf@ == b0 + locals_text(c, local_indexes@, values@, i as nat),
                    decreases local_indexes@.len() - i,
                {
                    let ghost bi = self.buf@;
                    if i > 0 {
                        self.push_str(", ");
                    }
                    let ghost bs = self.buf@;
                    self.push_local_name(cur, local_indexes[i]);
                    if i < values.len() {
                        proof {
                            assert(decreases_to!(*ast => ast->values));
                            assert(decreases_to!(*values => values@[i as int]));
                        }
                        self.push_str(" = ");
                        self.to_js(&values[i], prec_assign().on_right(), true);
                    }
                    proof {
                        let sep = if i + 1 > 1 {
                            ", "@
                        } else {
                            Seq::<char>::empty()
                        };
                        assert(bs =~= bi + sep);
                        assert(self.buf@ =~= b0 + locals_text(c, local_indexes@, values@, (i + 1) as nat));
                    }
                    i = i + 1;
                }
                self.push_str(";");
                proof {
                    assert(self.buf@ =~= old(self).buf@ + js_text(c, *ast, slot, must_be_expr));
                }
                NeedSemi::No
            },
            JsAst::Lambda { inputs, body } => {
                self.push_str("function(");
                self.patterns_to_js(inputs);
                self.push_str(") ");
                self.to_js(body, prec_max(), false);
                proof {
                    assert(self.buf@ =~= old(self).buf@ + js_text(c, *ast, slot, must_be_expr));
                }
                NeedSemi::Yes
            },
            JsAst::Return { value } => {
                self.push_str("return ");
                self.to_js(value, prec_max(), true);
                proof {
                    assert(self.buf@ =~= old(self).buf@ + js_text(c, *ast, slot, must_be_expr));
                }
                NeedSemi::Yes
            },
            _ => NeedSemi::No,
        }
    }

    /// Writes a block, an `if` (as `c ? a : b` where an expression is
    /// needed and it is one) or a loop (as `for`).
    #[verifier::rlimit(100)]
    #[verifier::spinoff_prover]
    fn ctrl_to_js(&mut self, ast: &JsAst, slot: Prec, must_be_expr: bool) -> (r: NeedSemi)
        requires
            *ast is Block || *ast is If || *ast is While || *ast is For || *ast is Loop,
        ensures
            js_writes(*old(self), *final(self)),
            final(self).buf@ == old(self).buf@ + js_text(ctx(*old(self)), *ast, slot, must_be_expr),
            r == js_need_semi(*ast, slot, must_be_expr),
        decreases ast, 4nat,
    {
        let ghost c = ctx(*self);
        match ast {
            JsAst::Block { stmts } => {
                let skip = slot != prec_max();
                self.stmts_to_js(stmts, skip, slot)
            },
            JsAst::If { cond, then_branch, else_branch } => {
                if must_be_expr && ast.is_expr() {
                    let p = self.wrap_p(slot, prec_select());
                    let ghost b1 = self.buf@;
                    self.to_js(cond, prec_max(), true);
                    self.push_str(" ? ");
                    self.stmts_to_js(then_branch, true, prec_select());
                    self.push_str(" : ");
                    match else_branch {
                        Some(e) => {
                            self.to_js(e, prec_select(), true);
                        },
                        None => {
                            self.push_str("0");
                        },
                    }
                    self.unwrap_p(p);
                    proof {
                        assert(self.buf@ =~= old(self).buf@ + js_text(c, *ast, slot, must_be_expr));
                    }
                    NeedSemi::Yes
                } else {
                    self.push_str("if (");
                    self.to_js(cond, prec_max(), true);
                    self.push_str(") ");
                    let mut need_semi = self.stmts_to_js(then_branch, true, prec_max());
                    let ghost b1 = self.buf@;
                    match else_branch {
                        Some(e) => {
                            if need_semi == NeedSemi::Yes {
                                self.push_str(";\n");
                            }
                            self.push_str(" else ");
                            need_semi = self.to_js(e, prec_max(), false);
                        },
                        None => {},
                    }
                    proof {
                        assert(self.buf@ =~= old(self).buf@ + js_text(c, *ast, slot, must_be_expr));
                    }
                    need_semi
                }
            },
            JsAst::While { cond, body } => {
                self.push_str("for (;");
                self.to_js(cond, prec_max(), false);
                self.push_str(";) ");
                let r = self.stmts_to_js(body, true, prec_max());
                proof {
                    assert(self.buf@ =~= old(self).buf@ + js_text(c, *ast, slot, must_be_expr));
                }
                r
            },
            JsAst::For { pre, cond, post, body } => {
                self.push_str("for (");
                let pre_semi = self.to_js(pre, prec_max(), false);
                if pre_semi == NeedSemi::Yes {
                    self.push_str(";");
                }
                self.to_js(cond, prec_max(), true);
                self.push_str(";");
                self.to_js(post, prec_max(), true);
                self.push_str(") ");
                let r = self.stmts_to_js(body, true, prec_max());
                proof {
                    assert(self.buf@ =~= old(self).buf@ + js_text(c, *ast, slot, must_be_expr));
                }
                r
            },
            JsAst::Loop { body } => {
                self.push_str("for (;;) ");
                let r = self.stmts_to_js(body, true, prec_max());
                proof {
                    assert(self.buf@ =~= old(self).buf@ + js_text(c, *ast, slot, must_be_expr));
                }
                r
            },
            _ => NeedSemi::No,
        }
    }

    /// Writes an assignment or an operator.
    #[verifier::rlimit(100)]
    fn arith_to_js(&mut self, ast: &JsAst, slot: Prec, must_be_expr: bool) -> (r: NeedSemi)
        requires
            *ast is Assign || *ast is Unary || *ast is Binary,
        ensures
            js_writes(*old(self), *final(self)),
            final(self).buf@ == old(self).buf@ + js_text(ctx(*old(self)), *ast, slot, must_be_expr),
            r == NeedSemi::Yes,
        decreases ast, 4nat,
    {
        let ghost c = ctx(*self);
        match ast {
            JsAst::Assign { left, right } => {
                let p = self.wrap_p(slot, prec_assign());
                self.to_js(left, prec_assign().on_left(), true);
                self.push_str(" = ");
                self.to_js(right, prec_assign().on_right(), true);
                self.unwrap_p(p);
                proof {
                    assert(self.buf@ =~= old(self).buf@ + js_text(c, *ast, slot, must_be_expr));
                }
            },
            JsAst::Unary { value, op } => {
                let prec = unop_prec_x(*op);
                let p = self.wrap_p(slot, prec);
                self.push_str(unop_str(*op));
                self.to_js(value, prec.on_right(), true);
                self.unwrap_p(p);
                proof {
                    assert(self.buf@ =~= old(self).buf@ + js_text(c, *ast, slot, must_be_expr));
                }
            },
            JsAst::Binary { left, op, right } => {
                let prec = binop_prec_x(*op);
                let p = self.wrap_p(slot, prec);
                self.to_js(left, prec.on_left(), true);
                self.push_str(binop_str(*op));
                self.to_js(right, prec.on_right(), true);
                self.unwrap_p(p);
                proof {
                    assert(self.buf@ =~= old(self).buf@ + js_text(c, *ast, slot, must_be_expr));
                }
            },
            _ => {},
        }
        NeedSemi::Yes
    }

    /// Writes a member access or an index.
    #[verifier::rlimit(100)]
    fn access_to_js(&mut self, ast: &JsAst, slot: Prec, must_be_expr: bool) -> (r: NeedSemi)
        requires
            *ast is Field || *ast is Index,
        ensures
            js_writes(*old(self), *final(self)),
            final(self).buf@ == old(self).buf@ + js_text(ctx(*old(self)), *ast, slot, must_be_expr),
            r == NeedSemi::Yes,
        decreases ast, 4nat,
    {
        let ghost c = ctx(*self);
        match ast {
            JsAst::Field { base, member } => {
                match &**base {
                    JsAst::Builtin { builtin: JsBuiltin::Wasm } => {
                        self.wasm_member_to_js(member, slot);
                    },
                    _ => {
                        if text_is(member, "new") {
                            self.push_str("new ");
                            self.to_js(base, prec_new().on_left(), true);
                            proof {
                                reveal_strlit("new");
                                assert(self.buf@ =~= old(self).buf@ + js_text(c, *ast, slot, must_be_expr));
                            }
                        } else {
                            let p = self.wrap_p(slot, prec_dot_bracket());
                            self.to_js(base, prec_dot_bracket().on_left(), true);
                            self.push_ch('.');
                            self.push_str(member.as_str());
                            self.unwrap_p(p);
                            proof {
                                reveal_strlit(".");
                                assert(self.buf@ =~= old(self).buf@ + js_text(c, *ast, slot, must_be_expr));
                            }
                        }
                    },
                }
            },
            JsAst::Index { expr, index } => {
                let p = self.wrap_p(slot, prec_dot_bracket());
                self.to_js(expr, prec_dot_bracket().on_left(), true);
                self.push_ch('[');
                self.to_js(index, prec_max(), true);
                self.push_ch(']');
                self.unwrap_p(p);
                proof {
                    reveal_strlit("[");
                    reveal_strlit("]");
                    assert(self.buf@ =~= old(self).buf@ + js_text(c, *ast, slot, must_be_expr));
                }
            },
            _ => {},
        }
        NeedSemi::Yes
    }

    /// Writes a call, a method call, a constructor call, an array or an
    /// object.
    fn call_to_js(&mut self, ast: &JsAst, slot: Prec, must_be_expr: bool) -> (r: NeedSemi)
        requires
            *ast is Call || *ast is MethodCall || *ast is NewCtor || *ast is Array || *ast is NewObject,
        ensures
            js_writes(*old(self), *final(self)),
            final(self).buf@ == old(self).buf@ + js_text(ctx(*old(self)), *ast, slot, must_be_expr),
            r == NeedSemi::Yes,
        decreases ast, 4nat,
    {
        let ghost c = ctx(*self);
        match ast {
            JsAst::Call { func, args } => {
                self.to_js(func, prec_call(), true);
                self.push_ch('(');
                self.list_to_js(args);
                self.push_ch(')');
                proof {
                    reveal_strlit("(");
                    reveal_strlit(")");
                    assert(self.buf@ =~= old(self).buf@ + js_text(c, *ast, slot, must_be_expr));
                }
            },
            JsAst::MethodCall { receiver, method, args } => {
                if text_is(method, "new") {
                    self.push_str("new ");
                    self.to_js(receiver, prec_new().on_left(), true);
                } else {
                    self.to_js(receiver, prec_dot_bracket().on_left(), true);
                    self.push_ch('.');
                    self.push_str(method.as_str());
                }
                self.push_ch('(');
                self.list_to_js(args);
                self.push_ch(')');
                proof {
                    reveal_strlit("(");
                    reveal_strlit(")");
                    reveal_strlit(".");
                    reveal_strlit("new");
                    assert(self.buf@ =~= old(self).buf@ + js_text(c, *ast, slot, must_be_expr));
                }
            },
            JsAst::NewCtor { ctor, params } => {
                self.push_str("new ");
                self.to_js(ctor, prec_new().on_left(), true);
                self.push_ch('(');
                self.list_to_js(params);
                self.push_ch(')');
                proof {
                    reveal_strlit("(");
                    reveal_strlit(")");
                    assert(self.buf@ =~= old(self).buf@ + js_text(c, *ast, slot, must_be_expr));
                }
            },
            JsAst::Array { elems } => {
                self.push_ch('[');
                self.list_to_js(elems);
                self.push_ch(']');
                proof {
                    reveal_strlit("[");
                    reveal_strlit("]");
                    assert(self.buf@ =~= old(self).buf@ + js_text(c, *ast, slot, must_be_expr));
                }
            },
            JsAst::NewObject { assignments } => {
                self.push_ch('{');
                self.object_to_js(assignments);
                self.push_ch('}');
                proof {
                    reveal_strlit("{");
                    reveal_strlit("}");
                    assert(self.buf@ =~= old(self).buf@ + js_text(c, *ast, slot, must_be_expr));
                }
            },
            _ => {},
        }
        NeedSemi::Yes
    }

    /// Writes a tree in a context of precedence `slot`, as an expression
    /// when `must_be_expr` (see `js_text`), and tells whether a statement
    /// made of it needs a `;` (see `js_need_semi`). A reference to what
    /// does not exist, or a builtin with no value, leaves the bundler not
    /// ok.
    pub fn to_js(&mut self, ast: &JsAst, slot: Prec, must_be_expr: bool) -> (r: NeedSemi)
        ensures
            js_writes(*old(self), *final(self)),
            final(self).buf@ == old(self).buf@ + js_text(ctx(*old(self)), *ast, slot, must_be_expr),
            r == js_need_semi(*ast, slot, must_be_expr),
            (*ast is Builtin && !(ast->builtin is Wasm)) ==> !final(self).ok,
        decreases ast, 5nat,
    {
        match ast {
            JsAst::Break | JsAst::Undefined | JsAst::Lit { .. } | JsAst::Path { .. }
            | JsAst::Builtin { .. } | JsAst::Use { .. } | JsAst::Local { .. }
            | JsAst::ModuleRef { .. } | JsAst::ModuleMember { .. } => self.leaf_to_js(ast, slot),
            JsAst::Fn { .. } | JsAst::Global { .. } | JsAst::Locals { .. } | JsAst::Lambda { .. }
            | JsAst::Return { .. } => self.decl_to_js(ast, slot, must_be_expr),
            JsAst::Block { .. } | JsAst::If { .. } | JsAst::While { .. } | JsAst::For { .. }
            | JsAst::Loop { .. } => self.ctrl_to_js(ast, slot, must_be_expr),
            JsAst::Assign { .. } | JsAst::Unary { .. } | JsAst::Binary { .. } => self.arith_to_js(
                ast,
                slot,
                must_be_expr,
            ),
            JsAst::Field { .. } | JsAst::Index { .. } => self.access_to_js(ast, slot, must_be_expr),
            JsAst::Call { .. } | JsAst::MethodCall { .. } | JsAst::NewCtor { .. } | JsAst::Array { .. }
            | JsAst::NewObject { .. } => self.call_to_js(ast, slot, must_be_expr),
        }
    }

    /// Writes a GLSL module (see `glsl_module_text`) and records where its
    /// exported functions are found.
    #[verifier::rlimit(100)]
    fn write_glsl_module(&mut self, abs: usize, bm: &BundledModule)
        requires
            abs < old(self).module_infos@.len(),
        ensures
            final(self).buf@ == old(self).buf@ + glsl_module_text(
                old(self).module_infos@[abs as int].name@,
                bm.prefix@,
                srcs_of(bm.exported_functions@),
            ),
            final(self).glsl_fn_map@ == old(self).glsl_fn_map@ + fn_entries(abs, bm.exported_functions@),
            final(self).indent_len == old(self).indent_len,
            final(self).current_module == old(self).current_module,
            final(self).module_infos == old(self).module_infos,
            final(self).module_lambdas == old(self).module_lambdas,
            final(self).wasm_offsets == old(self).wasm_offsets,
            final(self).ok == old(self).ok,
    {
        let ghost b0 = self.buf@;
        let ghost m0 = self.glsl_fn_map@;
        let name = self.module_infos[abs].name.clone();
        let fs = &bm.exported_functions;
        let ghost srcs = srcs_of(fs@);
        let abs32 = #[verifier::truncate] (abs as u32);
        self.push_str("var ");
        self.push_str(name.as_str());
        self.push_str(" = ");
        let ghost head = "var "@ + name@ + " = "@;
        assert(self.buf@ =~= b0 + head);
        if fs.len() != 1 {
            self.push_str("[");
            let mut cs: Vec<Vec<char>> = Vec::new();
            let mut i: usize = 0;
            while i < fs.len()
                invariant
                    i <= fs@.len(),
                    cs@.len() == i,
                    forall|j: int| 0 <= j < i ==> #[trigger] cs@[j]@ == fs@[j].0@,
                decreases fs@.len() - i,
            {
                cs.push(glsl_bundler::chars_of(fs[i].0.as_str()));
                i = i + 1;
            }
            assert(char_views(cs@) =~= srcs);
            let l = common_prefix_len(&cs);
            proof {
                if srcs.len() > 0 {
                    lemma_lcp_bound(srcs, 0);
                }
            }
            let ghost b1 = self.buf@;
            i = 0;
            while i < fs.len()
                invariant
                    i <= fs@.len(),
                    cs@.len() == fs@.len(),
                    char_views(cs@) == srcs,
                    srcs == srcs_of(fs@),
                    fs@.len() != 1,
                    l == lcp_len(srcs),
                    forall|j: int| 0 <= j < srcs.len() ==> l <= #[trigger] srcs[j].len(),
                    self.buf@ == b1 + lits_text(srcs.take(i as int), l as int),
                    self.glsl_fn_map@ == m0 + fn_entries(abs, fs@).take(i as int),
                    self.indent_len == old(self).indent_len,
                    self.current_module == old(self).current_module,
                    self.module_infos == old(self).module_infos,
                    self.module_lambdas == old(self).module_lambdas,
                    self.wasm_offsets == old(self).wasm_offsets,
                    self.ok == old(self).ok,
                    abs32 == abs as u32,
                decreases fs@.len() - i,
            {
                if i > 0 {
                    self.push_str(",");
                }
                let mut t = String::new();
                let len_i = cs[i].len();
                assert(cs@[i as int]@ == srcs[i as int]);
                glsl_bundler::push_range(&mut t, &cs[i], l, len_i);
                self.str_lit(t.as_str());
                self.glsl_fn_map.push(((abs32, fs[i].1), i));
                proof {
                    let q = srcs.take(i + 1);
                    assert(q.drop_last() =~= srcs.take(i as int));
                    assert(q.last() == srcs[i as int]);
                    reveal_strlit(",");
                    assert(self.buf@ =~= b1 + lits_text(q, l as int));
                    assert(self.glsl_fn_map@ =~= m0 + fn_entries(abs, fs@).take(i + 1));
                }
                i = i + 1;
            }
            assert(srcs.take(i as int) =~= srcs);
            assert(fn_entries(abs, fs@).take(i as int) =~= fn_entries(abs, fs@));
            self.push_str("].map(function (a) { return ");
            let ghost b2 = self.buf@;
            let mut pre = bm.prefix.clone();
            if cs.len() > 0 {
                assert(cs@[0]@ == srcs[0]);
                glsl_bundler::push_range(&mut pre, &cs[0], 0, l);
            }
            let ghost common = if srcs.len() > 0 {
                srcs[0].subrange(0, l as int)
            } else {
                Seq::empty()
            };
            assert(pre@ =~= bm.prefix@ + common);
            self.str_lit(pre.as_str());
            self.push_str(" + a; });\n");
            proof {
                reveal_strlit("[");
                reveal_strlit(" = ");
                reveal_strlit(" = [");
                assert(b1 =~= b0 + head + "["@);
                assert(b2 =~= b1 + lits_text(srcs, l as int) + "].map(function (a) { return "@);
                assert(self.buf@ =~= b0 + glsl_module_text(name@, bm.prefix@, srcs));
            }
        } else {
            let mut t = bm.prefix.clone();
            t.append(fs[0].0.as_str());
            self.str_lit(t.as_str());
            self.push_str(";\n");
            self.glsl_fn_map.push(((abs32, fs[0].1), usize::MAX));
            proof {
                assert(self.buf@ =~= b0 + glsl_module_text(name@, bm.prefix@, srcs));
                assert(self.glsl_fn_map@ =~= m0 + fn_entries(abs, fs@));
            }
        }
    }

    /// Writes the GLSL modules (see `glsl_bundle_text`), in the order
    /// given, and records where their exported functions are found.
    pub fn write_glsl(&mut self, glsl: Vec<(usize, BundledModule)>)
        requires
            forall|i: int| 0 <= i < glsl@.len() ==> #[trigger] glsl@[i].0 < old(self).module_infos@.len(),
        ensures
            final(self).buf@ == old(self).buf@ + glsl_bundle_text(old(self).module_infos@, glsl@),
            final(self).glsl_fn_map@ == old(self).glsl_fn_map@ + glsl_bundle_entries(glsl@),
            final(self).indent_len == old(self).indent_len,
            final(self).current_module == old(self).current_module,
            final(self).module_infos == old(self).module_infos,
            final(self).module_lambdas == old(self).module_lambdas,
            final(self).wasm_offsets == old(self).wasm_offsets,
            final(self).ok == old(self).ok,
    {
        let mut k: usize = 0;
        while k < glsl.len()
            invariant
                k <= glsl@.len(),
                forall|i: int| 0 <= i < glsl@.len() ==> #[trigger] glsl@[i].0 < old(self).module_infos@.len(),
                self.buf@ == old(self).buf@ + glsl_bundle_text(old(self).module_infos@, glsl@.take(k as int)),
                self.glsl_fn_map@ == old(self).glsl_fn_map@ + glsl_bundle_entries(glsl@.take(k as int)),
                self.indent_len == old(self).indent_len,
                self.current_module == old(self).current_module,
                self.module_infos == old(self).module_infos,
                self.module_lambdas == old(self).module_lambdas,
                self.wasm_offsets == old(self).wasm_offsets,
                self.ok == old(self).ok,
            decreases glsl@.len() - k,
        {
            let abs = glsl[k].0;
            self.write_glsl_module(abs, &glsl[k].1);
            proof {
                let q = glsl@.take(k + 1);
                assert(q.drop_last() =~= glsl@.take(k as int));
                assert(q.last() == glsl@[k as int]);
                assert(self.buf@ =~= old(self).buf@ + glsl_bundle_text(old(self).module_infos@, q));
                assert(self.glsl_fn_map@ =~= old(self).glsl_fn_map@ + glsl_bundle_entries(q));
            }
            k = k + 1;
        }
        assert(glsl@.take(k as int) =~= glsl@);
    }

    /// Renames local `local` of module `abs`.
    fn set_local_name(&mut self, abs: usize, local: usize, name: String)
        requires
            abs < old(self).module_infos@.len(),
            local < old(self).module_infos@[abs as int].locals@.len(),
        ensures
            same_but_names(old(self).module_infos@, final(self).module_infos@),
            final(self).module_infos@[abs as int].locals@[local as int].name@ == name@,
            forall|i: int, j: int|
                0 <= i < old(self).module_infos@.len() && 0 <= j < old(self).module_infos@[i].locals@.len() && (i
                    != abs || j != local) ==> #[trigger] final(self).module_infos@[i].locals@[j].name
                    == old(self).module_infos@[i].locals@[j].name,
            final(self).buf == old(self).buf,
            final(self).indent_len == old(self).indent_len,
            final(self).current_module == old(self).current_module,
            final(self).module_lambdas == old(self).module_lambdas,
            final(self).glsl_fn_map == old(self).glsl_fn_map,
            final(self).wasm_offsets == old(self).wasm_offsets,
            final(self).ok == old(self).ok,
    {
        let mut mi = self.module_infos.remove(abs);
        let mut l = mi.locals.remove(local);
        l.name = name;
        mi.locals.insert(local, l);
        self.module_infos.insert(abs, mi);
        proof {
            assert(self.module_infos@ =~= old(self).module_infos@.update(abs as int, mi));
            assert(mi.locals@ =~= old(self).module_infos@[abs as int].locals@.update(local as int, l));
        }
    }

    /// Gives each local of `items` a name that no name of `seen` has
    /// (`name$i` for the first `i` that makes it so), adding it to `seen`.
    #[verifier::rlimit(100)]
    #[verifier::spinoff_prover]
    fn rename_items(&mut self, items: &Vec<((u32, u32), usize)>, seen: &mut Vec<String>)
        ensures
            renamed_only(*old(self), *final(self)),
            forall|x: (u32, u32)|
                valid_local(old(self).module_infos@, x) && !#[trigger] in_items(items@, x) ==> item_name(
                    final(self).module_infos@,
                    x,
                ) == item_name(old(self).module_infos@, x),
            items_refs_ok(old(self).module_infos@, items@) && items_distinct(items@) && no_dup(
                name_views(old(seen)@),
            ) ==> name_views(final(seen)@) == name_views(old(seen)@) + node_names(final(self).module_infos@, items@)
                && no_dup(name_views(final(seen)@)),
            items_refs_ok(old(self).module_infos@, items@) && items_distinct(items@) && no_dup(
                name_views(old(seen)@),
            ) ==> forall|i: int|
                0 <= i < items@.len() ==> #[trigger] node_names(final(self).module_infos@, items@)[i] == pick_name(
                    name_views(old(seen)@).to_set().union(node_names(final(self).module_infos@, items@).take(i).to_set()),
                    item_name(old(self).module_infos@, items@[i].0),
                ),
    {
        let ghost infos0 = self.module_infos@;
        let ghost sv = name_views(seen@);
        let ghost p = items_refs_ok(infos0, items@) && items_distinct(items@) && no_dup(sv);
        let mut k: usize = 0;
        while k < items.len()
            invariant
                k <= items@.len(),
                infos0 == old(self).module_infos@,
                renamed_only(*old(self), *self),
                forall|x: (u32, u32)|
                    valid_local(infos0, x) && !#[trigger] in_items(items@.take(k as int), x) ==> item_name(
                        self.module_infos@,
                        x,
                    ) == item_name(infos0, x),
                p == (items_refs_ok(infos0, items@) && items_distinct(items@) && no_dup(sv)),
                p ==> name_views(seen@) == sv + node_names(self.module_infos@, items@.take(k as int)),
                p ==> no_dup(name_views(seen@)),
                p ==> forall|i: int|
                    0 <= i < k ==> #[trigger] node_names(self.module_infos@, items@)[i] == pick_name(
                        sv.to_set().union(node_names(self.module_infos@, items@).take(i).to_set()),
                        item_name(infos0, items@[i].0),
                    ),
            decreases items@.len() - k,
        {
            let ghost xk = items@[k as int].0;
            let ghost sk = name_views(seen@);
            let ghost ik = self.module_infos@;
            let ghost q = items@.take(k + 1);
            let (abs32, local32) = items[k].0;
            let abs = abs32 as usize;
            let local = local32 as usize;
            proof {
                assert(q.drop_last() =~= items@.take(k as int));
                assert(q[k as int] == items@[k as int]);
                assert forall|x: (u32, u32)| #[trigger] in_items(items@.take(k as int), x) implies in_items(q, x) by {
                    let i = choose|i: int| #![trigger items@.take(k as int)[i]] 0 <= i < k && items@.take(k as int)[i].0 == x;
                    assert(q[i] == items@.take(k as int)[i]);
                }
                assert(in_items(q, xk));
                assert forall|x: (u32, u32)| x != xk && #[trigger] in_items(q, x) implies in_items(
                    items@.take(k as int),
                    x,
                ) by {
                    let i = choose|i: int| #![trigger q[i]] 0 <= i < k + 1 && q[i].0 == x;
                    assert(items@.take(k as int)[i] == q[i]);
                }
            }
            if abs < self.module_infos.len() && local < self.module_infos[abs].locals.len() {
                let name = self.module_infos[abs].locals[local].name.clone();
                proof {
                    if p {
                        assert(!in_items(items@.take(k as int), xk)) by {
                            if in_items(items@.take(k as int), xk) {
                                let i = choose|i: int| #![trigger items@.take(k as int)[i]] 0 <= i < k && items@.take(k as int)[i].0 == xk;
                                assert(items@[i] == items@.take(k as int)[i]);
                            }
                        }
                        assert(valid_local(infos0, xk));
                    }
                }
                let ghost named = pick_name(sk.to_set(), name@);
                if contains_name(seen, &name) {
                    let new_name = fresh_name(seen, &name);
                    proof {
                        let kk = choose|kk: nat|
                            new_name@ == suffixed(name@, kk) && !name_views(seen@).contains(new_name@) && forall|j: nat|
                                j < kk ==> name_views(seen@).contains(#[trigger] suffixed(name@, j));
                        lemma_pick_name(sk.to_set(), name@, kk);
                    }
                    let kept = new_name.clone();
                    self.set_local_name(abs, local, new_name);
                    seen.push(kept);
                } else {
                    seen.push(name);
                }
                proof {
                    assert(item_name(self.module_infos@, xk) == named);
                }
                proof {
                    assert forall|x: (u32, u32)| valid_local(infos0, x) && !#[trigger] in_items(q, x) implies item_name(
                        self.module_infos@,
                        x,
                    ) == item_name(infos0, x) by {
                        assert(!in_items(items@.take(k as int), x));
                        assert(x != xk);
                        assert(item_name(self.module_infos@, x) == item_name(ik, x));
                    }
                    if p {
                        assert forall|i: int| 0 <= i < k implies #[trigger] node_names(self.module_infos@, q)[i]
                            == node_names(ik, items@.take(k as int))[i] by {
                            assert(q[i] == items@[i]);
                            assert(items@[i].0 != xk);
                        }
                        assert(node_names(self.module_infos@, q) =~= node_names(ik, items@.take(k as int)).push(
                            item_name(self.module_infos@, xk),
                        ));
                        assert(name_views(seen@) =~= sk.push(item_name(self.module_infos@, xk)));
                        let ns = node_names(self.module_infos@, items@);
                        let ns0 = node_names(ik, items@);
                        assert forall|i: int| 0 <= i < k implies ns[i] == ns0[i] by {
                            assert(items@[i].0 != xk);
                        }
                        assert(ns.take(k as int) =~= node_names(ik, items@.take(k as int)));
                        lemma_set_concat(sv, ns.take(k as int));
                        assert(name@ == item_name(infos0, xk));
                        assert forall|i: int| 0 <= i < k + 1 implies #[trigger] ns[i] == pick_name(
                            sv.to_set().union(ns.take(i).to_set()),
                            item_name(infos0, items@[i].0),
                        ) by {
                            if i < k {
                                assert(ns.take(i) =~= ns0.take(i));
                                assert(ns0[i] == pick_name(
                                    sv.to_set().union(ns0.take(i).to_set()),
                                    item_name(infos0, items@[i].0),
                                ));
                            } else {
                                assert(ns[i] == item_name(self.module_infos@, xk));
                            }
                        }
                    }
                }
            } else {
                proof {
                    if p {
                        assert(valid_local(infos0, xk));
                    }
                    assert forall|x: (u32, u32)| valid_local(infos0, x) && !#[trigger] in_items(q, x) implies item_name(
                        self.module_infos@,
                        x,
                    ) == item_name(infos0, x) by {
                        assert(!in_items(items@.take(k as int), x));
                    }
                }
            }
            k = k + 1;
        }
        assert(items@.take(k as int) =~= items@);
    }

    /// Renames the trees `node`'s children in turn (see `rename`).
    fn rename_children(&mut self, node: &ConflictTree<(u32, u32)>, seen: &mut Vec<String>)
        ensures
            renamed_only(*old(self), *final(self)),
            forall|x: (u32, u32)|
                valid_local(old(self).module_infos@, x) && !#[trigger] in_trees(node@.children, x) ==> item_name(
                    final(self).module_infos@,
                    x,
                ) == item_name(old(self).module_infos@, x),
            refs_ok_all(old(self).module_infos@, node@.children) && unique_trees(node@.children) && no_dup(
                name_views(old(seen)@),
            ) ==> name_views(final(seen)@) == name_views(old(seen)@) && apart_all(
                final(self).module_infos@,
                node@.children,
                name_views(old(seen)@).to_set(),
            ),
            refs_ok_all(old(self).module_infos@, node@.children) && unique_trees(node@.children) && no_dup(
                name_views(old(seen)@),
            ) ==> renamed_all(
                old(self).module_infos@,
                final(self).module_infos@,
                node@.children,
                name_views(old(seen)@).to_set(),
            ),
        decreases node@, 0nat,
    {
        let ghost t = node@;
        let ghost sv = name_views(seen@);
        let ghost infos0 = self.module_infos@;
        let ghost p = refs_ok_all(infos0, t.children) && unique_trees(t.children) && no_dup(sv);
        let children = node.node_children();
        let mut c: usize = 0;
        assert(t.children.take(0) =~= Seq::<TreeModel<(u32, u32)>>::empty());
        while c < children.len()
            invariant
                c <= children@.len(),
                children@.len() == t.children.len(),
                forall|i: int| 0 <= i < children@.len() ==> #[trigger] children@[i]@ == t.children[i],
                t == node@,
                infos0 == old(self).module_infos@,
                renamed_only(*old(self), *self),
                forall|x: (u32, u32)|
                    valid_local(infos0, x) && !#[trigger] in_trees(t.children.take(c as int), x) ==> item_name(
                        self.module_infos@,
                        x,
                    ) == item_name(infos0, x),
                p == (refs_ok_all(infos0, t.children) && unique_trees(t.children) && no_dup(sv)),
                p ==> name_views(seen@) == sv,
                p ==> apart_all(self.module_infos@, t.children.take(c as int), sv.to_set()),
                p ==> renamed_all(infos0, self.module_infos@, t.children.take(c as int), sv.to_set()),
            decreases children@.len() - c,
        {
            let ghost ic = self.module_infos@;
            let ghost q = t.children.take(c + 1);
            proof {
                assert(children@[c as int]@ == t.children[c as int]);
                assert(decreases_to!(node@ => node@.children));
                assert(decreases_to!(node@.children => node@.children[c as int]));
                assert(q.drop_last() =~= t.children.take(c as int));
                assert(q.last() == t.children[c as int]);
                if p {
                    lemma_refs_ok_index(infos0, t.children, c as int);
                    lemma_refs_ok_frame(infos0, ic, t.children[c as int]);
                    lemma_unique_each(t.children, c as int);
                }
            }
            self.rename(&children[c], seen);
            proof {
                assert forall|x: (u32, u32)| valid_local(infos0, x) && !#[trigger] in_trees(q, x) implies item_name(
                    self.module_infos@,
                    x,
                ) == item_name(infos0, x) by {
                    assert(!in_trees(t.children.take(c as int), x));
                    assert(!in_tree(t.children[c as int], x));
                    assert(valid_local(ic, x));
                }
                if p {
                    assert forall|x: (u32, u32)| #[trigger] in_trees(t.children.take(c as int), x) implies item_name(
                        ic,
                        x,
                    ) == item_name(self.module_infos@, x) by {
                        let d = lemma_in_trees_witness(t.children.take(c as int), x);
                        assert(t.children.take(c as int)[d] == t.children[d]);
                        lemma_unique_index(t.children, d, c as int, x);
                        lemma_refs_ok_index(infos0, t.children, d);
                        lemma_in_tree_valid(infos0, t.children[d], x);
                    }
                    lemma_apart_all_frame(ic, self.module_infos@, t.children.take(c as int), sv.to_set());
                    lemma_renamed_all_frame(infos0, infos0, ic, self.module_infos@, t.children.take(c as int), sv.to_set());
                    assert forall|x: (u32, u32)| #[trigger] in_tree(t.children[c as int], x) implies item_name(ic, x)
                        == item_name(infos0, x) && item_name(self.module_infos@, x) == item_name(self.module_infos@, x) by {
                        lemma_in_tree_valid(infos0, t.children[c as int], x);
                        if in_trees(t.children.take(c as int), x) {
                            let d = lemma_in_trees_witness(t.children.take(c as int), x);
                            assert(t.children.take(c as int)[d] == t.children[d]);
                            lemma_unique_index(t.children, d, c as int, x);
                        }
                    }
                    lemma_renamed_as_frame(ic, infos0, self.module_infos@, self.module_infos@, t.children[c as int], sv.to_set());
                    assert(q.drop_last() =~= t.children.take(c as int));
                }
            }
            c = c + 1;
        }
        assert(t.children.take(c as int) =~= t.children);
    }

    /// Takes the names of the locals of `items` out of `seen`, one by one.
    fn forget_items(&self, items: &Vec<((u32, u32), usize)>, seen: &mut Vec<String>, Ghost(sv): Ghost<Seq<Seq<char>>>)
        ensures
            items_refs_ok(self.module_infos@, items@) && no_dup(sv + node_names(self.module_infos@, items@))
                && name_views(old(seen)@) == sv + node_names(self.module_infos@, items@) ==> name_views(
                final(seen)@,
            ) == sv,
    {
        let ghost nn = node_names(self.module_infos@, items@);
        let ghost p = items_refs_ok(self.module_infos@, items@) && no_dup(sv + nn) && name_views(seen@) == sv + nn;
        let mut k: usize = 0;
        assert(nn.skip(0) =~= nn);
        while k < items.len()
            invariant
                k <= items@.len(),
                nn == node_names(self.module_infos@, items@),
                p ==> items_refs_ok(self.module_infos@, items@),
                p ==> no_dup(sv + nn),
                p ==> name_views(seen@) == sv + nn.skip(k as int),
            decreases items@.len() - k,
        {
            let (abs32, local32) = items[k].0;
            let abs = abs32 as usize;
            let local = local32 as usize;
            if abs < self.module_infos.len() && local < self.module_infos[abs].locals.len() {
                let name = self.module_infos[abs].locals[local].name.clone();
                let ghost before = name_views(seen@);
                remove_name(seen, &name);
                proof {
                    if p {
                        let at = sv.len() as int;
                        assert(name@ == nn[k as int]);
                        assert(before[at] == name@);
                        assert forall|j: int| 0 <= j < at implies before[j] != name@ by {
                            assert((sv + nn)[j] == sv[j]);
                            assert((sv + nn)[sv.len() + k] == nn[k as int]);
                        }
                        assert(name_views(seen@) == before.remove(at));
                        assert(before.remove(at) =~= sv + nn.skip(k + 1));
                    }
                }
            } else {
                proof {
                    if p {
                        assert(items@[k as int] == items@[k as int]);
                    }
                }
            }
            k = k + 1;
        }
        assert(nn.skip(k as int) =~= Seq::<Seq<char>>::empty());
        assert(sv + nn.skip(k as int) =~= sv);
    }

    /// Gives each local of the items of `node` a name that no item of its
    /// node before it, nor of the nodes above it (`seen`), has: `name$i`
    /// for the first `i` that makes it so. The names the node took are
    /// then forgotten again. Only locals of the tree are renamed; when the
    /// tree names existing locals, each once, and `seen` holds no name
    /// twice, `seen` ends as it was and the tree's names are apart from it
    /// (see `names_apart`).
    fn rename(&mut self, node: &ConflictTree<(u32, u32)>, seen: &mut Vec<String>)
        ensures
            renamed_only(*old(self), *final(self)),
            forall|x: (u32, u32)|
                valid_local(old(self).module_infos@, x) && !#[trigger] in_tree(node@, x) ==> item_name(
                    final(self).module_infos@,
                    x,
                ) == item_name(old(self).module_infos@, x),
            refs_ok(old(self).module_infos@, node@) && unique_tree(node@) && no_dup(name_views(old(seen)@))
                ==> name_views(final(seen)@) == name_views(old(seen)@) && names_apart(
                final(self).module_infos@,
                node@,
                name_views(old(seen)@).to_set(),
            ),
            refs_ok(old(self).module_infos@, node@) && unique_tree(node@) && no_dup(name_views(old(seen)@))
                ==> renamed_as(old(self).module_infos@, final(self).module_infos@, node@, name_views(old(seen)@).to_set()),
        decreases node@, 1nat,
    {
        let ghost t = node@;
        let ghost sv = name_views(seen@);
        let ghost infos0 = self.module_infos@;
        let ghost p = refs_ok(infos0, t) && unique_tree(t) && no_dup(sv);
        let items = node.node_items();
        self.rename_items(items, seen);
        let ghost infos1 = self.module_infos@;
        let ghost nn = node_names(infos1, t.items);
        proof {
            if p {
                lemma_refs_ok_frame(infos0, infos1, t);
            }
        }
        self.rename_children(node, seen);
        let ghost infos2 = self.module_infos@;
        proof {
            if p {
                assert forall|i: int| 0 <= i < t.items.len() implies #[trigger] node_names(infos2, t.items)[i] == nn[i] by {
                    let x = t.items[i].0;
                    assert(in_items(t.items, x));
                    assert(!in_trees(t.children, x));
                    assert(valid_local(infos1, x));
                }
                assert(node_names(infos2, t.items) =~= nn);
                lemma_refs_ok_frame(infos1, infos2, t);
            }
        }
        self.forget_items(items, seen, Ghost(sv));
        proof {
            assert forall|x: (u32, u32)| valid_local(infos0, x) && !#[trigger] in_tree(t, x) implies item_name(
                infos2,
                x,
            ) == item_name(infos0, x) by {
                assert(!in_items(t.items, x));
                assert(!in_trees(t.children, x));
                assert(valid_local(infos1, x));
            }
            if p {
                lemma_set_concat(sv, nn);
                assert forall|x: (u32, u32)| #[trigger] in_trees(t.children, x) implies item_name(infos1, x) == item_name(
                    infos0,
                    x,
                ) && item_name(infos2, x) == item_name(infos2, x) by {
                    assert(in_tree(t, x));
                    lemma_in_tree_valid(infos0, t, x);
                    assert(!in_items(t.items, x));
                }
                lemma_renamed_all_frame(infos1, infos0, infos2, infos2, t.children, (sv + nn).to_set());
                assert(renamed_as(infos0, infos2, t, sv.to_set()));
                assert forall|i: int, j: int| 0 <= i < j < nn.len() implies #[trigger] nn[i] != #[trigger] nn[j] by {
                    assert((sv + nn)[sv.len() + i] == nn[i]);
                    assert((sv + nn)[sv.len() + j] == nn[j]);
                }
                assert forall|i: int| 0 <= i < nn.len() implies !sv.to_set().contains(#[trigger] nn[i]) by {
                    if sv.contains(nn[i]) {
                        let j = choose|j: int| 0 <= j < sv.len() && sv[j] == nn[i];
                        assert((sv + nn)[j] == sv[j]);
                        assert((sv + nn)[sv.len() + i] == nn[i]);
                    }
                }
            }
        }
    }

    /// Renames the locals of the JavaScript modules so that no two that
    /// conflict (one in scope where the other is) share a name, going
    /// through their conflict trees side by side (see `rename`).
    pub fn resolve_name_conflicts(&mut self)
        requires
            old(self).module_infos@.len() <= u32::MAX,
        ensures
            renamed_only(*old(self), *final(self)),
            refs_ok(old(self).module_infos@, bundled_tree(old(self).module_infos@)) && unique_tree(
                bundled_tree(old(self).module_infos@),
            ) ==> names_apart(final(self).module_infos@, bundled_tree(old(self).module_infos@), Set::empty()),
            refs_ok(old(self).module_infos@, bundled_tree(old(self).module_infos@)) && unique_tree(
                bundled_tree(old(self).module_infos@),
            ) ==> renamed_as(
                old(self).module_infos@,
                final(self).module_infos@,
                bundled_tree(old(self).module_infos@),
                Set::empty(),
            ),
            forall|x: (u32, u32)|
                valid_local(old(self).module_infos@, x) && !#[trigger] in_tree(
                    bundled_tree(old(self).module_infos@),
                    x,
                ) ==> item_name(final(self).module_infos@, x) == item_name(old(self).module_infos@, x),
    {
        let mut bundled: ConflictTree<(u32, u32)> = ConflictTree::new();
        let mut abs: usize = 0;
        assert(self.module_infos@.take(0) =~= Seq::<ModuleInfo>::empty());
        assert(bundled@ == bundled_tree(self.module_infos@.take(0)));
        while abs < self.module_infos.len()
            invariant
                abs <= self.module_infos@.len(),
                self.module_infos@.len() <= u32::MAX,
                *self == *old(self),
                bundled@ == bundled_tree(self.module_infos@.take(abs as int)),
            decreases self.module_infos@.len() - abs,
        {
            let ghost q = self.module_infos@.take(abs + 1);
            let ghost b0 = bundled@;
            proof {
                assert(q.drop_last() =~= self.module_infos@.take(abs as int));
                assert(q.last() == self.module_infos@[abs as int]);
                assert(q.len() - 1 == abs);
                assert(bundled_tree(q.drop_last()) == b0);
                lemma_bundled_sum(q.drop_last());
            }
            if self.module_infos[abs].language == Language::Js {
                let t = self.module_infos[abs].conflict_tree.clone_and_annotate(abs as u32);
                bundled.append(t);
                proof {
                    let a = crate::conflict_tree::annotate_model(q.last().conflict_tree@, (q.len() - 1) as u32);
                    assert(t@ == a);
                    assert(bundled@ == (TreeModel { items: b0.items + a.items, children: b0.children + a.children, sum_of_children: 0 }));
                }
            }
            abs = abs + 1;
        }
        assert(self.module_infos@.take(abs as int) =~= self.module_infos@);
        let mut seen: Vec<String> = Vec::new();
        assert(name_views(seen@) =~= Seq::<Seq<char>>::empty());
        assert(name_views(seen@).to_set() =~= Set::<Seq<char>>::empty());
        self.rename(&bundled, &mut seen);
    }

    /// The order in which the modules are written (see `module_ordering`).
    pub fn find_module_ordering(&self) -> (r: Vec<u32>)
        requires
            self.module_infos@.len() <= u32::MAX,
        ensures
            is_permutation(r@, self.module_infos@.len()),
            acyclic(self.module_infos@) ==> imports_first(r@, self.module_infos@),
            r@ == dfs_order(self.module_infos@),
    {
        module_ordering(&self.module_infos)
    }

    /// Writes the whole program: the locals of the JavaScript modules are
    /// renamed apart, then inside `(function(window){` ... `})(this)` come
    /// the GLSL modules, the binary modules and the code of each
    /// JavaScript module, in dependency order. Stops at the first module
    /// whose translation finds errors, and fails when something could not
    /// be written.
    #[verifier::spinoff_prover]
    #[verifier::rlimit(100)]
    pub fn run(&mut self, debug: bool) -> (r: Result<(), BundleError>)
        requires
            old(self).module_infos@.len() <= u32::MAX,
            old(self).module_lambdas@.len() == old(self).module_infos@.len(),
        ensures
            same_but_names(old(self).module_infos@, final(self).module_infos@),
            final(self).module_lambdas == old(self).module_lambdas,
            r is Ok ==> final(self).ok,
            r is Ok ==> exists|order: Seq<u32>, glsl: Seq<(usize, BundledModule)>, items: Seq<Seq<JsAst>>|
                #[trigger] run_output(*old(self), *final(self), order, glsl, items),
            r matches Err(BundleError::Module(i, errs)) ==> i < old(self).module_infos@.len() && errs@.len() > 0,
            r matches Err(BundleError::TooLarge) <==> sum_src(old(self).module_infos@) > usize::MAX,
            r matches Err(BundleError::Module(i, errs)) ==> glsl_fails_with(
                final(self).module_infos@,
                old(self).module_lambdas@,
                i,
                errs@,
            ) || (final(self).module_infos@[i as int].language == Language::Js && errs@
                == crate::hyp_to_js::stmts_errs(
                old(self).module_lambdas@[i as int].expr@,
                old(self).module_lambdas@[i as int].expr@.len(),
            )),
            r matches Err(BundleError::Unwritable) ==> !final(self).ok || glsl_unwritable(
                final(self).module_infos@,
                old(self).module_lambdas@,
            ),
            sum_src(old(self).module_infos@) <= usize::MAX && run_clean(
                final(self).module_infos@,
                old(self).module_lambdas@,
            ) && final(self).ok ==> r is Ok,
    {
        if total_src_len(&self.module_infos).is_none() {
            return Err(BundleError::TooLarge);
        }
        proof {
            lemma_bundle_len(self.module_infos@);
        }
        self.resolve_name_conflicts();
        proof {
            lemma_bundle_same_but_names(old(self).module_infos@, self.module_infos@);
        }
        let order = self.find_module_ordering();
        self.write_iife_begin_plain();
        let ghost start = self.buf@;
        let mut glsl = GlslBundler::bundle(&self.module_infos, self.module_lambdas, &order, debug);
        match first_glsl_failure(&glsl) {
            Some(g) => {
                proof {
                    assert(glsl_bundler::bundle_result(self.module_infos@, self.module_lambdas@, order@, glsl@));
                    assert(glsl@[g as int] == glsl@[g as int]);
                }
                if glsl[g].1.errors.len() > 0 {
                    let ghost gg = glsl@;
                    let (abs, bm) = glsl.remove(g);
                    proof {
                        assert(gg[g as int].0 == abs && gg[g as int].1.errors@ == bm.errors@);
                        assert(glsl_fails_with(self.module_infos@, self.module_lambdas@, abs, bm.errors@));
                        assert(gg[g as int].0 < self.module_infos@.len());
                    }
                    return Err(BundleError::Module(abs, bm.errors));
                } else {
                    proof {
                        assert(glsl_unwritable(self.module_infos@, self.module_lambdas@));
                    }
                    return Err(BundleError::Unwritable);
                }
            },
            None => {},
        }
        let ghost g = glsl@;
        let ghost infos1 = self.module_infos@;
        let ghost fm0 = self.glsl_fn_map@;
        self.write_glsl(glsl);
        let bin = binary::bundler::Bundler::bundle(&mut self.module_infos);
        self.write_bin(bin);
        let ghost b_js = self.buf@;
        proof {
            assert(b_js =~= start + glsl_bundle_text(infos1, g) + bin_text(
                binary::bundler::spec_bundle(infos1).0,
                binary::bundler::spec_bundle(infos1).1,
            ));
        }
        let ghost cfix = ctx(*self);
        let ghost mut items: Seq<Seq<JsAst>> = Seq::empty();
        let mut k: usize = 0;
        while k < order.len()
            invariant
                k <= order@.len(),
                is_permutation(order@, self.module_infos@.len()),
                same_but_names(old(self).module_infos@, self.module_infos@),
                self.module_lambdas == old(self).module_lambdas,
                self.module_lambdas@.len() == self.module_infos@.len(),
                self.module_infos@ == infos1,
                cfix.0 == infos1,
                cfix.2 == self.glsl_fn_map@,
                cfix.3 == self.wasm_offsets@,
                cfix.4 == self.indent_len,
                self.glsl_fn_map@ == fm0 + glsl_bundle_entries(g),
                js_items_of(self.module_lambdas@, infos1, order@, items, k as nat),
                self.buf@ == b_js + js_modules_text(cfix, order@, items, k as nat),
                start == old(self).buf@ + "(function(window){\n"@,
                sum_src(old(self).module_infos@) <= usize::MAX,
            decreases order@.len() - k,
        {
            let idx = order[k] as usize;
            let ghost items0 = items;
            if self.module_infos[idx].language == Language::Js {
                let mut enc = JsEnc::new();
                enc.parse_hyp(&self.module_lambdas[idx].expr);
                if enc.errors.len() > 0 {
                    proof {
                        assert(enc.errors@ =~= crate::hyp_to_js::stmts_errs(
                            self.module_lambdas@[idx as int].expr@,
                            self.module_lambdas@[idx as int].expr@.len(),
                        ));
                    }
                    return Err(BundleError::Module(idx, enc.errors));
                }
                self.current_module = idx;
                self.stmts_inner_to_js(&enc.module.items, prec_max(), false);
                proof {
                    items = items.push(enc.module.items@);
                    assert(items[k as int] == enc.module.items@);
                    assert(crate::hyp_to_js::stmts_of(self.module_lambdas@[idx as int].expr@, items[k as int]));
                    assert(crate::hyp_to_js::stmts_errs(
                        self.module_lambdas@[idx as int].expr@,
                        self.module_lambdas@[idx as int].expr@.len(),
                    ).len() == 0);
                }
            } else {
                proof {
                    items = items.push(Seq::empty());
                    assert(!(infos1[order@[k as int] as int].language == Language::Js));
                }
            }
            proof {
                assert(js_modules_text(cfix, order@, items, (k + 1) as nat) == js_modules_text(
                    cfix,
                    order@,
                    items0,
                    k as nat,
                ) + if (order@[k as int] as int) < cfix.0.len() && cfix.0[order@[k as int] as int].language
                    == Language::Js {
                    inner_text(
                        (cfix.0, order@[k as int] as usize, cfix.2, cfix.3, cfix.4),
                        items[k as int],
                        items[k as int].len(),
                        js_prec_of(16),
                        false,
                    )
                } else {
                    Seq::empty()
                }) by {
                    lemma_js_modules_prefix(cfix, order@, items0, items, k as nat);
                }
                assert(self.buf@ =~= b_js + js_modules_text(cfix, order@, items, (k + 1) as nat));
                assert forall|j: int|
                    0 <= j < k + 1 && (order@[j] as int) < infos1.len() && infos1[order@[j] as int].language
                        == Language::Js implies crate::hyp_to_js::stmts_of(
                    self.module_lambdas@[order@[j] as int].expr@,
                    #[trigger] items[j],
                ) && crate::hyp_to_js::stmts_errs(
                    self.module_lambdas@[order@[j] as int].expr@,
                    self.module_lambdas@[order@[j] as int].expr@.len(),
                ).len() == 0 by {
                    if j < k {
                        assert(items[j] == items0[j]);
                        assert(crate::hyp_to_js::stmts_of(self.module_lambdas@[order@[j] as int].expr@, items0[j]));
                    }
                }
                assert(items.len() == k + 1);
                assert(js_items_of(self.module_lambdas@, infos1, order@, items, (k + 1) as nat));
            }
            k = k + 1;
        }
        self.write_iife_end();
        if !self.ok {
            return Err(BundleError::Unwritable);
        }
        proof {
            assert(ctx(*self).0 == cfix.0);
            assert(js_modules_text(ctx(*self), order@, items, order@.len()) == js_modules_text(
                cfix,
                order@,
                items,
                order@.len(),
            )) by {
                lemma_js_modules_ctx(ctx(*self), cfix, order@, items, order@.len());
            }
            assert(self.buf@ =~= old(self).buf@ + "(function(window){\n"@ + glsl_bundle_text(infos1, g) + bin_text(
                binary::bundler::spec_bundle(infos1).0,
                binary::bundler::spec_bundle(infos1).1,
            ) + js_modules_text(ctx(*self), order@, items, order@.len()) + "})(this)"@);
            assert(run_output(*old(self), *self, order@, g, items));
        }
        Ok(())
    }
}


/// The code of the JavaScript modules of `order`, in that order: the
/// statements of each, `items`, written one per line in the context `c`
/// with the module as the current one.
pub open spec fn js_modules_text(c: PrintCtx, order: Seq<u32>, items: Seq<Seq<JsAst>>, k: nat) -> Seq<char>
    decreases k,
{
    if k == 0 || k > order.len() || k > items.len() {
        Seq::empty()
    } else {
        js_modules_text(c, order, items, (k - 1) as nat) + if (order[k - 1] as int) < c.0.len() && c.0[order[k
            - 1] as int].language == Language::Js {
            inner_text(
                (c.0, order[k - 1] as usize, c.2, c.3, c.4),
                items[k - 1],
                items[k - 1].len(),
                js_prec_of(16),
                false,
            )
        } else {
            Seq::empty()
        }
    }
}

/// `js_modules_text` reads only the first `k` statement lists.
proof fn lemma_js_modules_prefix(c: PrintCtx, order: Seq<u32>, a: Seq<Seq<JsAst>>, b: Seq<Seq<JsAst>>, k: nat)
    requires
        k <= a.len(),
        k < b.len(),
        forall|j: int| 0 <= j < k ==> a[j] == b[j],
    ensures
        js_modules_text(c, order, a, k) == js_modules_text(c, order, b, k),
    decreases k,
{
    if k > 0 {
        lemma_js_modules_prefix(c, order, a, b, (k - 1) as nat);
    }
}

/// `js_modules_text` does not read the current module of the context.
proof fn lemma_js_modules_ctx(c: PrintCtx, d: PrintCtx, order: Seq<u32>, items: Seq<Seq<JsAst>>, k: nat)
    requires
        c.0 == d.0,
        c.2 == d.2,
        c.3 == d.3,
        c.4 == d.4,
    ensures
        js_modules_text(c, order, items, k) == js_modules_text(d, order, items, k),
    decreases k,
{
    if k > 0 {
        lemma_js_modules_ctx(c, d, order, items, (k - 1) as nat);
    }
}

/// `items` are the translations of the bodies of the JavaScript modules of
/// `order`, each found without errors.
pub open spec fn js_items_of(
    lambdas: Seq<AstLambda>,
    infos: Seq<ModuleInfo>,
    order: Seq<u32>,
    items: Seq<Seq<JsAst>>,
    k: nat,
) -> bool {
    &&& items.len() == k
    &&& forall|j: int|
        0 <= j < k && (order[j] as int) < infos.len() && infos[order[j] as int].language == Language::Js
            ==> crate::hyp_to_js::stmts_of(lambdas[order[j] as int].expr@, #[trigger] items[j])
            && crate::hyp_to_js::stmts_errs(
            lambdas[order[j] as int].expr@,
            lambdas[order[j] as int].expr@.len(),
        ).len() == 0
}

/// What `run` writes after `before`, given the order of the modules, the
/// GLSL modules written out and the translated JavaScript modules: the
/// program's opening, the GLSL modules, the binary modules, the code of the
/// JavaScript modules in order, and the closing.
pub open spec fn run_output(
    before: JsBundler,
    after: JsBundler,
    order: Seq<u32>,
    glsl: Seq<(usize, BundledModule)>,
    items: Seq<Seq<JsAst>>,
) -> bool {
    let infos = after.module_infos@;
    &&& is_permutation(order, infos.len())
    &&& glsl_bundler::bundle_result(infos, before.module_lambdas@, order, glsl)
    &&& forall|i: int| 0 <= i < glsl.len() ==> #[trigger] glsl[i].1.errors@.len() == 0 && glsl[i].1.ok
    &&& js_items_of(before.module_lambdas@, infos, order, items, order.len())
    &&& after.glsl_fn_map@ == before.glsl_fn_map@ + glsl_bundle_entries(glsl)
    &&& after.buf@ == before.buf@ + "(function(window){\n"@ + glsl_bundle_text(infos, glsl) + bin_text(
        binary::bundler::spec_bundle(infos).0,
        binary::bundler::spec_bundle(infos).1,
    ) + js_modules_text(ctx(after), order, items, order.len()) + "})(this)"@
}

/// Bundling the GLSL modules in some order of all the modules fails on the
/// module `i` with the errors `errs`.
pub open spec fn glsl_fails_with(
    infos: Seq<ModuleInfo>,
    lambdas: Seq<AstLambda>,
    i: usize,
    errs: Seq<hyp::ParseError>,
) -> bool {
    exists|order: Seq<u32>, glsl: Seq<(usize, BundledModule)>, g: int|
        is_permutation(order, infos.len()) && #[trigger] glsl_bundler::bundle_result(infos, lambdas, order, glsl)
            && 0 <= g < glsl.len() && #[trigger] glsl[g].0 == i && glsl[g].1.errors@ == errs
}

/// Bundling the GLSL modules in some order gives a module without errors
/// that could not be written.
pub open spec fn glsl_unwritable(infos: Seq<ModuleInfo>, lambdas: Seq<AstLambda>) -> bool {
    exists|order: Seq<u32>, glsl: Seq<(usize, BundledModule)>, g: int|
        is_permutation(order, infos.len()) && #[trigger] glsl_bundler::bundle_result(infos, lambdas, order, glsl)
            && 0 <= g < glsl.len() && #[trigger] glsl[g].1.errors@.len() == 0 && !glsl[g].1.ok
}

/// In every order of the modules the GLSL modules bundle without errors
/// and can be written, and no JavaScript module has translation errors.
pub open spec fn run_clean(infos: Seq<ModuleInfo>, lambdas: Seq<AstLambda>) -> bool {
    &&& forall|order: Seq<u32>, glsl: Seq<(usize, BundledModule)>, g: int|
        is_permutation(order, infos.len()) && #[trigger] glsl_bundler::bundle_result(infos, lambdas, order, glsl)
            && 0 <= g < glsl.len() ==> #[trigger] glsl[g].1.errors@.len() == 0 && glsl[g].1.ok
    &&& forall|i: int|
        0 <= i < infos.len() && i < lambdas.len() && #[trigger] infos[i].language == Language::Js
            ==> crate::hyp_to_js::stmts_errs(lambdas[i].expr@, lambdas[i].expr@.len()).len() == 0
}

/// Why a program could not be built from parsed modules.
pub enum BuildError {
    /// The module at this index refers to locals, types or uses it does
    /// not declare, or to modules that are not among those given.
    Malformed(usize),
    /// Resolving the module at this index found these errors.
    Resolve(usize, Vec<hyp::ParseError>),
    /// Writing the program failed.
    Bundle(BundleError),
}

/// Module `m`, with uses mapped to modules by `import_map`, is
/// well formed among `n` modules.
pub open spec fn entry_ok(m: hyp::Module, import_map: Seq<u32>, n: nat) -> bool {
    &&& hyp::module_ok(m)
    &&& import_map.len() == m.uses@.len()
    &&& forall|k: int| 0 <= k < import_map.len() ==> #[trigger] import_map[k] < n
}

/// The bytes of the sources of `mods` together.
pub open spec fn sum_module_src(mods: Seq<(String, hyp::Module, Vec<u32>)>) -> nat
    decreases mods.len(),
{
    if mods.len() == 0 {
        0
    } else {
        sum_module_src(mods.drop_last()) + mods.last().1.src@.len()
    }
}

/// Module infos with the sources of `mods` hold as many bytes.
proof fn lemma_sum_module_src(mods: Seq<(String, hyp::Module, Vec<u32>)>, infos: Seq<ModuleInfo>)
    requires
        mods.len() == infos.len(),
        forall|i: int| 0 <= i < mods.len() ==> #[trigger] infos[i].src@ == mods[i].1.src@,
    ensures
        sum_src(infos) == sum_module_src(mods),
    decreases mods.len(),
{
    if mods.len() > 0 {
        lemma_sum_module_src(mods.drop_last(), infos.drop_last());
    }
}

/// Module `entry` (its name, the parsed module and its import map) split
/// into the info `info` and the root lambda `root`: a copy of its root
/// lambda, and its name, source, path, language, exports and import map,
/// as many locals and local types as it declares, an empty conflict tree.
pub open spec fn prepared(entry: (String, hyp::Module, Vec<u32>), info: ModuleInfo, root: AstLambda) -> bool {
    &&& hyp::same_lambda(entry.1.lambda, root)
    &&& info.name@ == entry.0@
    &&& info.src@ == entry.1.src@
    &&& info.path@ == entry.1.path@
    &&& info.language == entry.1.language
    &&& info.exports@ == entry.1.exports@
    &&& info.import_map@ == entry.2@
    &&& info.locals@.len() == entry.1.locals@.len()
    &&& info.local_types@.len() == entry.1.local_types@.len()
    &&& info.conflict_tree@.items.len() == 0
    &&& info.conflict_tree@.children.len() == 0
    &&& !info.external
}

/// Each module of `mods` prepared as the info and root lambda of the same
/// index.
pub open spec fn prepared_all(mods: Seq<(String, hyp::Module, Vec<u32>)>, infos: Seq<ModuleInfo>, roots: Seq<AstLambda>) -> bool {
    &&& infos.len() == mods.len()
    &&& roots.len() == mods.len()
    &&& forall|j: int| 0 <= j < mods.len() ==> #[trigger] prepared(mods[j], infos[j], roots[j])
}

/// Resolving the module `i` of the infos `infos`, whose root lambda is
/// `l`, can end with the infos `infos2`, the root lambda `l2` and the
/// errors `errs`: a fresh resolver for the module (as `Resolver::new`
/// gives it) resolves `l` as `Resolver::resolve` states.
pub open spec fn resolution_step(
    infos: Seq<ModuleInfo>,
    l: AstLambda,
    i: usize,
    debug: bool,
    infos2: Seq<ModuleInfo>,
    l2: AstLambda,
    errs: Seq<hyp::ParseError>,
) -> bool {
    exists|s: hyp::resolver::Resolver, t: hyp::resolver::Resolver|
        #[trigger] hyp::resolver::resolve_post(s, l, t, l2) && s.inv() && s.current_module == i
            && s.module_infos@ == infos && s.debug == debug && s.errors@.len() == 0
            && s.conflict_tree_stack@.len() == 1 && t.module_infos@ == infos2 && t.errors@ == errs
}

/// Building from `mods` can go this way up to the module `k`: the modules
/// are prepared as the infos `states[0]` and the root lambdas `roots`;
/// then each module `j` below `k` in turn is resolved from `states[j]`,
/// leaving `states[j + 1]`, its root lambda resolved as `lams[j]` and the
/// errors `errs[j]`.
pub open spec fn course(
    mods: Seq<(String, hyp::Module, Vec<u32>)>,
    debug: bool,
    roots: Seq<AstLambda>,
    states: Seq<Seq<ModuleInfo>>,
    lams: Seq<AstLambda>,
    errs: Seq<Seq<hyp::ParseError>>,
    k: nat,
) -> bool {
    &&& k <= mods.len()
    &&& states.len() == k + 1
    &&& lams.len() == k
    &&& errs.len() == k
    &&& prepared_all(mods, states[0], roots)
    &&& forall|j: int|
        0 <= j < k ==> #[trigger] resolution_step(states[j], roots[j], j as usize, debug, states[j + 1], lams[j], errs[j])
}

/// No module below `k` had resolution errors.
pub open spec fn clean_below(errs: Seq<Seq<hyp::ParseError>>, k: int) -> bool {
    forall|j: int| 0 <= j < k ==> #[trigger] errs[j].len() == 0
}

/// `b` is a bundler that has written nothing yet, over the infos `infos`
/// and the root lambdas `lams`.
pub open spec fn fresh_bundler(b: JsBundler, infos: Seq<ModuleInfo>, lams: Seq<AstLambda>) -> bool {
    &&& b.buf@.len() == 0
    &&& b.indent_len == 0
    &&& b.current_module == 0
    &&& b.module_infos@ == infos
    &&& b.module_lambdas@ == lams
    &&& b.glsl_fn_map@.len() == 0
    &&& b.wasm_offsets@.len() == 0
    &&& b.ok
}

/// Whether every index of `import_map` is below `n`.
fn imports_in_range(import_map: &Vec<u32>, n: usize) -> (r: bool)
    ensures
        r == forall|k: int| 0 <= k < import_map@.len() ==> #[trigger] import_map@[k] < n,
{
    let mut k: usize = 0;
    while k < import_map.len()
        invariant
            k <= import_map@.len(),
            forall|j: int| 0 <= j < k ==> #[trigger] import_map@[j] < n,
        decreases import_map@.len() - k,
    {
        if (import_map[k] as usize) >= n {
            return false;
        }
        k = k + 1;
    }
    true
}

/// Checks the modules in turn and splits each into its info and root
/// lambda; fails with the index of the first malformed module.
fn prepare_modules(modules: &Vec<(String, hyp::Module, Vec<u32>)>) -> (r: Result<
    (Vec<ModuleInfo>, Vec<AstLambda>),
    usize,
>)
    ensures
        r matches Err(i) ==> i < modules@.len() && !entry_ok(modules@[i as int].1, modules@[i as int].2@, modules@.len())
            && forall|j: int| 0 <= j < i ==> entry_ok(#[trigger] modules@[j].1, modules@[j].2@, modules@.len()),
        r matches Ok(p) ==> prepared_all(modules@, p.0@, p.1@),
        r is Ok ==> forall|j: int| 0 <= j < modules@.len() ==> entry_ok(#[trigger] modules@[j].1, modules@[j].2@, modules@.len()),
        r matches Ok(p) ==> forall|j: int|
            0 <= j < modules@.len() ==> hyp::lambda_ok(
                #[trigger] p.1@[j],
                p.0@[j].locals@.len(),
                p.0@[j].local_types@.len(),
                p.0@[j].import_map@.len(),
            ),
{
    let n = modules.len();
    let mut infos: Vec<ModuleInfo> = Vec::new();
    let mut lambdas: Vec<AstLambda> = Vec::new();
    let mut i: usize = 0;
    while i < n
        invariant
            i <= n,
            n == modules@.len(),
            infos@.len() == i,
            lambdas@.len() == i,
            forall|j: int| 0 <= j < i ==> entry_ok(#[trigger] modules@[j].1, modules@[j].2@, n as nat),
            forall|j: int|
                0 <= j < i ==> hyp::lambda_ok(
                    #[trigger] lambdas@[j],
                    infos@[j].locals@.len(),
                    infos@[j].local_types@.len(),
                    infos@[j].import_map@.len(),
                ),
            forall|j: int| 0 <= j < i ==> #[trigger] prepared(modules@[j], infos@[j], lambdas@[j]),
        decreases n - i,
    {
        let m = &modules[i].1;
        let im = &modules[i].2;
        if im.len() != m.uses.len() || !imports_in_range(im, n) || !hyp::check::module_is_ok(m) {
            return Err(i);
        }
        let mc = m.copy();
        let mut im2: Vec<u32> = Vec::new();
        let mut k: usize = 0;
        while k < im.len()
            invariant
                k <= im@.len(),
                im2@ == im@.take(k as int),
            decreases im@.len() - k,
        {
            im2.push(im[k]);
            k = k + 1;
            assert(im2@ =~= im@.take(k as int));
        }
        assert(im@.take(k as int) =~= im@);
        let (l, info) = ModuleInfo::from_module(modules[i].0.clone(), im2, mc);
        assert(prepared(modules@[i as int], info, l));
        let ghost infos0 = infos@;
        let ghost lams0 = lambdas@;
        infos.push(info);
        lambdas.push(l);
        assert forall|j: int| 0 <= j < i + 1 implies #[trigger] prepared(modules@[j], infos@[j], lambdas@[j]) by {
            if j < i {
                assert(infos@[j] == infos0[j]);
                assert(lambdas@[j] == lams0[j]);
            }
        }
        i = i + 1;
    }
    Ok((infos, lambdas))
}

/// Resolves the module `i` of `infos`, whose root lambda is `l`, with a
/// fresh resolver, and gives back the infos and the errors it found.
fn resolve_module(infos: Vec<ModuleInfo>, l: &mut AstLambda, i: usize, debug: bool) -> (r: (
    Vec<ModuleInfo>,
    Vec<hyp::ParseError>,
))
    requires
        i < infos@.len(),
        forall|k: int|
            0 <= k < infos@[i as int].import_map@.len() ==> #[trigger] infos@[i as int].import_map@[k]
                < infos@.len(),
        hyp::lambda_ok(
            *old(l),
            infos@[i as int].locals@.len(),
            infos@[i as int].local_types@.len(),
            infos@[i as int].import_map@.len(),
        ),
    ensures
        resolution_step(infos@, *old(l), i, debug, r.0@, *final(l), r.1@),
        r.0@.len() == infos@.len(),
        forall|j: int| 0 <= j < infos@.len() && j != i ==> #[trigger] r.0@[j] == infos@[j],
        r.0@[i as int].import_map == infos@[i as int].import_map,
        r.0@[i as int].src == infos@[i as int].src,
{
    let mut resolver = hyp::resolver::Resolver::new(i, infos, debug);
    let ghost s = resolver;
    resolver.resolve(l);
    proof {
        assert(hyp::resolver::resolve_post(s, *old(l), resolver, *l));
    }
    (resolver.module_infos, resolver.errors)
}

/// Builds the program from parsed modules, each given with its name and,
/// for each of its uses, the index of the module used: every module is
/// checked, resolved in turn, and then all are written by a `JsBundler`.
/// Fails on the first malformed module, when the sources are too large
/// together, on the first module whose resolution finds errors, or when
/// the bundler fails.
#[verifier::spinoff_prover]
pub fn bundle_js(modules: &Vec<(String, hyp::Module, Vec<u32>)>, debug: bool) -> (r: Result<String, BuildError>)
    requires
        modules@.len() <= u32::MAX,
    ensures
        r matches Err(BuildError::Malformed(i)) ==> i < modules@.len() && !entry_ok(
            modules@[i as int].1,
            modules@[i as int].2@,
            modules@.len(),
        ),
        !(r matches Err(BuildError::Malformed(_))) <==> forall|i: int|
            0 <= i < modules@.len() ==> entry_ok(#[trigger] modules@[i].1, modules@[i].2@, modules@.len()),
        r matches Err(BuildError::Bundle(BundleError::TooLarge)) <==> (forall|i: int|
            0 <= i < modules@.len() ==> entry_ok(#[trigger] modules@[i].1, modules@[i].2@, modules@.len()))
            && sum_module_src(modules@) > usize::MAX,
        r matches Err(BuildError::Resolve(i, errs)) ==> i < modules@.len() && errs@.len() > 0
            && sum_module_src(modules@) <= usize::MAX && exists|
            roots: Seq<AstLambda>,
            states: Seq<Seq<ModuleInfo>>,
            lams: Seq<AstLambda>,
            es: Seq<Seq<hyp::ParseError>>,
        |
            #[trigger] course(modules@, debug, roots, states, lams, es, (i + 1) as nat) && clean_below(es, i as int)
                && es[i as int] == errs@,
        r matches Ok(s) ==> exists|
            roots: Seq<AstLambda>,
            states: Seq<Seq<ModuleInfo>>,
            lams: Seq<AstLambda>,
            es: Seq<Seq<hyp::ParseError>>,
        |
            #[trigger] course(modules@, debug, roots, states, lams, es, modules@.len()) && clean_below(
                es,
                modules@.len() as int,
            ) && exists|
                b0: JsBundler,
                b: JsBundler,
                order: Seq<u32>,
                glsl: Seq<(usize, BundledModule)>,
                items: Seq<Seq<JsAst>>,
            |
                #[trigger] run_output(b0, b, order, glsl, items) && fresh_bundler(
                    b0,
                    states[modules@.len() as int],
                    lams,
                ) && s@ == b.buf@,
        r matches Err(BuildError::Bundle(BundleError::Module(i, errs))) ==> exists|
            roots: Seq<AstLambda>,
            states: Seq<Seq<ModuleInfo>>,
            lams: Seq<AstLambda>,
            es: Seq<Seq<hyp::ParseError>>,
        |
            #[trigger] course(modules@, debug, roots, states, lams, es, modules@.len()) && clean_below(
                es,
                modules@.len() as int,
            ) && i < modules@.len() && errs@.len() > 0 && exists|infos2: Seq<ModuleInfo>|
                #[trigger] same_but_names(states[modules@.len() as int], infos2) && (glsl_fails_with(
                    infos2,
                    lams,
                    i,
                    errs@,
                ) || (infos2[i as int].language == Language::Js && errs@ == crate::hyp_to_js::stmts_errs(
                    lams[i as int].expr@,
                    lams[i as int].expr@.len(),
                ))),
        r matches Err(BuildError::Bundle(BundleError::Unwritable)) ==> exists|
            roots: Seq<AstLambda>,
            states: Seq<Seq<ModuleInfo>>,
            lams: Seq<AstLambda>,
            es: Seq<Seq<hyp::ParseError>>,
        |
            #[trigger] course(modules@, debug, roots, states, lams, es, modules@.len()) && clean_below(
                es,
                modules@.len() as int,
            ),
{
    let n = modules.len();
    proof {
        assert(modules@.len() == n);
    }
    let (mut infos, mut lambdas) = match prepare_modules(modules) {
        Ok(p) => p,
        Err(i) => {
            return Err(BuildError::Malformed(i));
        },
    };
    proof {
        assert forall|j: int| 0 <= j < n implies #[trigger] infos@[j].src@ == modules@[j].1.src@ by {
            assert(prepared(modules@[j], infos@[j], lambdas@[j]));
        }
        lemma_sum_module_src(modules@, infos@);
    }
    if total_src_len(&infos).is_none() {
        return Err(BuildError::Bundle(BundleError::TooLarge));
    }
    let ghost roots = lambdas@;
    let ghost mut states: Seq<Seq<ModuleInfo>> = seq![infos@];
    let ghost mut lams: Seq<AstLambda> = Seq::empty();
    let ghost mut es: Seq<Seq<hyp::ParseError>> = Seq::empty();
    proof {
        assert forall|j: int| 0 <= j < n implies #[trigger] infos@[j].import_map@ == modules@[j].2@ by {
            assert(prepared(modules@[j], infos@[j], lambdas@[j]));
        }
    }
    let mut i: usize = 0;
    while i < n
        invariant
            i <= n,
            n == modules@.len(),
            n <= u32::MAX,
            course(modules@, debug, roots, states, lams, es, i as nat),
            clean_below(es, i as int),
            infos@ == states[i as int],
            infos@.len() == n,
            lambdas@.len() == n,
            forall|j: int| 0 <= j < i ==> #[trigger] lambdas@[j] == lams[j],
            forall|j: int| i <= j < n ==> #[trigger] lambdas@[j] == roots[j],
            forall|j: int| i <= j < n ==> #[trigger] infos@[j] == states[0][j],
            forall|j: int| 0 <= j < n ==> #[trigger] infos@[j].src@ == modules@[j].1.src@,
            forall|j: int| 0 <= j < n ==> #[trigger] infos@[j].import_map@ == modules@[j].2@,
            forall|j: int| 0 <= j < n ==> entry_ok(#[trigger] modules@[j].1, modules@[j].2@, n as nat),
            forall|j: int|
                0 <= j < n ==> hyp::lambda_ok(
                    #[trigger] roots[j],
                    states[0][j].locals@.len(),
                    states[0][j].local_types@.len(),
                    states[0][j].import_map@.len(),
                ),
            sum_module_src(modules@) <= usize::MAX,
        decreases n - i,
    {
        let mut taken: Vec<ModuleInfo> = Vec::new();
        std::mem::swap(&mut taken, &mut infos);
        let ghost before = taken@;
        let ghost lbefore = lambdas@;
        proof {
            assert(taken@[i as int].import_map@ == modules@[i as int].2@);
            assert(entry_ok(modules@[i as int].1, modules@[i as int].2@, n as nat));
            assert(taken@[i as int] == states[0][i as int]);
            assert(lambdas@[i as int] == roots[i as int]);
        }
        let (infos2, errs) = resolve_module(taken, &mut lambdas[i], i, debug);
        proof {
            let l2 = lambdas@[i as int];
            assert(resolution_step(before, roots[i as int], i, debug, infos2@, l2, errs@));
            let states2 = states.push(infos2@);
            let lams2 = lams.push(l2);
            let es2 = es.push(errs@);
            assert forall|j: int| 0 <= j < i + 1 implies #[trigger] resolution_step(
                states2[j],
                roots[j],
                j as usize,
                debug,
                states2[j + 1],
                lams2[j],
                es2[j],
            ) by {
                if j < i {
                    assert(resolution_step(states[j], roots[j], j as usize, debug, states[j + 1], lams[j], es[j]));
                }
            }
            assert(states2[0] == states[0]);
            states = states2;
            lams = lams2;
            es = es2;
        }
        if errs.len() > 0 {
            proof {
                assert(course(modules@, debug, roots, states, lams, es, (i + 1) as nat));
                assert forall|j: int| 0 <= j < i implies #[trigger] es[j].len() == 0 by {
                    assert(es[j] == es.drop_last()[j]);
                }
                assert(clean_below(es, i as int));
                assert(es[i as int] == errs@);
                assert(sum_module_src(modules@) <= usize::MAX);
                assert(exists|
                    roots: Seq<AstLambda>,
                    states: Seq<Seq<ModuleInfo>>,
                    lams: Seq<AstLambda>,
                    es: Seq<Seq<hyp::ParseError>>,
                |
                    #[trigger] course(modules@, debug, roots, states, lams, es, (i + 1) as nat) && clean_below(es, i as int)
                        && es[i as int] == errs@);
            }
            return Err(BuildError::Resolve(i, errs));
        }
        infos = infos2;
        proof {
            assert forall|j: int| 0 <= j < i + 1 implies #[trigger] lambdas@[j] == lams[j] by {
                if j < i {
                    assert(lambdas@[j] == lbefore[j]);
                }
            }
            assert forall|j: int| i + 1 <= j < n implies #[trigger] lambdas@[j] == roots[j] by {
                assert(lambdas@[j] == lbefore[j]);
            }
            assert forall|j: int| i + 1 <= j < n implies #[trigger] infos@[j] == states[0][j] by {
                assert(infos@[j] == before[j]);
            }
            assert forall|j: int| 0 <= j < n implies #[trigger] infos@[j].src@ == modules@[j].1.src@
                && infos@[j].import_map@ == modules@[j].2@ by {
                if j != i {
                    assert(infos@[j] == before[j]);
                }
            }
            assert(clean_below(es, (i + 1) as int));
        }
        i = i + 1;
    }
    proof {
        lemma_sum_module_src(modules@, infos@);
        assert(lambdas@ =~= lams);
    }
    let mut bundler = JsBundler::new(infos, &lambdas);
    let ghost b0 = bundler;
    proof {
        assert(fresh_bundler(b0, states[n as int], lams));
    }
    match bundler.run(debug) {
        Ok(()) => {
            proof {
                let (order, glsl, items) = choose|
                    order: Seq<u32>,
                    glsl: Seq<(usize, BundledModule)>,
                    items: Seq<Seq<JsAst>>,
                | #[trigger] run_output(b0, bundler, order, glsl, items);
                assert(run_output(b0, bundler, order, glsl, items) && fresh_bundler(b0, states[n as int], lams)
                    && bundler.buf@ == bundler.buf@);
                assert(course(modules@, debug, roots, states, lams, es, n as nat));
            }
            Ok(bundler.buf)
        },
        Err(e) => {
            proof {
                assert(course(modules@, debug, roots, states, lams, es, n as nat));
                if e is Module {
                    assert(same_but_names(states[n as int], bundler.module_infos@));
                }
            }
            Err(BuildError::Bundle(e))
        },
    }
}

} // verus!
