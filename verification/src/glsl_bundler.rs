use vstd::prelude::*;
use crate::hyp;
use crate::hyp::parser::text_is;
use crate::hyp_to_glsl::{GlslAst, GlslEnc, GlslLit, GlslModule, GlslOp, GlslType, GlslUnop, gitems_errs, module_of};
use crate::text::{push_char, push_decimal, decimal};

verus! {

/// An operator precedence (lower binds tighter) and the side it groups on
/// (-1 left, 1 right, 0 either).
#[derive(Clone, Copy, PartialEq, Eq, Structural)]
pub struct Prec(pub u32, pub i32);

impl Prec {
    /// Whether an operator of this precedence needs parentheses in `slot`.
    pub open spec fn spec_need_paren(self, slot: Prec) -> bool {
        self.0 > slot.0 || (self.0 == slot.0 && self.1 != slot.1)
    }

    /// Whether an operator of this precedence needs parentheses in `slot`.
    pub fn need_paren(self, slot: Prec) -> (r: bool)
        ensures
            r == self.spec_need_paren(slot),
    {
        self.0 > slot.0 || (self.0 == slot.0 && self.1 != slot.1)
    }

    pub fn on_left(self) -> (r: Prec)
        ensures
            r == Prec(self.0, -1i32),
    {
        Prec(self.0, -1i32)
    }

    pub fn on_right(self) -> (r: Prec)
        ensures
            r == Prec(self.0, 1),
    {
        Prec(self.0, 1)
    }

    pub fn on_either(self) -> (r: Prec)
        ensures
            r == Prec(self.0, 0),
    {
        Prec(self.0, 0)
    }
}

#[derive(Clone, Copy, PartialEq, Eq, Structural)]
pub enum NeedSemi {
    No,
    Yes,
}

pub fn prec_dot_bracket() -> (r: Prec)
    ensures
        r == Prec(2, -1i32),
{
    Prec(2, -1i32)
}
pub fn prec_call() -> (r: Prec)
    ensures
        r == Prec(2, -1i32),
{
    Prec(2, -1i32)
}
pub fn prec_pre_inc_dec() -> (r: Prec)
    ensures
        r == Prec(3, 0),
{
    Prec(3, 0)
}
pub fn prec_unary_plus_minus() -> (r: Prec)
    ensures
        r == Prec(3, 1),
{
    Prec(3, 1)
}
pub fn prec_mul_div_rem() -> (r: Prec)
    ensures
        r == Prec(4, -1i32),
{
    Prec(4, -1i32)
}
pub fn prec_plus_minus() -> (r: Prec)
    ensures
        r == Prec(5, -1i32),
{
    Prec(5, -1i32)
}
pub fn prec_ineq() -> (r: Prec)
    ensures
        r == Prec(7, -1i32),
{
    Prec(7, -1i32)
}
pub fn prec_eq() -> (r: Prec)
    ensures
        r == Prec(8, -1i32),
{
    Prec(8, -1i32)
}
pub fn prec_andand() -> (r: Prec)
    ensures
        r == Prec(12, -1i32),
{
    Prec(12, -1i32)
}
pub fn prec_oror() -> (r: Prec)
    ensures
        r == Prec(14, -1i32),
{
    Prec(14, -1i32)
}
pub fn prec_assign() -> (r: Prec)
    ensures
        r == Prec(16, 1),
{
    Prec(16, 1)
}
pub fn prec_comma() -> (r: Prec)
    ensures
        r == Prec(17, -1i32),
{
    Prec(17, -1i32)
}
pub fn prec_max() -> (r: Prec)
    ensures
        r == Prec(18, 0),
{
    Prec(18, 0)
}

/// What may stand next to a token without a space between.
#[derive(Clone, Copy, PartialEq, Eq, Structural)]
pub enum TokenKind {
    /// Cannot be next to another operator.
    Op,
    /// Can be next to anything: parentheses, commas, periods.
    Anything,
    /// Cannot be next to another name or number.
    Alphanum,
}

/// A piece of text and its kind.
pub struct Token<'a>(pub &'a str, pub TokenKind);

/// Writes tokens into a buffer, with a space only between two tokens of
/// the same kind that would otherwise run together.
pub struct Detokenizer {
    pub buf: String,
    pub minify: bool,
    pub indent_len: u32,
    pub prev_token_kind: TokenKind,
}

/// The text written for the token `t` of kind `k` after a token of kind `prev`.
pub open spec fn token_text(prev: TokenKind, t: Seq<char>, k: TokenKind) -> Seq<char> {
    if prev != TokenKind::Anything && prev == k {
        seq![' '] + t
    } else {
        t
    }
}

/// `n` spaces.
pub open spec fn spaces(n: nat) -> Seq<char> {
    Seq::new(n, |i: int| ' ')
}

/// The other fields of the detokenizer are unchanged.
pub open spec fn same_settings(a: Detokenizer, b: Detokenizer) -> bool {
    a.minify == b.minify && a.indent_len == b.indent_len
}

impl Detokenizer {
    pub fn new(minify: bool) -> (r: Detokenizer)
        ensures
            r.buf@.len() == 0,
            r.minify == minify,
            r.indent_len == 0,
            r.prev_token_kind == TokenKind::Anything,
    {
        Detokenizer { buf: String::new(), minify, indent_len: 0, prev_token_kind: TokenKind::Anything }
    }

    /// Writes a token, with a space before it when it would run together
    /// with the previous one.
    pub fn token<'a>(&mut self, t: Token<'a>)
        ensures
            final(self).buf@ == old(self).buf@ + token_text(old(self).prev_token_kind, t.0@, t.1),
            final(self).prev_token_kind == t.1,
            same_settings(*old(self), *final(self)),
            prefix_of(old(self).buf@, final(self).buf@),
    {
        if self.prev_token_kind != TokenKind::Anything && self.prev_token_kind == t.1 {
            push_char(&mut self.buf, ' ');
        }
        self.buf.append(t.0);
        proof {
            assert(self.buf@ =~= old(self).buf@ + token_text(old(self).prev_token_kind, t.0@, t.1));
        }
        self.prev_token_kind = t.1;
    }

    /// Writes a token that only serves layout, unless minifying.
    pub fn pretty_token<'a>(&mut self, t: Token<'a>)
        ensures
            old(self).minify ==> *final(self) == *old(self),
            !old(self).minify ==> final(self).buf@ == old(self).buf@ + token_text(
                old(self).prev_token_kind,
                t.0@,
                t.1,
            ) && final(self).prev_token_kind == t.1,
            same_settings(*old(self), *final(self)),
            prefix_of(old(self).buf@, final(self).buf@),
    {
        if !self.minify {
            self.token(t);
        }
    }

    pub fn lparen(&mut self)
        ensures
            final(self).buf@ == old(self).buf@ + "("@,
            final(self).prev_token_kind == TokenKind::Anything,
            same_settings(*old(self), *final(self)),
            prefix_of(old(self).buf@, final(self).buf@),
    {
        self.token(Token("(", TokenKind::Anything));
    }

    pub fn rparen(&mut self)
        ensures
            final(self).buf@ == old(self).buf@ + ")"@,
            final(self).prev_token_kind == TokenKind::Anything,
            same_settings(*old(self), *final(self)),
            prefix_of(old(self).buf@, final(self).buf@),
    {
        self.token(Token(")", TokenKind::Anything));
    }

    /// Opens a parenthesis when an operator of precedence `op` needs one
    /// in `slot`, and tells whether it did.
    pub fn wrap_p(&mut self, slot: Prec, op: Prec) -> (r: bool)
        ensures
            r == (op.0 > slot.0 || (op.0 == slot.0 && op.1 != slot.1)),
            r ==> final(self).buf@ == old(self).buf@ + "("@,
            r ==> final(self).prev_token_kind == TokenKind::Anything,
            !r ==> *final(self) == *old(self),
            same_settings(*old(self), *final(self)),
            prefix_of(old(self).buf@, final(self).buf@),
    {
        let p = op.need_paren(slot);
        if p {
            self.lparen();
        }
        p
    }

    /// Closes the parenthesis that `wrap_p` opened, if it did.
    pub fn unwrap_p(&mut self, f: bool)
        ensures
            f ==> final(self).buf@ == old(self).buf@ + ")"@,
            f ==> final(self).prev_token_kind == TokenKind::Anything,
            !f ==> *final(self) == *old(self),
            same_settings(*old(self), *final(self)),
            prefix_of(old(self).buf@, final(self).buf@),
    {
        if f {
            self.rparen();
        }
    }

    /// Indents by two spaces per level, unless minifying.
    pub fn indent(&mut self)
        ensures
            old(self).minify ==> *final(self) == *old(self),
            !old(self).minify ==> final(self).buf@ == old(self).buf@ + spaces(2 * old(self).indent_len as nat),
            !old(self).minify ==> final(self).prev_token_kind == if old(self).indent_len > 0 {
                TokenKind::Anything
            } else {
                old(self).prev_token_kind
            },
            same_settings(*old(self), *final(self)),
            prefix_of(old(self).buf@, final(self).buf@),
    {
        if !self.minify {
            let mut i: u32 = 0;
            while i < self.indent_len
                invariant
                    !self.minify,
                    i <= self.indent_len,
                    same_settings(*old(self), *self),
                    prefix_of(old(self).buf@, self.buf@),
                    self.buf@ == old(self).buf@ + spaces(2 * i as nat),
                    self.prev_token_kind == if i > 0 {
                        TokenKind::Anything
                    } else {
                        old(self).prev_token_kind
                    },
                decreases self.indent_len - i,
            {
                self.token(Token("  ", TokenKind::Anything));
                proof {
                    reveal_strlit("  ");
                    assert(spaces(2 * (i + 1) as nat) =~= spaces(2 * i as nat) + "  "@);
                }
                i = i + 1;
            }
        }
    }

    pub fn nl(&mut self)
        ensures
            old(self).minify ==> *final(self) == *old(self),
            !old(self).minify ==> final(self).buf@ == old(self).buf@ + "\n"@ && final(self).prev_token_kind
                == TokenKind::Anything,
            same_settings(*old(self), *final(self)),
            prefix_of(old(self).buf@, final(self).buf@),
    {
        self.pretty_token(Token("\n", TokenKind::Anything));
    }

    pub fn pretty_space(&mut self)
        ensures
            old(self).minify ==> *final(self) == *old(self),
            !old(self).minify ==> final(self).buf@ == old(self).buf@ + " "@ && final(self).prev_token_kind
                == TokenKind::Anything,
            same_settings(*old(self), *final(self)),
            prefix_of(old(self).buf@, final(self).buf@),
    {
        self.pretty_token(Token(" ", TokenKind::Anything));
    }

    pub fn comma(&mut self)
        ensures
            old(self).minify ==> final(self).buf@ == old(self).buf@ + ","@,
            old(self).minify ==> final(self).prev_token_kind == TokenKind::Anything,
            same_settings(*old(self), *final(self)),
            prefix_of(old(self).buf@, final(self).buf@),
    {
        self.token(Token(",", TokenKind::Anything));
        self.pretty_space();
    }

    pub fn period(&mut self)
        ensures
            final(self).buf@ == old(self).buf@ + "."@,
            final(self).prev_token_kind == TokenKind::Anything,
            same_settings(*old(self), *final(self)),
            prefix_of(old(self).buf@, final(self).buf@),
    {
        self.token(Token(".", TokenKind::Anything));
    }

    pub fn semi(&mut self)
        ensures
            final(self).buf@ == old(self).buf@ + ";"@,
            final(self).prev_token_kind == TokenKind::Anything,
            same_settings(*old(self), *final(self)),
            prefix_of(old(self).buf@, final(self).buf@),
    {
        self.token(Token(";", TokenKind::Anything));
    }

    pub fn assign(&mut self)
        ensures
            old(self).minify ==> final(self).buf@ == old(self).buf@ + token_text(
                old(self).prev_token_kind,
                "="@,
                TokenKind::Op,
            ),
            old(self).minify ==> final(self).prev_token_kind == TokenKind::Op,
            same_settings(*old(self), *final(self)),
            prefix_of(old(self).buf@, final(self).buf@),
    {
        self.pretty_space();
        self.token(Token("=", TokenKind::Op));
        self.pretty_space();
    }

    /// Writes a name or a number.
    pub fn ident(&mut self, i: &str)
        ensures
            final(self).buf@ == old(self).buf@ + token_text(old(self).prev_token_kind, i@, TokenKind::Alphanum),
            final(self).prev_token_kind == TokenKind::Alphanum,
            same_settings(*old(self), *final(self)),
            prefix_of(old(self).buf@, final(self).buf@),
    {
        self.token(Token(i, TokenKind::Alphanum));
    }

    /// Writes an operator.
    pub fn op(&mut self, i: &str)
        ensures
            final(self).buf@ == old(self).buf@ + token_text(old(self).prev_token_kind, i@, TokenKind::Op),
            final(self).prev_token_kind == TokenKind::Op,
            same_settings(*old(self), *final(self)),
            prefix_of(old(self).buf@, final(self).buf@),
    {
        self.token(Token(i, TokenKind::Op));
    }
}

/// `a` is the beginning of `b`.
pub open spec fn prefix_of(a: Seq<char>, b: Seq<char>) -> bool {
    a.len() <= b.len() && forall|i: int| 0 <= i < a.len() ==> #[trigger] a[i] == b[i]
}

// ---------------------------------------------------------------------------
// Types and literals

/// The GLSL type of a type: floats, ints, vectors, matrices, `sampler2D`,
/// `void` for no type, and unknown for anything else.
pub open spec fn spec_parse_type(ty: hyp::AstType) -> GlslType {
    match ty {
        hyp::AstType::F32 => GlslType::Float,
        hyp::AstType::I32 => GlslType::Int,
        hyp::AstType::Vec(_, dim) => GlslType::Vec(dim),
        hyp::AstType::Mat(_, x, y) => GlslType::Mat(x, y),
        hyp::AstType::Other(name) => if name@ == "sampler2D"@ {
            GlslType::Sampler2D
        } else {
            GlslType::Unknown
        },
        hyp::AstType::NoType => GlslType::Void,
        _ => GlslType::Unknown,
    }
}

/// The name of a GLSL type, when it can be written.
pub open spec fn glsl_type_name(g: GlslType) -> Option<Seq<char>> {
    match g {
        GlslType::Void => Some("void"@),
        GlslType::Int => Some("int"@),
        GlslType::Float => Some("float"@),
        GlslType::Vec(n) => Some("vec"@ + decimal(n as nat)),
        GlslType::Mat(n, m) => if n == m {
            Some("mat"@ + decimal(n as nat))
        } else {
            Some("mat"@ + decimal(n as nat) + "x"@ + decimal(m as nat))
        },
        GlslType::Sampler2D => Some("sampler2D"@),
        _ => None,
    }
}

/// A GLSL type name resolves to the type that is written back under that
/// name: `vecN` to a vector of `N` components, `matNxM` to an `N` by `M`
/// matrix (`matN` and `matNxN` to the square one, written `matN`),
/// `float` and `int` to themselves. So a shader keeps the sizes it names.
#[verifier::rlimit(100)]
#[verifier::spinoff_prover]
pub proof fn law_glsl_type_names(s: Seq<char>)
    ensures
        hyp::resolver::glsl_named_type(s) matches Some(t) ==> (glsl_type_name(spec_parse_type(t)) matches Some(w)
            && (w == s || (s.len() == 6 && w == s.take(4) && s[4] == 'x' && s[5] == s[3]))),
{
    reveal_strlit("float");
    reveal_strlit("int");
    reveal_strlit("mat");
    reveal_strlit("mat2");
    reveal_strlit("mat2x2");
    reveal_strlit("mat2x3");
    reveal_strlit("mat2x4");
    reveal_strlit("mat3");
    reveal_strlit("mat3x2");
    reveal_strlit("mat3x3");
    reveal_strlit("mat3x4");
    reveal_strlit("mat4");
    reveal_strlit("mat4x2");
    reveal_strlit("mat4x3");
    reveal_strlit("mat4x4");
    reveal_strlit("vec");
    reveal_strlit("vec2");
    reveal_strlit("vec3");
    reveal_strlit("vec4");
    reveal_strlit("x");
    if s == "float"@ {
    } else if s == "int"@ {
    } else if s == "vec2"@ {
        assert(decimal(2) =~= seq!['2']);
        assert("vec"@ + decimal(2) =~= "vec2"@);
    } else if s == "vec3"@ {
        assert(decimal(3) =~= seq!['3']);
        assert("vec"@ + decimal(3) =~= "vec3"@);
    } else if s == "vec4"@ {
        assert(decimal(4) =~= seq!['4']);
        assert("vec"@ + decimal(4) =~= "vec4"@);
    } else if s == "mat2"@ || s == "mat2x2"@ {
        assert(decimal(2) =~= seq!['2']);
        assert("mat"@ + decimal(2) =~= "mat2"@);
        if s == "mat2x2"@ {
            assert(s.take(4) =~= "mat2"@);
            assert(s[4] == 'x' && s[5] == s[3]);
        }
    } else if s == "mat2x3"@ {
        assert(decimal(2) =~= seq!['2']);
        assert(decimal(3) =~= seq!['3']);
        assert("mat"@ + decimal(2) + "x"@ + decimal(3) =~= "mat2x3"@);
    } else if s == "mat2x4"@ {
        assert(decimal(2) =~= seq!['2']);
        assert(decimal(4) =~= seq!['4']);
        assert("mat"@ + decimal(2) + "x"@ + decimal(4) =~= "mat2x4"@);
    } else if s == "mat3x2"@ {
        assert(decimal(2) =~= seq!['2']);
        assert(decimal(3) =~= seq!['3']);
        assert("mat"@ + decimal(3) + "x"@ + decimal(2) =~= "mat3x2"@);
    } else if s == "mat3"@ || s == "mat3x3"@ {
        assert(decimal(3) =~= seq!['3']);
        assert("mat"@ + decimal(3) =~= "mat3"@);
        if s == "mat3x3"@ {
            assert(s.take(4) =~= "mat3"@);
            assert(s[4] == 'x' && s[5] == s[3]);
        }
    } else if s == "mat3x4"@ {
        assert(decimal(3) =~= seq!['3']);
        assert(decimal(4) =~= seq!['4']);
        assert("mat"@ + decimal(3) + "x"@ + decimal(4) =~= "mat3x4"@);
    } else if s == "mat4x2"@ {
        assert(decimal(2) =~= seq!['2']);
        assert(decimal(4) =~= seq!['4']);
        assert("mat"@ + decimal(4) + "x"@ + decimal(2) =~= "mat4x2"@);
    } else if s == "mat4x3"@ {
        assert(decimal(3) =~= seq!['3']);
        assert(decimal(4) =~= seq!['4']);
        assert("mat"@ + decimal(4) + "x"@ + decimal(3) =~= "mat4x3"@);
    } else if s == "mat4"@ || s == "mat4x4"@ {
        assert(decimal(4) =~= seq!['4']);
        assert("mat"@ + decimal(4) =~= "mat4"@);
        if s == "mat4x4"@ {
            assert(s.take(4) =~= "mat4"@);
            assert(s[4] == 'x' && s[5] == s[3]);
        }
    }
}

impl Detokenizer {
    /// The GLSL type of `ty`. A type that GLSL has no name for (an unsigned
    /// or 64-bit number, a string, a function, a named type other than
    /// `sampler2D`, or `Any`) is `Unknown`, which `type_to_glsl` refuses to
    /// write: a module that needs one is reported as not written instead of
    /// stopping the program.
    pub fn parse_type(&self, ty: &hyp::AstType) -> (r: GlslType)
        ensures
            r == spec_parse_type(*ty),
    {
        match ty {
            hyp::AstType::F32 => GlslType::Float,
            hyp::AstType::I32 => GlslType::Int,
            hyp::AstType::Vec(_, dim) => GlslType::Vec(*dim),
            hyp::AstType::Mat(_, x, y) => GlslType::Mat(*x, *y),
            hyp::AstType::Other(name) => if text_is(name, "sampler2D") {
                GlslType::Sampler2D
            } else {
                GlslType::Unknown
            },
            hyp::AstType::NoType => GlslType::Void,
            _ => GlslType::Unknown,
        }
    }

    /// Writes the GLSL name of `ty`; a type that has none (unknown, or a
    /// function) is not written, and the result is `false`, so that the
    /// module being written is reported as not written instead of stopping
    /// the program.
    pub fn type_to_glsl(&mut self, ty: &hyp::AstType) -> (r: bool)
        ensures
            r == (glsl_type_name(spec_parse_type(*ty)) is Some),
            r ==> final(self).buf@ == old(self).buf@ + token_text(
                old(self).prev_token_kind,
                glsl_type_name(spec_parse_type(*ty)).unwrap(),
                TokenKind::Alphanum,
            ),
            r ==> final(self).prev_token_kind == TokenKind::Alphanum,
            !r ==> *final(self) == *old(self),
            same_settings(*old(self), *final(self)),
            prefix_of(old(self).buf@, final(self).buf@),
    {
        let g = self.parse_type(ty);
        let mut name = String::new();
        match g {
            GlslType::Void => {
                name.append("void");
            },
            GlslType::Int => {
                name.append("int");
            },
            GlslType::Float => {
                name.append("float");
            },
            GlslType::Vec(n) => {
                name.append("vec");
                push_decimal(&mut name, n as u64);
            },
            GlslType::Mat(n, m) => {
                name.append("mat");
                push_decimal(&mut name, n as u64);
                if n != m {
                    name.append("x");
                    push_decimal(&mut name, m as u64);
                }
            },
            GlslType::Sampler2D => {
                name.append("sampler2D");
            },
            _ => {
                return false;
            },
        }
        proof {
            assert(name@ =~= glsl_type_name(spec_parse_type(*ty)).unwrap());
        }
        self.ident(name.as_str());
        true
    }
}

/// `s` without the zeros it starts with.
pub open spec fn strip_leading_zeros(s: Seq<char>) -> Seq<char>
    decreases s.len(),
{
    if s.len() > 0 && s[0] == '0' {
        strip_leading_zeros(s.drop_first())
    } else {
        s
    }
}

/// `s` without the zeros it ends with.
pub open spec fn strip_trailing_zeros(s: Seq<char>) -> Seq<char>
    decreases s.len(),
{
    if s.len() > 0 && s.last() == '0' {
        strip_trailing_zeros(s.drop_last())
    } else {
        s
    }
}

/// The position of the first `.` in `s`, or its length.
pub open spec fn dot_pos(s: Seq<char>) -> int
    decreases s.len(),
{
    if s.len() == 0 {
        0
    } else if s[0] == '.' {
        0
    } else {
        1 + dot_pos(s.drop_first())
    }
}

/// The shortest GLSL form of a float literal written `t`: a whole value is
/// its integer part followed by `.` (`1.` for `1.0`), any other value
/// loses its leading and trailing zeros (`.5` for `0.50`).
pub open spec fn float_text(t: Seq<char>) -> Seq<char> {
    let d = dot_pos(t);
    let int_part = t.subrange(0, d);
    let frac = if d < t.len() {
        t.subrange(d + 1, t.len() as int)
    } else {
        Seq::empty()
    };
    if strip_leading_zeros(frac).len() == 0 {
        let ip = strip_leading_zeros(int_part);
        (if ip.len() == 0 {
            "0"@
        } else {
            ip
        }) + "."@
    } else {
        strip_trailing_zeros(strip_leading_zeros(t))
    }
}

pub proof fn lemma_strip_leading(s: Seq<char>, k: int)
    requires
        0 <= k <= s.len(),
        forall|i: int| 0 <= i < k ==> s[i] == '0',
        k == s.len() || s[k] != '0',
    ensures
        strip_leading_zeros(s) == s.subrange(k, s.len() as int),
    decreases k,
{
    if k == 0 {
        assert(s.subrange(0, s.len() as int) =~= s);
    } else {
        lemma_strip_leading(s.drop_first(), k - 1);
        assert(s.drop_first().subrange(k - 1, s.drop_first().len() as int) =~= s.subrange(
            k,
            s.len() as int,
        ));
    }
}

pub proof fn lemma_strip_trailing(s: Seq<char>, k: int)
    requires
        0 <= k <= s.len(),
        forall|i: int| k <= i < s.len() ==> s[i] == '0',
        k == 0 || s[k - 1] != '0',
    ensures
        strip_trailing_zeros(s) == s.subrange(0, k),
    decreases s.len() - k,
{
    if k == s.len() {
        assert(s.subrange(0, k) =~= s);
    } else {
        lemma_strip_trailing(s.drop_last(), k);
        assert(s.drop_last().subrange(0, k) =~= s.subrange(0, k));
    }
}

pub proof fn lemma_dot_pos(s: Seq<char>, k: int)
    requires
        0 <= k <= s.len(),
        forall|i: int| 0 <= i < k ==> s[i] != '.',
        k == s.len() || s[k] == '.',
    ensures
        dot_pos(s) == k,
    decreases k,
{
    if k > 0 {
        lemma_dot_pos(s.drop_first(), k - 1);
    }
}

/// The characters of `s`.
pub fn chars_of(s: &str) -> (r: Vec<char>)
    ensures
        r@ == s@,
{
    let n = s.unicode_len();
    let mut v: Vec<char> = Vec::new();
    let mut i: usize = 0;
    while i < n
        invariant
            i <= n,
            n == s@.len(),
            v@ == s@.take(i as int),
        decreases n - i,
    {
        v.push(s.get_char(i));
        assert(s@.take(i + 1) =~= s@.take(i as int).push(s@[i as int]));
        i = i + 1;
    }
    assert(s@.take(n as int) =~= s@);
    v
}

/// Appends `cs[from..to]` to `out`.
pub fn push_range(out: &mut String, cs: &Vec<char>, from: usize, to: usize)
    requires
        from <= to <= cs@.len(),
    ensures
        final(out)@ == old(out)@ + cs@.subrange(from as int, to as int),
{
    let mut i = from;
    while i < to
        invariant
            from <= i <= to <= cs@.len(),
            out@ == old(out)@ + cs@.subrange(from as int, i as int),
        decreases to - i,
    {
        push_char(out, cs[i]);
        assert(cs@.subrange(from as int, i + 1) =~= cs@.subrange(from as int, i as int).push(
            cs@[i as int],
        ));
        assert(out@ =~= old(out)@ + cs@.subrange(from as int, i + 1));
        i = i + 1;
    }
}

/// The shortest GLSL form of the float literal `t`.
pub fn format_float(t: &String) -> (r: String)
    ensures
        r@ == float_text(t@),
{
    let cs = chars_of(t.as_str());
    let n = cs.len();
    let mut d: usize = 0;
    while d < n && cs[d] != '.'
        invariant
            d <= n,
            n == cs@.len(),
            forall|i: int| 0 <= i < d ==> cs@[i] != '.',
        decreases n - d,
    {
        d = d + 1;
    }
    proof {
        lemma_dot_pos(cs@, d as int);
    }
    let fs = if d < n {
        d + 1
    } else {
        n
    };
    let mut fz = fs;
    while fz < n && cs[fz] == '0'
        invariant
            fs <= fz <= n,
            n == cs@.len(),
            forall|i: int| fs <= i < fz ==> cs@[i] == '0',
        decreases n - fz,
    {
        fz = fz + 1;
    }
    let ghost frac = if d < n {
        cs@.subrange(d + 1, n as int)
    } else {
        Seq::<char>::empty()
    };
    proof {
        assert(frac =~= cs@.subrange(fs as int, n as int));
        lemma_strip_leading(frac, fz - fs);
    }
    let mut out = String::new();
    if fz == n {
        let mut iz: usize = 0;
        while iz < d && cs[iz] == '0'
            invariant
                iz <= d <= n,
                n == cs@.len(),
                forall|i: int| 0 <= i < iz ==> cs@[i] == '0',
            decreases d - iz,
        {
            iz = iz + 1;
        }
        proof {
            let ip = cs@.subrange(0, d as int);
            lemma_strip_leading(ip, iz as int);
            assert(ip.subrange(iz as int, ip.len() as int) =~= cs@.subrange(iz as int, d as int));
        }
        if iz == d {
            push_char(&mut out, '0');
        } else {
            push_range(&mut out, &cs, iz, d);
        }
        push_char(&mut out, '.');
        proof {
            reveal_strlit("0");
            reveal_strlit(".");
            assert(out@ =~= float_text(cs@));
        }
    } else {
        let mut lz: usize = 0;
        while lz < n && cs[lz] == '0'
            invariant
                lz <= n,
                n == cs@.len(),
                forall|i: int| 0 <= i < lz ==> cs@[i] == '0',
            decreases n - lz,
        {
            lz = lz + 1;
        }
        let mut tz = n;
        while tz > lz && cs[tz - 1] == '0'
            invariant
                lz <= tz <= n,
                n == cs@.len(),
                forall|i: int| tz <= i < n ==> cs@[i] == '0',
            decreases tz,
        {
            tz = tz - 1;
        }
        proof {
            lemma_strip_leading(cs@, lz as int);
            let s1 = cs@.subrange(lz as int, n as int);
            if tz > lz {
                lemma_strip_trailing(s1, tz - lz);
            } else {
                lemma_strip_trailing(s1, 0);
            }
            assert(s1.subrange(0, tz - lz) =~= cs@.subrange(lz as int, tz as int));
        }
        push_range(&mut out, &cs, lz, tz);
        assert(out@ =~= float_text(cs@));
    }
    out
}

// ---------------------------------------------------------------------------
// Operators

pub open spec fn unop_text(op: GlslUnop) -> Seq<char> {
    match op {
        GlslUnop::Plus => "+"@,
        GlslUnop::Minus => "-"@,
        GlslUnop::Not => "!"@,
        GlslUnop::PreInc => "++"@,
        GlslUnop::PreDec => "--"@,
    }
}

pub open spec fn unop_prec(op: GlslUnop) -> Prec {
    match op {
        GlslUnop::Not | GlslUnop::Plus | GlslUnop::Minus => Prec(3, 1),
        GlslUnop::PreInc | GlslUnop::PreDec => Prec(3, 0),
    }
}

pub open spec fn binop_text(op: GlslOp) -> Seq<char> {
    match op {
        GlslOp::Mul => "*"@,
        GlslOp::Div => "/"@,
        GlslOp::Rem => "%"@,
        GlslOp::Add => "+"@,
        GlslOp::Sub => "-"@,
        GlslOp::MulEq => "*="@,
        GlslOp::DivEq => "/="@,
        GlslOp::RemEq => "%="@,
        GlslOp::AddEq => "+="@,
        GlslOp::SubEq => "-="@,
        GlslOp::AndAnd => "&&"@,
        GlslOp::OrOr => "||"@,
        GlslOp::Eq => "=="@,
        GlslOp::Lt => "<"@,
        GlslOp::Le => "<="@,
        GlslOp::Ne => "!="@,
        GlslOp::Gt => ">"@,
        GlslOp::Ge => ">="@,
    }
}

pub open spec fn binop_prec(op: GlslOp) -> Prec {
    match op {
        GlslOp::Mul | GlslOp::Div | GlslOp::Rem => Prec(4, -1i32),
        GlslOp::Add | GlslOp::Sub => Prec(5, -1i32),
        GlslOp::MulEq | GlslOp::DivEq | GlslOp::RemEq | GlslOp::AddEq | GlslOp::SubEq => Prec(16, 1),
        GlslOp::Eq | GlslOp::Ne => Prec(8, -1i32),
        GlslOp::Lt | GlslOp::Le | GlslOp::Gt | GlslOp::Ge => Prec(7, -1i32),
        GlslOp::AndAnd => Prec(12, -1i32),
        GlslOp::OrOr => Prec(14, -1i32),
    }
}

/// `*`, `/` and `%`.
pub open spec fn glsl_multiplicative(op: GlslOp) -> bool {
    op is Mul || op is Div || op is Rem
}

/// `+` and `-`.
pub open spec fn glsl_additive(op: GlslOp) -> bool {
    op is Add || op is Sub
}

/// `<`, `<=`, `>` and `>=`.
pub open spec fn glsl_relational(op: GlslOp) -> bool {
    op is Lt || op is Le || op is Gt || op is Ge
}

/// `==` and `!=`.
pub open spec fn glsl_equality(op: GlslOp) -> bool {
    op is Eq || op is Ne
}

/// The assignments that combine with an operator, such as `+=`.
pub open spec fn glsl_compound_assign(op: GlslOp) -> bool {
    op is MulEq || op is DivEq || op is RemEq || op is AddEq || op is SubEq
}

/// The binary operators follow GLSL's precedence table, from the
/// tightest: `* / %`, then `+ -`, `< <= > >=`, `== !=`, `&&`, `||`, and
/// the compound assignments loosest. A larger number is a looser
/// operator; operators of one row share their precedence; all group to
/// the left but the assignments.
pub proof fn law_glsl_binop_precedence(a: GlslOp, b: GlslOp)
    ensures
        glsl_multiplicative(a) && glsl_additive(b) ==> binop_prec(a).0 < binop_prec(b).0,
        glsl_additive(a) && glsl_relational(b) ==> binop_prec(a).0 < binop_prec(b).0,
        glsl_relational(a) && glsl_equality(b) ==> binop_prec(a).0 < binop_prec(b).0,
        glsl_equality(a) && b is AndAnd ==> binop_prec(a).0 < binop_prec(b).0,
        a is AndAnd && b is OrOr ==> binop_prec(a).0 < binop_prec(b).0,
        a is OrOr && glsl_compound_assign(b) ==> binop_prec(a).0 < binop_prec(b).0,
        (glsl_multiplicative(a) && glsl_multiplicative(b)) || (glsl_additive(a) && glsl_additive(b)) || (
        glsl_relational(a) && glsl_relational(b)) || (glsl_equality(a) && glsl_equality(b)) || (
        glsl_compound_assign(a) && glsl_compound_assign(b)) ==> binop_prec(a) == binop_prec(b),
        !glsl_compound_assign(a) ==> binop_prec(a).1 == -1,
        glsl_compound_assign(a) ==> binop_prec(a).1 == 1,
{
}

/// A sum or difference written as an operand of a product, quotient or
/// remainder is put in parentheses, on either side: `(x+y)*z`, `z*(x+y)`.
pub proof fn law_glsl_sum_in_product(a: GlslOp, m: GlslOp)
    requires
        glsl_additive(a),
        glsl_multiplicative(m),
    ensures
        binop_prec(a).spec_need_paren(Prec(binop_prec(m).0, -1i32)),
        binop_prec(a).spec_need_paren(Prec(binop_prec(m).0, 1)),
{
}

fn unop_str(op: GlslUnop) -> (r: &'static str)
    ensures
        r@ == unop_text(op),
{
    match op {
        GlslUnop::Plus => "+",
        GlslUnop::Minus => "-",
        GlslUnop::Not => "!",
        GlslUnop::PreInc => "++",
        GlslUnop::PreDec => "--",
    }
}

fn unop_prec_x(op: GlslUnop) -> (r: Prec)
    ensures
        r == unop_prec(op),
{
    match op {
        GlslUnop::Not | GlslUnop::Plus | GlslUnop::Minus => prec_unary_plus_minus(),
        GlslUnop::PreInc | GlslUnop::PreDec => prec_pre_inc_dec(),
    }
}

fn binop_str(op: GlslOp) -> (r: &'static str)
    ensures
        r@ == binop_text(op),
{
    match op {
        GlslOp::Mul => "*",
        GlslOp::Div => "/",
        GlslOp::Rem => "%",
        GlslOp::Add => "+",
        GlslOp::Sub => "-",
        GlslOp::MulEq => "*=",
        GlslOp::DivEq => "/=",
        GlslOp::RemEq => "%=",
        GlslOp::AddEq => "+=",
        GlslOp::SubEq => "-=",
        GlslOp::AndAnd => "&&",
        GlslOp::OrOr => "||",
        GlslOp::Eq => "==",
        GlslOp::Lt => "<",
        GlslOp::Le => "<=",
        GlslOp::Ne => "!=",
        GlslOp::Gt => ">",
        GlslOp::Ge => ">=",
    }
}

fn binop_prec_x(op: GlslOp) -> (r: Prec)
    ensures
        r == binop_prec(op),
{
    match op {
        GlslOp::Mul | GlslOp::Div | GlslOp::Rem => prec_mul_div_rem(),
        GlslOp::Add | GlslOp::Sub => prec_plus_minus(),
        GlslOp::MulEq | GlslOp::DivEq | GlslOp::RemEq | GlslOp::AddEq | GlslOp::SubEq => prec_assign(),
        GlslOp::Eq | GlslOp::Ne => prec_eq(),
        GlslOp::Lt | GlslOp::Le | GlslOp::Gt | GlslOp::Ge => prec_ineq(),
        GlslOp::AndAnd => prec_andand(),
        GlslOp::OrOr => prec_oror(),
    }
}

// ---------------------------------------------------------------------------
// Writing GLSL

/// Writes GLSL source for the modules' translated trees. With
/// `exported_local` at -1 it writes a module's globals and its functions
/// that are not exported; with the index of an exported function it writes
/// only that function, named `main`.
pub struct GlslBundler<'a> {
    pub buf: Detokenizer,
    pub current_module: usize,
    pub exported_local: i32,
    pub module_infos: &'a Vec<hyp::ModuleInfo>,
    /// False once something could not be written (an unknown type, an
    /// undefined value, a function without a function type, a missing local).
    pub ok: bool,
}

/// A GLSL module written out: the source common to its functions, and the
/// source of each exported function with the local it defines.
pub struct BundledModule {
    pub prefix: String,
    pub exported_functions: Vec<(String, u32)>,
    pub ok: bool,
    pub errors: Vec<hyp::ParseError>,
}

/// Writing keeps what was written and the layout settings.
pub open spec fn writes(old: GlslBundler, new: GlslBundler) -> bool {
    &&& prefix_of(old.buf.buf@, new.buf.buf@)
    &&& same_settings(old.buf, new.buf)
    &&& new.current_module == old.current_module
    &&& new.exported_local == old.exported_local
    &&& new.module_infos == old.module_infos
    &&& new.ok ==> old.ok
}

/// `new` is `old` with the text of `o` written, and its last kind.
pub open spec fn written(old: GlslBundler, new: GlslBundler, o: Out) -> bool {
    &&& new.buf.buf@ == old.buf.buf@ + o.0
    &&& new.buf.prev_token_kind == o.1
}

/// The nodes after which a statement needs no `;`.
pub open spec fn ends_block(a: GlslAst) -> bool {
    a is Fn || a is Block || a is Locals || a is If || a is While || a is Loop
}

/// What the writer reads of the bundler: the modules, the current module
/// and the function being written (-1 for the whole module).
pub type GlslCtx = (Seq<hyp::ModuleInfo>, usize, i32);

pub open spec fn gctx(b: GlslBundler) -> GlslCtx {
    (b.module_infos@, b.current_module, b.exported_local)
}

/// Text written, and the kind of the last token (or the one before it
/// when nothing was written).
pub type Out = (Seq<char>, TokenKind);

/// The token `t` of kind `k` after a token of kind `prev`.
pub open spec fn tok(prev: TokenKind, t: Seq<char>, k: TokenKind) -> Out {
    (token_text(prev, t, k), k)
}

/// Nothing written.
pub open spec fn none(prev: TokenKind) -> Out {
    (Seq::empty(), prev)
}

/// `o` in parentheses when `p`.
pub open spec fn wrap(p: bool, o: Out) -> Out {
    if p {
        ("("@ + o.0 + ")"@, TokenKind::Anything)
    } else {
        o
    }
}

/// The kind before what comes after an opening parenthesis, if there is one.
pub open spec fn after_open(p: bool, prev: TokenKind) -> TokenKind {
    if p {
        TokenKind::Anything
    } else {
        prev
    }
}

/// The name of local `index` of module `abs`, if there is one.
pub open spec fn local_out(c: GlslCtx, abs: int, index: int, prev: TokenKind) -> Out {
    if 0 <= abs < c.0.len() && 0 <= index < c.0[abs].locals@.len() {
        tok(prev, c.0[abs].locals@[index].name@, TokenKind::Alphanum)
    } else {
        none(prev)
    }
}

/// The GLSL name of a type, if it has one.
pub open spec fn type_out(ty: hyp::AstType, prev: TokenKind) -> Out {
    match glsl_type_name(spec_parse_type(ty)) {
        Some(n) => tok(prev, n, TokenKind::Alphanum),
        None => none(prev),
    }
}

/// A separator `,` before every item but the first.
pub open spec fn sep_out(k: nat, prev: TokenKind) -> Out {
    if k > 1 {
        (","@, TokenKind::Anything)
    } else {
        none(prev)
    }
}

/// The first `k` parameters of a function: type and name, separated by `,`.
pub open spec fn params_out(c: GlslCtx, args: Seq<u32>, tys: Seq<hyp::AstType>, k: nat, prev: TokenKind) -> Out
    decreases k,
{
    if k == 0 || k > args.len() || k > tys.len() {
        none(prev)
    } else {
        let o = params_out(c, args, tys, (k - 1) as nat, prev);
        let s = sep_out(k, o.1);
        let t = type_out(tys[k - 1], s.1);
        let n = local_out(c, c.1 as int, args[k - 1] as int, t.1);
        (o.0 + s.0 + t.0 + n.0, n.1)
    }
}

/// The segments of a path, separated by `.`.
pub open spec fn dotted_out(segs: Seq<String>, k: nat, prev: TokenKind) -> Out
    decreases k,
{
    if k == 0 || k > segs.len() {
        none(prev)
    } else {
        let o = dotted_out(segs, (k - 1) as nat, prev);
        let (sep, ks) = if k > 1 {
            ("."@, TokenKind::Anything)
        } else {
            (Seq::empty(), o.1)
        };
        (o.0 + sep + token_text(ks, segs[k - 1]@, TokenKind::Alphanum), TokenKind::Alphanum)
    }
}

/// The highest precedence: a statement.
pub open spec fn gmax() -> Prec {
    Prec(18, 0)
}

/// What the tree `a` is written as in `slot` after a token of kind `prev`,
/// minified: operators with parentheses where their precedence needs
/// them, a space only between two names or two operators that would
/// otherwise run together, blocks in braces, statements ended by `;`
/// unless they end in a block, loops as `for`, a function only when it is
/// the one being written (as `main` when it is the exported one), nothing
/// for `Undef` or for a local that does not exist.
pub open spec fn glsl_out(c: GlslCtx, a: GlslAst, slot: Prec, prev: TokenKind) -> Out
    decreases a, 3nat, 0nat,
{
    match a {
        GlslAst::Fn { id, exported, args, expr } => if (exported && id as i32 != c.2) || (!exported && c.2
            >= 0) || !(c.1 < c.0.len() && id < c.0[c.1 as int].locals@.len()) {
            none(prev)
        } else {
            match c.0[c.1 as int].locals@[id as int].ty {
                hyp::AstType::Fn(ret, args_ty) => {
                    let o1 = type_out(*ret, prev);
                    let o2 = if c.2 >= 0 {
                        tok(o1.1, "main"@, TokenKind::Alphanum)
                    } else {
                        local_out(c, c.1 as int, id as int, o1.1)
                    };
                    let k = if args@.len() < args_ty@.len() {
                        args@.len()
                    } else {
                        args_ty@.len()
                    };
                    let o3 = params_out(c, args@, args_ty@, k, TokenKind::Anything);
                    let o4 = glsl_out(c, *expr, gmax(), TokenKind::Anything);
                    (o1.0 + o2.0 + "("@ + o3.0 + ")"@ + o4.0, o4.1)
                },
                _ => none(prev),
            }
        },
        GlslAst::Path { segments } => {
            let p = Prec(2, -1i32).spec_need_paren(slot);
            wrap(p, dotted_out(segments@, segments@.len(), after_open(p, prev)))
        },
        GlslAst::Call { func, args } => {
            let o1 = glsl_out(c, *func, Prec(2, -1i32), prev);
            let o2 = args_out(c, args@, args@.len(), TokenKind::Anything);
            (o1.0 + "("@ + o2.0 + ")"@, TokenKind::Anything)
        },
        GlslAst::Lit { lit } => match lit {
            GlslLit::Int(v) => tok(prev, crate::text::int_text(v as int), TokenKind::Alphanum),
            GlslLit::Float(v) => tok(prev, float_text(v@), TokenKind::Alphanum),
        },
        GlslAst::Block { stmts } => block_out(c, stmts@),
        GlslAst::Locals { locs } => locals_out(c, locs@, locs@.len(), prev),
        GlslAst::Assign { left, right } => {
            let p = Prec(16, 1).spec_need_paren(slot);
            let o1 = glsl_out(c, *left, Prec(16, -1i32), after_open(p, prev));
            let t2 = token_text(o1.1, "="@, TokenKind::Op);
            let o3 = glsl_out(c, *right, Prec(16, 1), TokenKind::Op);
            wrap(p, (o1.0 + t2 + o3.0, o3.1))
        },
        GlslAst::If { cond, then_branch, else_branch } => {
            let o1 = glsl_out(c, *cond, gmax(), TokenKind::Anything);
            let o2 = block_out(c, then_branch@);
            let head = token_text(prev, "if"@, TokenKind::Alphanum) + "("@ + o1.0 + ")"@ + o2.0;
            match else_branch {
                Some(e) => {
                    let o3 = glsl_out(c, *e, gmax(), TokenKind::Alphanum);
                    (head + "else"@ + o3.0, o3.1)
                },
                None => (head, TokenKind::Anything),
            }
        },
        GlslAst::While { cond, body } => {
            let o1 = glsl_out(c, *cond, gmax(), TokenKind::Anything);
            (token_text(prev, "for"@, TokenKind::Alphanum) + "(;"@ + o1.0 + ";)"@ + block_out(c, body@).0, TokenKind::Anything)
        },
        GlslAst::Loop { body } => (token_text(prev, "for"@, TokenKind::Alphanum) + "(;;)"@ + block_out(c, body@).0, TokenKind::Anything),
        GlslAst::Unary { value, op } => {
            let p = unop_prec(op).spec_need_paren(slot);
            let t1 = token_text(after_open(p, prev), unop_text(op), TokenKind::Op);
            let o2 = glsl_out(c, *value, Prec(unop_prec(op).0, 1), TokenKind::Op);
            wrap(p, (t1 + o2.0, o2.1))
        },
        GlslAst::Binary { left, op, right } => {
            let p = binop_prec(op).spec_need_paren(slot);
            let o1 = glsl_out(c, *left, Prec(binop_prec(op).0, -1i32), after_open(p, prev));
            let t2 = token_text(o1.1, binop_text(op), TokenKind::Op);
            let o3 = glsl_out(c, *right, Prec(binop_prec(op).0, 1), TokenKind::Op);
            wrap(p, (o1.0 + t2 + o3.0, o3.1))
        },
        GlslAst::Field { base, member } => {
            let p = Prec(2, -1i32).spec_need_paren(slot);
            let o1 = glsl_out(c, *base, Prec(2, -1i32), after_open(p, prev));
            wrap(p, (o1.0 + "."@ + member@, TokenKind::Alphanum))
        },
        GlslAst::LocalRef { id } => local_out(c, c.1 as int, id as int, prev),
        GlslAst::ModuleMember { abs_index, local_index } => local_out(c, abs_index as int, local_index as int, prev),
        GlslAst::Return { value } => {
            let o1 = glsl_out(c, *value, gmax(), TokenKind::Alphanum);
            (token_text(prev, "return"@, TokenKind::Alphanum) + o1.0, o1.1)
        },
        GlslAst::Undef => none(prev),
    }
}

/// A sum or difference written as the left operand of a product, quotient
/// or remainder is written as it stands alone, in parentheses: for any
/// operands, `(x+y)*z` and never `x+y*z`.
pub proof fn law_glsl_sum_in_product_written(
    c: GlslCtx,
    x: GlslAst,
    a: GlslOp,
    y: GlslAst,
    m: GlslOp,
    z: GlslAst,
    slot: Prec,
    prev: TokenKind,
)
    requires
        glsl_additive(a),
        glsl_multiplicative(m),
    ensures
        ({
            let inner = GlslAst::Binary { left: Box::new(x), op: a, right: Box::new(y) };
            let l = wrap(true, glsl_out(c, inner, gmax(), TokenKind::Anything));
            let r = glsl_out(c, z, Prec(binop_prec(m).0, 1), TokenKind::Op);
            glsl_out(c, GlslAst::Binary { left: Box::new(inner), op: m, right: Box::new(z) }, slot, prev) == wrap(
                binop_prec(m).spec_need_paren(slot),
                (l.0 + token_text(l.1, binop_text(m), TokenKind::Op) + r.0, r.1),
            )
        }),
{
    let inner = GlslAst::Binary { left: Box::new(x), op: a, right: Box::new(y) };
    let q = binop_prec(m).spec_need_paren(slot);
    assert(binop_prec(a).spec_need_paren(Prec(binop_prec(m).0, -1i32)));
    assert(!binop_prec(a).spec_need_paren(gmax()));
    assert(glsl_out(c, inner, Prec(binop_prec(m).0, -1i32), after_open(q, prev)) == wrap(
        true,
        glsl_out(c, inner, gmax(), TokenKind::Anything),
    ));
}

/// Statements in braces.
pub open spec fn block_out(c: GlslCtx, stmts: Seq<GlslAst>) -> Out
    decreases stmts, 2nat, 0nat,
{
    ("{"@ + inner_out(c, stmts, stmts.len(), TokenKind::Anything).0 + "}"@, TokenKind::Anything)
}

/// The first `k` statements, each followed by `;` unless it ends in a block.
pub open spec fn inner_out(c: GlslCtx, stmts: Seq<GlslAst>, k: nat, prev: TokenKind) -> Out
    decreases stmts, 1nat, k,
{
    if k == 0 || k > stmts.len() {
        none(prev)
    } else {
        let o = inner_out(c, stmts, (k - 1) as nat, prev);
        let o2 = glsl_out(c, stmts[k - 1], gmax(), o.1);
        if ends_block(stmts[k - 1]) {
            (o.0 + o2.0, o2.1)
        } else {
            (o.0 + o2.0 + ";"@, TokenKind::Anything)
        }
    }
}

/// The first `k` arguments of a call, separated by `,`.
pub open spec fn args_out(c: GlslCtx, items: Seq<GlslAst>, k: nat, prev: TokenKind) -> Out
    decreases items, 1nat, k,
{
    if k == 0 || k > items.len() {
        none(prev)
    } else {
        let o = args_out(c, items, (k - 1) as nat, prev);
        let s = sep_out(k, o.1);
        let o2 = glsl_out(c, items[k - 1], Prec(17, 0), s.1);
        (o.0 + s.0 + o2.0, o2.1)
    }
}

/// Global declarations, `kind type name;`, of the first `k` locals of
/// `list` (each a module and a local) that exist.
pub open spec fn globals_out(c: GlslCtx, list: Seq<(usize, u32)>, kind: Seq<char>, k: nat, prev: TokenKind) -> Out
    decreases k,
{
    if k == 0 || k > list.len() {
        none(prev)
    } else {
        let o = globals_out(c, list, kind, (k - 1) as nat, prev);
        let m = list[k - 1].0;
        let l = list[k - 1].1;
        if m < c.0.len() && l < c.0[m as int].locals@.len() {
            let t = type_out(c.0[m as int].locals@[l as int].ty, TokenKind::Alphanum);
            let n = token_text(t.1, c.0[m as int].locals@[l as int].name@, TokenKind::Alphanum);
            (o.0 + token_text(o.1, kind, TokenKind::Alphanum) + t.0 + n + ";"@, TokenKind::Anything)
        } else {
            o
        }
    }
}

/// The locals `ls` of module `cur`.
pub open spec fn of_module(cur: usize, ls: Seq<u32>) -> Seq<(usize, u32)> {
    Seq::new(ls.len(), |i: int| (cur, ls[i]))
}

/// The members `us` of other modules.
pub open spec fn members(us: Seq<(u32, u32)>) -> Seq<(usize, u32)> {
    Seq::new(us.len(), |i: int| (us[i].0 as usize, us[i].1))
}

/// A translated module written out: when writing the whole module, the
/// varyings (its own, then the members of other modules it uses), the
/// attributes and the uniforms; then its items.
pub open spec fn module_out(c: GlslCtx, m: GlslModule, prev: TokenKind) -> Out {
    if c.2 < 0 {
        let v = globals_out(
            c,
            of_module(c.1, m.varyings@) + members(m.used_imports@),
            "varying"@,
            (m.varyings@.len() + m.used_imports@.len()) as nat,
            prev,
        );
        let a = globals_out(c, of_module(c.1, m.attributes@), "attribute"@, m.attributes@.len(), v.1);
        let u = globals_out(c, of_module(c.1, m.uniforms@), "uniform"@, m.uniforms@.len(), a.1);
        let i = inner_out(c, m.items@, m.items@.len(), u.1);
        (v.0 + a.0 + u.0 + i.0, i.1)
    } else {
        inner_out(c, m.items@, m.items@.len(), prev)
    }
}

/// The type and name of local `id` of the current module, if it exists.
pub open spec fn decl_out(c: GlslCtx, id: u32, prev: TokenKind) -> Out {
    if c.1 < c.0.len() && id < c.0[c.1 as int].locals@.len() {
        let t = type_out(c.0[c.1 as int].locals@[id as int].ty, prev);
        let n = local_out(c, c.1 as int, id as int, t.1);
        (t.0 + n.0, n.1)
    } else {
        none(prev)
    }
}

/// The first `k` locals of a declaration, separated by `,`: type and
/// name (nothing for a local that does not exist), `=` and the value
/// unless it is `Undef`, and `;`.
pub open spec fn locals_out(c: GlslCtx, locs: Seq<(String, GlslAst, u32)>, k: nat, prev: TokenKind) -> Out
    decreases locs, 1nat, k,
{
    if k == 0 || k > locs.len() {
        none(prev)
    } else {
        let o = locals_out(c, locs, (k - 1) as nat, prev);
        let s = sep_out(k, o.1);
        let o2 = decl_out(c, locs[k - 1].2, s.1);
        let o3 = if locs[k - 1].1 is Undef {
            none(o2.1)
        } else {
            let v = glsl_out(c, locs[k - 1].1, Prec(16, 1), TokenKind::Op);
            (token_text(o2.1, "="@, TokenKind::Op) + v.0, v.1)
        };
        (o.0 + s.0 + o2.0 + o3.0 + ";"@, TokenKind::Anything)
    }
}

impl<'a> GlslBundler<'a> {
    pub fn new(module_infos: &'a Vec<hyp::ModuleInfo>, exported_local: i32) -> (r: GlslBundler<'a>)
        ensures
            r.buf.buf@.len() == 0,
            r.buf.minify,
            r.buf.indent_len == 0,
            r.buf.prev_token_kind == TokenKind::Anything,
            r.module_infos == module_infos,
            r.exported_local == exported_local,
            r.current_module == 0,
            r.ok,
    {
        GlslBundler { buf: Detokenizer::new(true), module_infos, exported_local, current_module: 0, ok: true }
    }

    /// The name of an identifier in GLSL.
    pub fn ident_to_str(&self, ident: &hyp::Ident) -> (r: String)
        ensures
            r@ == ident@,
    {
        ident.clone()
    }

    /// Writes the name of local `index` of module `abs`; when there is no
    /// such local nothing is written and the bundler is no longer ok.
    fn write_local_name(&mut self, abs: usize, index: u32)
        ensures
            writes(*old(self), *final(self)),
            written(*old(self), *final(self), local_out(gctx(*old(self)), abs as int, index as int, old(self).buf.prev_token_kind)),
            abs < old(self).module_infos@.len() && index < old(self).module_infos@[abs as int].locals@.len()
                ==> final(self).ok == old(self).ok,
    {
        let infos = self.module_infos;
        if abs < infos.len() && (index as usize) < infos[abs].locals.len() {
            self.buf.ident(infos[abs].locals[index as usize].name.as_str());
        } else {
            self.ok = false;
        }
    }

    /// Writes the GLSL type of `ty`; an unknown type leaves the bundler not ok.
    fn write_type(&mut self, ty: &hyp::AstType)
        ensures
            writes(*old(self), *final(self)),
            written(*old(self), *final(self), type_out(*ty, old(self).buf.prev_token_kind)),
            glsl_type_name(spec_parse_type(*ty)) is Some ==> final(self).ok == old(self).ok,
    {
        if !self.buf.type_to_glsl(ty) {
            self.ok = false;
        }
    }

    /// Writes statements, each on a line of its own, with `;` after those
    /// that need one (see `inner_out`).
    pub fn stmts_inner_to_glsl(&mut self, stmts: &Vec<GlslAst>)
        requires
            old(self).buf.minify,
        ensures
            writes(*old(self), *final(self)),
            written(*old(self), *final(self), inner_out(gctx(*old(self)), stmts@, stmts@.len(), old(self).buf.prev_token_kind)),
        decreases stmts, 0nat,
    {
        let ghost c = gctx(*self);
        let ghost k0 = self.buf.prev_token_kind;
        let mut i: usize = 0;
        while i < stmts.len()
            invariant
                i <= stmts@.len(),
                writes(*old(self), *self),
                self.buf.minify,
                c == gctx(*self),
                k0 == old(self).buf.prev_token_kind,
                written(*old(self), *self, inner_out(c, stmts@, i as nat, k0)),
            decreases stmts@.len() - i,
        {
            self.buf.indent();
            let need_semi = self.to_glsl(&stmts[i], prec_max());
            if need_semi == NeedSemi::Yes {
                self.buf.semi();
                self.buf.nl();
            } else {
                self.buf.nl();
            }
            proof {
                assert(self.buf.buf@ =~= old(self).buf.buf@ + inner_out(c, stmts@, (i + 1) as nat, k0).0);
            }
            i = i + 1;
        }
    }

    /// Writes statements in braces (see `block_out`).
    pub fn stmts_to_glsl(&mut self, stmts: &Vec<GlslAst>)
        requires
            old(self).buf.minify,
        ensures
            writes(*old(self), *final(self)),
            written(*old(self), *final(self), block_out(gctx(*old(self)), stmts@)),
        decreases stmts, 1nat,
    {
        let ghost c = gctx(*self);
        self.buf.token(Token("{", TokenKind::Anything));
        self.buf.nl();
        let level = self.buf.indent_len;
        if level < u32::MAX {
            self.buf.indent_len = level + 1;
        }
        self.stmts_inner_to_glsl(stmts);
        self.buf.indent_len = level;
        self.buf.indent();
        self.buf.token(Token("}", TokenKind::Anything));
        proof {
            reveal_strlit("{");
            reveal_strlit("}");
            assert(self.buf.buf@ =~= old(self).buf.buf@ + block_out(c, stmts@).0);
        }
    }

    /// Writes a global declaration of each local in `list` of kind `kind`
    /// (see `globals_out`); a local that does not exist leaves the bundler
    /// not ok.
    #[verifier::rlimit(100)]
    fn write_globals(&mut self, list: &Vec<(usize, u32)>, kind: &str)
        requires
            old(self).buf.minify,
        ensures
            writes(*old(self), *final(self)),
            written(*old(self), *final(self), globals_out(gctx(*old(self)), list@, kind@, list@.len(), old(self).buf.prev_token_kind)),
    {
        let ghost c = gctx(*self);
        let ghost k0 = self.buf.prev_token_kind;
        let infos = self.module_infos;
        let mut i: usize = 0;
        while i < list.len()
            invariant
                i <= list@.len(),
                writes(*old(self), *self),
                self.buf.minify,
                infos == self.module_infos,
                c == gctx(*self),
                k0 == old(self).buf.prev_token_kind,
                written(*old(self), *self, globals_out(c, list@, kind@, i as nat, k0)),
            decreases list@.len() - i,
        {
            let (m, l) = list[i];
            if m < infos.len() && (l as usize) < infos[m].locals.len() {
                self.buf.ident(kind);
                self.write_type(&infos[m].locals[l as usize].ty);
                self.buf.ident(infos[m].locals[l as usize].name.as_str());
                self.buf.semi();
                self.buf.nl();
                proof {
                    reveal_strlit(";");
                }
            } else {
                self.ok = false;
            }
            assert(self.buf.buf@ =~= old(self).buf.buf@ + globals_out(c, list@, kind@, (i + 1) as nat, k0).0);
            i = i + 1;
        }
    }

    /// Writes a translated module (see `module_out`).
    pub fn module_to_glsl(&mut self, module: &GlslModule)
        requires
            old(self).buf.minify,
        ensures
            writes(*old(self), *final(self)),
            written(*old(self), *final(self), module_out(gctx(*old(self)), *module, old(self).buf.prev_token_kind)),
    {
        let ghost c = gctx(*self);
        let ghost k0 = self.buf.prev_token_kind;
        let cur = self.current_module;
        let mut varyings: Vec<(usize, u32)> = Vec::new();
        let mut attributes: Vec<(usize, u32)> = Vec::new();
        let mut uniforms: Vec<(usize, u32)> = Vec::new();
        let mut i: usize = 0;
        while i < module.varyings.len()
            invariant
                i <= module.varyings@.len(),
                varyings@ == of_module(cur, module.varyings@.take(i as int)),
            decreases module.varyings@.len() - i,
        {
            varyings.push((cur, module.varyings[i]));
            i = i + 1;
            assert(varyings@ =~= of_module(cur, module.varyings@.take(i as int)));
        }
        assert(module.varyings@.take(i as int) =~= module.varyings@);
        i = 0;
        while i < module.attributes.len()
            invariant
                i <= module.attributes@.len(),
                attributes@ == of_module(cur, module.attributes@.take(i as int)),
            decreases module.attributes@.len() - i,
        {
            attributes.push((cur, module.attributes[i]));
            i = i + 1;
            assert(attributes@ =~= of_module(cur, module.attributes@.take(i as int)));
        }
        assert(module.attributes@.take(i as int) =~= module.attributes@);
        i = 0;
        while i < module.uniforms.len()
            invariant
                i <= module.uniforms@.len(),
                uniforms@ == of_module(cur, module.uniforms@.take(i as int)),
            decreases module.uniforms@.len() - i,
        {
            uniforms.push((cur, module.uniforms[i]));
            i = i + 1;
            assert(uniforms@ =~= of_module(cur, module.uniforms@.take(i as int)));
        }
        assert(module.uniforms@.take(i as int) =~= module.uniforms@);
        i = 0;
        let ghost own = varyings@;
        while i < module.used_imports.len()
            invariant
                i <= module.used_imports@.len(),
                varyings@ == own + members(module.used_imports@.take(i as int)),
            decreases module.used_imports@.len() - i,
        {
            let (m, l) = module.used_imports[i];
            varyings.push((m as usize, l));
            i = i + 1;
            assert(varyings@ =~= own + members(module.used_imports@.take(i as int)));
        }
        assert(module.used_imports@.take(i as int) =~= module.used_imports@);
        if self.exported_local < 0 {
            self.write_globals(&varyings, "varying");
            self.write_globals(&attributes, "attribute");
            self.write_globals(&uniforms, "uniform");
        }
        self.stmts_inner_to_glsl(&module.items);
        proof {
            assert(self.buf.buf@ =~= old(self).buf.buf@ + module_out(c, *module, k0).0);
        }
    }
}

impl<'a> GlslBundler<'a> {
    /// Writes a function definition, if it is the one being written: the
    /// exported function chosen (as `main`), or, when writing the module,
    /// any function that is not exported.
    #[verifier::rlimit(100)]
    fn fn_to_glsl(&mut self, ast: &GlslAst) -> (r: NeedSemi)
        requires
            old(self).buf.minify,
            *ast is Fn,
        ensures
            writes(*old(self), *final(self)),
            written(*old(self), *final(self), glsl_out(gctx(*old(self)), *ast, gmax(), old(self).buf.prev_token_kind)),
            r == NeedSemi::No,
        decreases ast, 4nat,
    {
        let ghost c = gctx(*self);
        let ghost k0 = self.buf.prev_token_kind;
        match ast {
            GlslAst::Fn { id, exported, args, expr } => {
                let id_as_i32 = #[verifier::truncate] (*id as i32);
                if (*exported && id_as_i32 != self.exported_local) || (!*exported && self.exported_local >= 0) {
                    assert(self.buf.buf@ =~= old(self).buf.buf@ + Seq::<char>::empty());
                    return NeedSemi::No;
                }
                let infos = self.module_infos;
                let cur = self.current_module;
                if !(cur < infos.len() && (*id as usize) < infos[cur].locals.len()) {
                    self.ok = false;
                    assert(self.buf.buf@ =~= old(self).buf.buf@ + Seq::<char>::empty());
                    return NeedSemi::No;
                }
                match &infos[cur].locals[*id as usize].ty {
                    hyp::AstType::Fn(ret_ty, args_ty) => {
                        self.write_type(ret_ty);
                        let ghost o1 = type_out(**ret_ty, k0);
                        if self.exported_local >= 0 {
                            self.buf.ident("main");
                        } else {
                            self.write_local_name(cur, *id);
                        }
                        let ghost o2 = if c.2 >= 0 {
                            tok(o1.1, "main"@, TokenKind::Alphanum)
                        } else {
                            local_out(c, c.1 as int, *id as int, o1.1)
                        };
                        assert(self.buf.buf@ =~= old(self).buf.buf@ + o1.0 + o2.0);
                        self.buf.lparen();
                        let ghost b_open = self.buf.buf@;
                        let mut i: usize = 0;
                        while i < args.len() && i < args_ty.len()
                            invariant
                                i <= args@.len(),
                                i <= args_ty@.len(),
                                writes(*old(self), *self),
                                self.buf.minify,
                                infos == self.module_infos,
                                cur == self.current_module,
                                c == gctx(*self),
                                self.buf.buf@ == b_open + params_out(c, args@, args_ty@, i as nat, TokenKind::Anything).0,
                                self.buf.prev_token_kind == params_out(c, args@, args_ty@, i as nat, TokenKind::Anything).1,
                            decreases args@.len() - i,
                        {
                            if i > 0 {
                                self.buf.comma();
                            }
                            self.write_type(&args_ty[i]);
                            self.write_local_name(cur, args[i]);
                            proof {
                                reveal_strlit(",");
                                assert(self.buf.buf@ =~= b_open + params_out(
                                    c,
                                    args@,
                                    args_ty@,
                                    (i + 1) as nat,
                                    TokenKind::Anything,
                                ).0);
                            }
                            i = i + 1;
                        }
                        let ghost kk = if args@.len() < args_ty@.len() {
                            args@.len()
                        } else {
                            args_ty@.len()
                        };
                        assert(i == kk);
                        self.buf.rparen();
                        self.buf.pretty_space();
                        self.to_glsl(expr, prec_max());
                        self.buf.nl();
                        proof {
                            reveal_strlit("(");
                            reveal_strlit(")");
                            assert(self.buf.buf@ =~= old(self).buf.buf@ + glsl_out(c, *ast, gmax(), k0).0);
                        }
                    },
                    _ => {
                        self.ok = false;
                        assert(self.buf.buf@ =~= old(self).buf.buf@ + Seq::<char>::empty());
                    },
                }
                NeedSemi::No
            },
            _ => NeedSemi::No,
        }
    }

    /// Writes the declarations of locals (see `locals_out`).
    #[verifier::rlimit(100)]
    fn locals_to_glsl(&mut self, locs: &Vec<(String, GlslAst, u32)>)
        requires
            old(self).buf.minify,
        ensures
            writes(*old(self), *final(self)),
            written(*old(self), *final(self), locals_out(gctx(*old(self)), locs@, locs@.len(), old(self).buf.prev_token_kind)),
        decreases locs, 1nat,
    {
        let ghost c = gctx(*self);
        let ghost k0 = self.buf.prev_token_kind;
        let infos = self.module_infos;
        let cur = self.current_module;
        let mut i: usize = 0;
        while i < locs.len()
            invariant
                i <= locs@.len(),
                writes(*old(self), *self),
                self.buf.minify,
                infos == self.module_infos,
                cur == self.current_module,
                c == gctx(*self),
                k0 == old(self).buf.prev_token_kind,
                written(*old(self), *self, locals_out(c, locs@, i as nat, k0)),
            decreases locs@.len() - i,
        {
            let ghost o = locals_out(c, locs@, i as nat, k0);
            let ghost sp = sep_out((i + 1) as nat, o.1);
            let ghost o2 = decl_out(c, locs@[i as int].2, sp.1);
            let ghost bi = self.buf.buf@;
            if i > 0 {
                self.buf.comma();
            }
            proof {
                reveal_strlit(",");
                assert(self.buf.buf@ =~= bi + sp.0);
            }
            let ghost bs = self.buf.buf@;
            let id = locs[i].2;
            if cur < infos.len() && (id as usize) < infos[cur].locals.len() {
                self.write_type(&infos[cur].locals[id as usize].ty);
                self.write_local_name(cur, id);
                assert(self.buf.buf@ =~= bs + o2.0);
            } else {
                self.ok = false;
                assert(self.buf.buf@ =~= bs + o2.0);
            }
            let ghost bt = self.buf.buf@;
            let ghost o3 = if locs@[i as int].1 is Undef {
                none(o2.1)
            } else {
                let v = glsl_out(c, locs@[i as int].1, Prec(16, 1), TokenKind::Op);
                (token_text(o2.1, "="@, TokenKind::Op) + v.0, v.1)
            };
            match &locs[i].1 {
                GlslAst::Undef => {
                    assert(self.buf.buf@ =~= bt + o3.0);
                },
                init => {
                    proof {
                        assert(decreases_to!(*locs => locs@[i as int]));
                        assert(decreases_to!(locs@[i as int] => locs@[i as int].1));
                    }
                    self.buf.assign();
                    self.to_glsl(init, prec_assign().on_right());
                    assert(self.buf.buf@ =~= bt + o3.0);
                },
            }
            self.buf.semi();
            proof {
                reveal_strlit(";");
                assert(locals_out(c, locs@, (i + 1) as nat, k0) == (o.0 + sp.0 + o2.0 + o3.0 + ";"@, TokenKind::Anything));
                assert(self.buf.buf@ =~= old(self).buf.buf@ + locals_out(c, locs@, (i + 1) as nat, k0).0);
            }
            i = i + 1;
        }
    }

    /// Writes arguments separated by commas (see `args_out`).
    fn args_to_glsl(&mut self, args: &Vec<GlslAst>)
        requires
            old(self).buf.minify,
        ensures
            writes(*old(self), *final(self)),
            written(*old(self), *final(self), args_out(gctx(*old(self)), args@, args@.len(), old(self).buf.prev_token_kind)),
        decreases args, 1nat,
    {
        let ghost c = gctx(*self);
        let ghost k0 = self.buf.prev_token_kind;
        let mut i: usize = 0;
        while i < args.len()
            invariant
                i <= args@.len(),
                writes(*old(self), *self),
                self.buf.minify,
                c == gctx(*self),
                k0 == old(self).buf.prev_token_kind,
                written(*old(self), *self, args_out(c, args@, i as nat, k0)),
            decreases args@.len() - i,
        {
            if i > 0 {
                self.buf.comma();
            }
            self.to_glsl(&args[i], prec_comma().on_either());
            proof {
                reveal_strlit(",");
                assert(self.buf.buf@ =~= old(self).buf.buf@ + args_out(c, args@, (i + 1) as nat, k0).0);
            }
            i = i + 1;
        }
    }

    /// Writes a leaf: a path, a literal, a reference to a local, or
    /// nothing for `Undef` (which leaves the bundler not ok).
    fn leaf_to_glsl(&mut self, ast: &GlslAst, slot: Prec)
        requires
            old(self).buf.minify,
            *ast is Path || *ast is Lit || *ast is LocalRef || *ast is ModuleMember || *ast is Undef,
        ensures
            writes(*old(self), *final(self)),
            written(*old(self), *final(self), glsl_out(gctx(*old(self)), *ast, slot, old(self).buf.prev_token_kind)),
            *ast is Undef ==> !final(self).ok,
    {
        let ghost c = gctx(*self);
        let ghost k0 = self.buf.prev_token_kind;
        match ast {
            GlslAst::Path { segments } => {
                let p = self.buf.wrap_p(slot, prec_dot_bracket());
                let ghost b0 = self.buf.buf@;
                let ghost ka = after_open(p, k0);
                let mut i: usize = 0;
                while i < segments.len()
                    invariant
                        i <= segments@.len(),
                        writes(*old(self), *self),
                        self.buf.minify,
                        c == gctx(*self),
                        self.buf.buf@ == b0 + dotted_out(segments@, i as nat, ka).0,
                        self.buf.prev_token_kind == dotted_out(segments@, i as nat, ka).1,
                    decreases segments@.len() - i,
                {
                    if i > 0 {
                        self.buf.period();
                    }
                    self.buf.ident(segments[i].as_str());
                    proof {
                        reveal_strlit(".");
                        assert(self.buf.buf@ =~= b0 + dotted_out(segments@, (i + 1) as nat, ka).0);
                    }
                    i = i + 1;
                }
                self.buf.unwrap_p(p);
                proof {
                    reveal_strlit("(");
                    reveal_strlit(")");
                    assert(self.buf.buf@ =~= old(self).buf.buf@ + glsl_out(c, *ast, slot, k0).0);
                }
            },
            GlslAst::Lit { lit } => {
                match lit {
                    GlslLit::Int(v) => {
                        let mut txt = String::new();
                        crate::text::push_int(&mut txt, *v);
                        assert(txt@ =~= crate::text::int_text(*v as int));
                        self.buf.token(Token(txt.as_str(), TokenKind::Alphanum));
                    },
                    GlslLit::Float(v) => {
                        let txt = format_float(v);
                        self.buf.token(Token(txt.as_str(), TokenKind::Alphanum));
                    },
                }
            },
            GlslAst::LocalRef { id } => {
                let cur = self.current_module;
                self.write_local_name(cur, *id);
            },
            GlslAst::ModuleMember { abs_index, local_index } => {
                self.write_local_name(*abs_index as usize, *local_index);
            },
            _ => {
                self.ok = false;
                assert(self.buf.buf@ =~= old(self).buf.buf@ + Seq::<char>::empty());
            },
        }
    }

    /// Writes a block, a declaration or a `return`.
    fn ctrl_to_glsl(&mut self, ast: &GlslAst, slot: Prec)
        requires
            old(self).buf.minify,
            *ast is Block || *ast is Locals || *ast is Return,
        ensures
            writes(*old(self), *final(self)),
            written(*old(self), *final(self), glsl_out(gctx(*old(self)), *ast, slot, old(self).buf.prev_token_kind)),
        decreases ast, 4nat,
    {
        let ghost c = gctx(*self);
        let ghost k0 = self.buf.prev_token_kind;
        match ast {
            GlslAst::Block { stmts } => {
                self.stmts_to_glsl(stmts);
                assert(glsl_out(c, *ast, slot, k0) == block_out(c, stmts@));
                assert(self.buf.buf@ =~= old(self).buf.buf@ + glsl_out(c, *ast, slot, k0).0);
            },
            GlslAst::Locals { locs } => {
                self.locals_to_glsl(locs);
                assert(glsl_out(c, *ast, slot, k0) == locals_out(c, locs@, locs@.len(), k0));
                assert(self.buf.buf@ =~= old(self).buf.buf@ + glsl_out(c, *ast, slot, k0).0);
            },
            GlslAst::Return { value } => {
                self.buf.ident("return");
                self.to_glsl(value, prec_max());
                assert(self.buf.buf@ =~= old(self).buf.buf@ + glsl_out(c, *ast, slot, k0).0);
            },
            _ => {},
        }
    }

    /// Writes an `if`.
    #[verifier::rlimit(100)]
    fn if_to_glsl(&mut self, ast: &GlslAst, slot: Prec)
        requires
            old(self).buf.minify,
            *ast is If,
        ensures
            writes(*old(self), *final(self)),
            written(*old(self), *final(self), glsl_out(gctx(*old(self)), *ast, slot, old(self).buf.prev_token_kind)),
        decreases ast, 4nat,
    {
        let ghost c = gctx(*self);
        let ghost k0 = self.buf.prev_token_kind;
        match ast {
            GlslAst::If { cond, then_branch, else_branch } => {
                self.buf.ident("if");
                self.buf.pretty_space();
                self.buf.lparen();
                self.to_glsl(cond, prec_max());
                self.buf.rparen();
                self.buf.pretty_space();
                self.stmts_to_glsl(then_branch);
                let ghost b1 = self.buf.buf@;
                proof {
                    reveal_strlit("(");
                    reveal_strlit(")");
                    let o1 = glsl_out(c, **cond, gmax(), TokenKind::Anything);
                    let o2 = block_out(c, then_branch@);
                    assert(b1 =~= old(self).buf.buf@ + (token_text(k0, "if"@, TokenKind::Alphanum) + "("@
                        + o1.0 + ")"@ + o2.0));
                }
                match else_branch {
                    Some(e) => {
                        self.buf.pretty_space();
                        self.buf.ident("else");
                        self.buf.pretty_space();
                        self.to_glsl(e, prec_max());
                        proof {
                            reveal_strlit("else");
                            assert(self.buf.buf@ =~= old(self).buf.buf@ + glsl_out(c, *ast, slot, k0).0);
                        }
                    },
                    None => {},
                }
            },
            _ => {},
        }
    }

    /// Writes a loop as `for`.
    #[verifier::rlimit(100)]
    fn loop_to_glsl(&mut self, ast: &GlslAst, slot: Prec)
        requires
            old(self).buf.minify,
            *ast is While || *ast is Loop,
        ensures
            writes(*old(self), *final(self)),
            written(*old(self), *final(self), glsl_out(gctx(*old(self)), *ast, slot, old(self).buf.prev_token_kind)),
        decreases ast, 4nat,
    {
        let ghost c = gctx(*self);
        let ghost k0 = self.buf.prev_token_kind;
        match ast {
            GlslAst::While { cond, body } => {
                self.buf.ident("for");
                self.buf.lparen();
                self.buf.semi();
                self.to_glsl(cond, prec_max());
                self.buf.semi();
                self.buf.rparen();
                self.buf.pretty_space();
                self.stmts_to_glsl(body);
                proof {
                    reveal_strlit("(");
                    reveal_strlit(")");
                    reveal_strlit(";");
                    reveal_strlit("(;");
                    reveal_strlit(";)");
                    assert(self.buf.buf@ =~= old(self).buf.buf@ + glsl_out(c, *ast, slot, k0).0);
                }
            },
            GlslAst::Loop { body } => {
                self.buf.ident("for");
                self.buf.lparen();
                self.buf.semi();
                self.buf.semi();
                self.buf.rparen();
                self.buf.pretty_space();
                self.stmts_to_glsl(body);
                proof {
                    reveal_strlit("(");
                    reveal_strlit(")");
                    reveal_strlit(";");
                    reveal_strlit("(;;)");
                    assert(self.buf.buf@ =~= old(self).buf.buf@ + glsl_out(c, *ast, slot, k0).0);
                }
            },
            _ => {},
        }
    }

    /// Writes a call, an assignment or an operator, or a field access.
    #[verifier::rlimit(100)]
    fn ops_to_glsl(&mut self, ast: &GlslAst, slot: Prec)
        requires
            old(self).buf.minify,
            *ast is Call || *ast is Assign || *ast is Unary || *ast is Binary || *ast is Field,
        ensures
            writes(*old(self), *final(self)),
            written(*old(self), *final(self), glsl_out(gctx(*old(self)), *ast, slot, old(self).buf.prev_token_kind)),
        decreases ast, 4nat,
    {
        let ghost c = gctx(*self);
        let ghost k0 = self.buf.prev_token_kind;
        match ast {
            GlslAst::Call { func, args } => {
                self.to_glsl(func, prec_call());
                self.buf.lparen();
                self.args_to_glsl(args);
                self.buf.rparen();
                proof {
                    reveal_strlit("(");
                    reveal_strlit(")");
                    assert(self.buf.buf@ =~= old(self).buf.buf@ + glsl_out(c, *ast, slot, k0).0);
                }
            },
            GlslAst::Assign { left, right } => {
                let p = self.buf.wrap_p(slot, prec_assign());
                self.to_glsl(left, prec_assign().on_left());
                self.buf.assign();
                self.to_glsl(right, prec_assign().on_right());
                self.buf.unwrap_p(p);
                proof {
                    reveal_strlit("(");
                    reveal_strlit(")");
                    assert(self.buf.buf@ =~= old(self).buf.buf@ + glsl_out(c, *ast, slot, k0).0);
                }
            },
            GlslAst::Unary { value, op } => {
                let prec = unop_prec_x(*op);
                let p = self.buf.wrap_p(slot, prec);
                self.buf.op(unop_str(*op));
                self.to_glsl(value, prec.on_right());
                self.buf.unwrap_p(p);
                proof {
                    reveal_strlit("(");
                    reveal_strlit(")");
                    assert(self.buf.buf@ =~= old(self).buf.buf@ + glsl_out(c, *ast, slot, k0).0);
                }
            },
            GlslAst::Binary { left, op, right } => {
                let prec = binop_prec_x(*op);
                let p = self.buf.wrap_p(slot, prec);
                self.to_glsl(left, prec.on_left());
                self.buf.pretty_space();
                self.buf.op(binop_str(*op));
                self.buf.pretty_space();
                self.to_glsl(right, prec.on_right());
                self.buf.unwrap_p(p);
                proof {
                    reveal_strlit("(");
                    reveal_strlit(")");
                    assert(self.buf.buf@ =~= old(self).buf.buf@ + glsl_out(c, *ast, slot, k0).0);
                }
            },
            GlslAst::Field { base, member } => {
                let p = self.buf.wrap_p(slot, prec_dot_bracket());
                self.to_glsl(base, prec_dot_bracket().on_left());
                self.buf.period();
                self.buf.ident(member.as_str());
                self.buf.unwrap_p(p);
                proof {
                    reveal_strlit("(");
                    reveal_strlit(")");
                    reveal_strlit(".");
                    assert(self.buf.buf@ =~= old(self).buf.buf@ + glsl_out(c, *ast, slot, k0).0);
                }
            },
            _ => {},
        }
    }

    /// Writes a tree in a context of precedence `slot` (see `glsl_out`),
    /// and tells whether a statement made of it needs a `;` (not after
    /// functions, blocks, declarations, `if` and loops).
    pub fn to_glsl(&mut self, ast: &GlslAst, slot: Prec) -> (r: NeedSemi)
        requires
            old(self).buf.minify,
        ensures
            writes(*old(self), *final(self)),
            written(*old(self), *final(self), glsl_out(gctx(*old(self)), *ast, slot, old(self).buf.prev_token_kind)),
            r == (if ends_block(*ast) {
                NeedSemi::No
            } else {
                NeedSemi::Yes
            }),
            *ast is Undef ==> !final(self).ok,
        decreases ast, 5nat,
    {
        match ast {
            GlslAst::Fn { .. } => {
                proof {
                    assert(glsl_out(gctx(*self), *ast, slot, self.buf.prev_token_kind) == glsl_out(
                        gctx(*self),
                        *ast,
                        gmax(),
                        self.buf.prev_token_kind,
                    ));
                }
                self.fn_to_glsl(ast)
            },
            GlslAst::Path { .. } | GlslAst::Lit { .. } | GlslAst::LocalRef { .. }
            | GlslAst::ModuleMember { .. } | GlslAst::Undef => {
                self.leaf_to_glsl(ast, slot);
                NeedSemi::Yes
            },
            GlslAst::Block { .. } | GlslAst::Locals { .. } => {
                self.ctrl_to_glsl(ast, slot);
                NeedSemi::No
            },
            GlslAst::If { .. } => {
                self.if_to_glsl(ast, slot);
                NeedSemi::No
            },
            GlslAst::While { .. } | GlslAst::Loop { .. } => {
                self.loop_to_glsl(ast, slot);
                NeedSemi::No
            },
            GlslAst::Return { .. } => {
                self.ctrl_to_glsl(ast, slot);
                NeedSemi::Yes
            },
            GlslAst::Call { .. } | GlslAst::Assign { .. } | GlslAst::Unary { .. } | GlslAst::Binary { .. }
            | GlslAst::Field { .. } => {
                self.ops_to_glsl(ast, slot);
                NeedSemi::Yes
            },
        }
    }
}

/// The exports among the first `k` of `exports` that are functions of
/// module `abs`, in order.
pub open spec fn exported_fns(infos: Seq<hyp::ModuleInfo>, abs: int, exports: Seq<u32>, k: nat) -> Seq<u32>
    decreases k,
{
    if k == 0 || k > exports.len() {
        Seq::empty()
    } else {
        let e = exports[k - 1];
        if e < infos[abs].locals@.len() && infos[abs].locals@[e as int].ty is Fn {
            exported_fns(infos, abs, exports, (k - 1) as nat).push(e)
        } else {
            exported_fns(infos, abs, exports, (k - 1) as nat)
        }
    }
}

/// `b` is GLSL module `abs` written out from its translation `m`: the
/// whole module, then each exported function alone, as `main`.
pub open spec fn bundled_from(infos: Seq<hyp::ModuleInfo>, abs: usize, m: GlslModule, b: BundledModule) -> bool {
    let fns = exported_fns(infos, abs as int, infos[abs as int].exports@, infos[abs as int].exports@.len());
    &&& b.prefix@ == module_out((infos, abs, -1i32), m, TokenKind::Anything).0
    &&& b.exported_functions@.len() == fns.len()
    &&& forall|j: int|
        0 <= j < fns.len() ==> #[trigger] b.exported_functions@[j].1 == fns[j]
            && b.exported_functions@[j].0@ == module_out((infos, abs, fns[j] as i32), m, TokenKind::Anything).0
}

/// `b` is GLSL module `abs` written out from the translation of its body,
/// with the errors of the translation.
pub open spec fn bundled_ok(infos: Seq<hyp::ModuleInfo>, lambdas: Seq<hyp::AstLambda>, abs: usize, b: BundledModule) -> bool {
    &&& exists|m: GlslModule| #[trigger] module_of(lambdas[abs as int].expr@, m) && bundled_from(infos, abs, m, b)
    &&& b.errors@ == gitems_errs(lambdas[abs as int].expr@, lambdas[abs as int].expr@.len())
}

/// The GLSL modules among the first `k` of `order`, in that order.
pub open spec fn glsl_order(infos: Seq<hyp::ModuleInfo>, n_lambdas: nat, order: Seq<u32>, k: nat) -> Seq<usize>
    decreases k,
{
    if k == 0 || k > order.len() {
        Seq::empty()
    } else {
        let a = order[k - 1] as usize;
        if a < infos.len() && a < n_lambdas && infos[a as int].language == hyp::Language::Glsl {
            glsl_order(infos, n_lambdas, order, (k - 1) as nat).push(a)
        } else {
            glsl_order(infos, n_lambdas, order, (k - 1) as nat)
        }
    }
}

/// `r` is what `bundle` gives for these modules in this order: one entry
/// for each GLSL module of the order, in that order, written out from the
/// translation of its body.
pub open spec fn bundle_result(
    infos: Seq<hyp::ModuleInfo>,
    lambdas: Seq<hyp::AstLambda>,
    order: Seq<u32>,
    r: Seq<(usize, BundledModule)>,
) -> bool {
    &&& r.len() == glsl_order(infos, lambdas.len(), order, order.len()).len()
    &&& forall|i: int|
        0 <= i < r.len() ==> #[trigger] r[i].0 == glsl_order(infos, lambdas.len(), order, order.len())[i]
            && r[i].0 < infos.len() && infos[r[i].0 as int].language == hyp::Language::Glsl && bundled_ok(
            infos,
            lambdas,
            r[i].0,
            r[i].1,
        )
}

impl<'a> GlslBundler<'a> {
    /// Writes out each GLSL module of `module_order` (in that order): the
    /// module's common source, and for each exported function the source
    /// of that function alone.
    pub fn bundle(
        module_infos: &Vec<hyp::ModuleInfo>,
        module_lambdas: &Vec<hyp::AstLambda>,
        module_order: &Vec<u32>,
        _debug: bool,
    ) -> (r: Vec<(usize, BundledModule)>)
        ensures
            bundle_result(module_infos@, module_lambdas@, module_order@, r@),
    {
        let ghost n = module_lambdas@.len();
        let mut out: Vec<(usize, BundledModule)> = Vec::new();
        let mut k: usize = 0;
        while k < module_order.len()
            invariant
                k <= module_order@.len(),
                n == module_lambdas@.len(),
                out@.len() == glsl_order(module_infos@, n, module_order@, k as nat).len(),
                forall|i: int|
                    0 <= i < out@.len() ==> #[trigger] out@[i].0 == glsl_order(module_infos@, n, module_order@, k as nat)[i]
                        && out@[i].0 < module_infos@.len()
                        && module_infos@[out@[i].0 as int].language == hyp::Language::Glsl
                        && bundled_ok(module_infos@, module_lambdas@, out@[i].0, out@[i].1),
            decreases module_order@.len() - k,
        {
            let abs = module_order[k] as usize;
            if abs < module_infos.len() && abs < module_lambdas.len()
                && module_infos[abs].language == hyp::Language::Glsl {
                let mut enc = GlslEnc::new();
                enc.parse_hyp(&module_lambdas[abs].expr);
                proof {
                    assert(enc.module.items@.subrange(0, 0) =~= Seq::<GlslAst>::empty());
                    assert(enc.module.items@.subrange(0, enc.module.items@.len() as int) =~= enc.module.items@);
                    assert(enc.module.varyings@ =~= Seq::<u32>::empty() + enc.module.varyings@);
                }
                let ghost m = enc.module;
                assert(module_of(module_lambdas@[abs as int].expr@, m));
                let mut main = GlslBundler::new(module_infos, -1);
                main.current_module = abs;
                main.module_to_glsl(&enc.module);
                let mut ok = main.ok;
                let mut exported_functions: Vec<(String, u32)> = Vec::new();
                let exports = &module_infos[abs].exports;
                let mut j: usize = 0;
                while j < exports.len()
                    invariant
                        j <= exports@.len(),
                        abs < module_infos@.len(),
                        exports == module_infos@[abs as int].exports,
                        m == enc.module,
                        exported_functions@.len() == exported_fns(module_infos@, abs as int, exports@, j as nat).len(),
                        forall|q: int|
                            0 <= q < exported_functions@.len() ==> #[trigger] exported_functions@[q].1 == exported_fns(
                                module_infos@,
                                abs as int,
                                exports@,
                                j as nat,
                            )[q] && exported_functions@[q].0@ == module_out(
                                (module_infos@, abs, exported_fns(module_infos@, abs as int, exports@, j as nat)[q] as i32),
                                m,
                                TokenKind::Anything,
                            ).0,
                    decreases exports@.len() - j,
                {
                    let ghost fj = exported_fns(module_infos@, abs as int, exports@, j as nat);
                    let ghost before = exported_functions@;
                    let e = exports[j];
                    if (e as usize) < module_infos[abs].locals.len()
                        && module_infos[abs].locals[e as usize].ty.is_fn() {
                        let e_as_i32 = #[verifier::truncate] (e as i32);
                        let mut b = GlslBundler::new(module_infos, e_as_i32);
                        b.current_module = abs;
                        b.module_to_glsl(&enc.module);
                        ok = ok && b.ok;
                        exported_functions.push((b.buf.buf, e));
                        proof {
                            let fj1 = exported_fns(module_infos@, abs as int, exports@, (j + 1) as nat);
                            assert(fj1 == fj.push(e));
                            assert forall|q: int| 0 <= q < exported_functions@.len() implies #[trigger] exported_functions@[q].1
                                == fj1[q] && exported_functions@[q].0@ == module_out(
                                (module_infos@, abs, fj1[q] as i32),
                                m,
                                TokenKind::Anything,
                            ).0 by {
                                if q < before.len() {
                                    assert(exported_functions@[q] == before[q]);
                                    assert(fj1[q] == fj[q]);
                                } else {
                                    assert(fj1[q] == e);
                                }
                            }
                        }
                    } else {
                        proof {
                            let fj1 = exported_fns(module_infos@, abs as int, exports@, (j + 1) as nat);
                            assert(fj1 == fj);
                        }
                    }
                    j = j + 1;
                }
                let bm = BundledModule { prefix: main.buf.buf, exported_functions, ok, errors: enc.errors };
                assert(bundled_from(module_infos@, abs, m, bm));
                out.push((abs, bm));
            }
            k = k + 1;
        }
        out
    }
}

} // verus!
