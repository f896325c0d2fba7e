use vstd::prelude::*;
use vstd::arithmetic::power2::pow2;
use crate::conflict_tree::ConflictTree;

pub mod parser;
pub mod resolver;
pub mod check;

verus! {

pub type AstRef = Box<Ast>;

pub type LocalRef = u32;

pub type Ident = String;

/// A source range (byte offsets into the module source).
#[derive(Clone, Copy, Debug)]
pub struct Span(pub usize, pub usize);

/// A located error message.
#[derive(Debug)]
pub struct ParseError(pub Span, pub &'static str);

pub type ParseResult<T> = Result<T, ParseError>;

/// A module that failed to parse, with its source, path and the error.
pub type ModuleResult<T> = Result<T, (Vec<u8>, String, ParseError)>;

#[derive(Debug)]
pub struct ParamDef {
    pub pat: Pattern,
    pub ty: AstType,
}

#[derive(Debug)]
pub enum Pattern {
    Local(u32),
    Array(Vec<Pattern>),
}

#[derive(Clone, Copy, Debug)]
pub enum Builtin {
    Star,
    Vec2Ctor,
    Mat2Ctor,
}

impl Builtin {
    /// The type of a builtin: every builtin is currently typed `Any`.
    pub fn get_type(&self) -> (r: AstType)
        ensures
            r is Any,
    {
        AstType::Any
    }
}

#[derive(Debug)]
pub enum Local {
    ModuleRef { abs_index: u32 },
    ModuleMember { abs_index: u32, local_index: u32 },
    Builtin(Builtin),
    Local { index: u32, inline: Option<Box<Ast>> },
}

#[derive(Debug)]
pub struct AstLambda {
    pub params: Vec<ParamDef>,
    pub param_locals: Vec<u32>,
    pub expr: Vec<Ast>,
    pub return_type: AstType,
}

impl AstLambda {
    pub fn new_empty() -> (r: AstLambda)
        ensures
            r.params@.len() == 0,
            r.param_locals@.len() == 0,
            r.expr@.len() == 0,
            r.return_type is NoType,
    {
        AstLambda { params: Vec::new(), param_locals: Vec::new(), expr: Vec::new(), return_type: AstType::NoType }
    }
}

#[derive(Clone, Copy, Debug)]
pub enum AppKind {
    Normal,
    Binary,
    Unary,
}

#[derive(Clone, Copy, Debug, PartialEq, Eq, Structural)]
pub enum Attr {
    NoAttr,
    Attribute,
    Varying,
    Uniform,
    Binary,
    Inline,
    Debug,
}

#[derive(Clone, Copy, Debug, PartialEq, Eq, Structural)]
pub enum Language {
    Js,
    Glsl,
    Binary,
}

#[derive(Debug)]
pub struct Use(pub Attr, pub Ident);

/// The literal of a numeric constant. A float literal is kept as the decimal
/// text it was written with.
#[derive(Debug)]
pub enum Lit {
    Float(String),
    Int(i64),
}

#[derive(Debug)]
pub enum AstData {
    ConstLit { v: Lit },
    ConstStr { v: String },
    Ident { s: Ident },
    Local { local: Local },
    App { fun: AstRef, params: Vec<Ast>, kind: AppKind },
    Lambda { lambda: AstLambda },
    Block { expr: Vec<Ast> },
    TypeDef { index: u32 },
    LetLocal { name: Ident, ty: AstType, init: Option<AstRef>, local_index: u32, attr: Attr },
    FnLocal { name: Ident, lambda: AstLambda, local_index: u32, exported: bool },
    Field { base: AstRef, member: AstRef },
    For { name: Ident, pat: u32, iter: (AstRef, AstRef), body: AstLambda },
    Index { base: AstRef, index: AstRef },
    Array { elems: Vec<Ast> },
    If { cond: AstRef, body: AstLambda, else_body: Option<AstRef> },
    While { cond: AstRef, body: AstLambda },
    Loop { body: AstLambda },
    Break,
    Return { value: Option<AstRef> },
    Use { name: Ident, rel_index: u32 },
    NewObject { assignments: Vec<(Ident, Ast)> },
    NewCtor { ctor: Box<Ast>, params: Vec<Ast> },
    Void,
}

#[derive(Debug)]
pub enum AstType {
    NoType,
    Any,
    U64,
    I64,
    F64,
    U32,
    I32,
    F32,
    U8,
    Str,
    FixedArr(Box<AstType>, usize),
    Ptr(Box<AstType>),
    MemLoc(Box<AstType>),
    MemStruct(Box<StructDef>),
    ArrStruct(Box<ArrayStructDef>),
    Fn(Box<AstType>, Vec<AstType>),
    Ctor(Box<AstType>),
    Vec(Box<AstType>, u32),
    Mat(Box<AstType>, u32, u32),
    Other(Ident),
}

#[derive(Debug)]
pub struct StructField {
    pub name: String,
    pub ty: AstType,
    pub offset: usize,
}

impl StructField {
    pub fn new(name: String, ty: AstType) -> (r: StructField)
        ensures
            r.name == name,
            r.ty == ty,
            r.offset == 0,
    {
        StructField { name, ty, offset: 0 }
    }
}

/// A struct type laid out in memory. The layout (alignment and size) is
/// computed from the fields and may be cached.
#[derive(Debug)]
pub struct StructDef {
    pub fields: Vec<StructField>,
    pub computed_offset: bool,
    pub size_of: usize,
    pub align_of: usize,
    pub multiple: usize,
}

impl StructDef {
    pub fn new(fields: Vec<StructField>) -> (r: StructDef)
        ensures
            r.fields == fields,
            !r.computed_offset,
            r.size_of == 0,
            r.align_of == 0,
            r.multiple == 0,
    {
        StructDef { fields, computed_offset: false, size_of: 0, align_of: 0, multiple: 0 }
    }

    /// A cache agrees with the fields' layout once it is computed.
    pub open spec fn cache_ok(&self) -> bool {
        self.computed_offset ==> struct_layout(self.fields@) == Some(
            (self.align_of as nat, self.size_of as nat),
        )
    }
}

#[derive(Debug)]
pub struct ArrayStructField {
    pub name: String,
    pub ty: AstType,
}

#[derive(Debug)]
pub struct ArrayStructDef {
    pub fields: Vec<ArrayStructField>,
}

#[derive(Clone, Copy, Debug, PartialEq, Eq, Structural)]
pub struct AstTy(pub u32);

impl AstTy {
    pub fn uninit() -> (r: AstTy)
        ensures
            r.0 == 0,
    {
        AstTy(0)
    }
}

#[derive(Debug)]
pub struct AstTyParams {
    pub params: Vec<AstTy>,
    pub rest: bool,
}

#[derive(Clone, Copy, Debug, PartialEq, Eq, Structural)]
pub struct AstTyInt {
    pub bits: u32,
    pub signed: bool,
}

#[derive(Debug)]
pub enum AstTyData {
    NoType,
    Any,
    Int(AstTyInt),
    Float(u32),
    Fn(AstTy, AstTyParams),
    Vec(AstTy, u32),
    Mat(AstTy, u32, u32),
}

#[derive(Debug)]
pub struct Ast {
    pub ty: AstType,
    pub loc: Span,
    pub attr: Attr,
    pub data: AstData,
}

#[derive(Debug)]
pub struct LocalDef {
    pub ty: AstType,
    pub name: Ident,
    pub is_mut: bool,
    pub const_value: Option<Lit>,
    pub need_qualification: bool,
}

#[derive(Debug)]
pub struct TypeDef {
    pub name: Ident,
    pub ty: AstType,
}

// ---------------------------------------------------------------------------
// Memory layout of types

/// `offset` rounded up to a multiple of `align`.
pub open spec fn align_up(offset: nat, align: nat) -> nat {
    align * ((offset + align - 1) as nat / align)
}

/// Greatest common divisor.
pub open spec fn spec_gcd(a: nat, b: nat) -> nat
    decreases b,
{
    if b == 0 {
        a
    } else {
        spec_gcd(b, a % b)
    }
}

/// Least common multiple, 0 when both are 0.
pub open spec fn spec_lcm(a: nat, b: nat) -> nat {
    if a == 0 && b == 0 {
        0
    } else {
        a * (b / spec_gcd(a, b))
    }
}

/// The (alignment, size) of a type, or `None` when the type has no fixed
/// size or a value on the way does not fit in a `usize`.
pub open spec fn type_layout(t: AstType) -> Option<(nat, nat)>
    decreases t,
{
    match t {
        AstType::U8 => Some((1, 1)),
        AstType::U32 | AstType::I32 | AstType::F32 => Some((4, 4)),
        AstType::U64 | AstType::I64 | AstType::F64 => Some((8, 8)),
        AstType::FixedArr(ty, count) => match type_layout(*ty) {
            Some((a, s)) => if s * count <= usize::MAX {
                Some((a, (s * count) as nat))
            } else {
                None
            },
            None => None,
        },
        AstType::MemLoc(_) | AstType::Ptr(_) => Some((4, 4)),
        AstType::MemStruct(def) => finish_layout(fields_layout(def.fields@)),
        _ => None,
    }
}

/// The running (offset, alignment) after laying out `fields` in order.
pub open spec fn fields_layout(fields: Seq<StructField>) -> Option<(nat, nat)>
    decreases fields,
{
    if fields.len() == 0 {
        Some((0, 1))
    } else {
        match fields_layout(fields.drop_last()) {
            Some((off, al)) => match type_layout(fields.last().ty) {
                Some((a, s)) => {
                    let off2 = align_up(off, a) + s;
                    let al2 = spec_lcm(al, a);
                    if a > 0 && off + a - 1 <= usize::MAX && off2 <= usize::MAX && al2
                        <= usize::MAX && al * (a / spec_gcd(al, a)) <= usize::MAX {
                        Some((off2, al2))
                    } else {
                        None
                    }
                },
                None => None,
            },
            None => None,
        }
    }
}

/// The (alignment, size) of a struct from the running (offset, alignment)
/// after its last field: the size is the offset rounded up to the alignment.
pub open spec fn finish_layout(r: Option<(nat, nat)>) -> Option<(nat, nat)> {
    match r {
        Some((off, al)) => if al > 0 && off + al - 1 <= usize::MAX {
            Some((al, align_up(off, al)))
        } else {
            None
        },
        None => None,
    }
}

/// The (alignment, size) of a struct with `fields`: the size is the end of
/// the last field rounded up to the alignment, the alignment the least
/// common multiple of the fields' alignments.
pub open spec fn struct_layout(fields: Seq<StructField>) -> Option<(nat, nat)> {
    finish_layout(fields_layout(fields))
}

/// The exponent of `m` as a power of two.
pub open spec fn exact_log2(m: nat) -> Option<nat>
    decreases m,
{
    if m == 1 {
        Some(0nat)
    } else if m == 0 || m % 2 == 1 {
        None
    } else {
        match exact_log2(m / 2) {
            Some(k) => Some(k + 1),
            None => None,
        }
    }
}

/// The pointer shift for a multiple: its base-2 logarithm when it is a
/// power of two, 1 otherwise.
pub open spec fn spec_mult_to_shift(mult: nat) -> int {
    match exact_log2(mult) {
        Some(k) => k as int,
        None => 1,
    }
}

/// Rounds `offset` up to the next multiple of `align`.
pub fn align_offset(offset: usize, align: usize) -> (r: usize)
    requires
        align > 0,
        offset + align - 1 <= usize::MAX,
    ensures
        r == align_up(offset as nat, align as nat),
{
    let q = (offset + (align - 1)) / align;
    proof {
        let n = (offset + align - 1) as int;
        assert(align * q <= n) by (nonlinear_arith)
            requires
                q == n / align as int,
                align > 0,
                n >= 0,
        ;
    }
    align * q
}

/// Rounding up to a multiple: the result is a multiple of `align`, no
/// smaller than `offset` and less than `offset + align`.
pub proof fn lemma_align_up(offset: nat, align: nat)
    requires
        align > 0,
    ensures
        align_up(offset, align) % align == 0,
        offset <= align_up(offset, align) < offset + align,
{
    let n = (offset + align - 1) as nat;
    let q = n / align;
    assert(align_up(offset, align) == align * q);
    assert((align * q) % align == 0) by (nonlinear_arith)
        requires
            align > 0,
    ;
    assert(align * q <= n && n < align * q + align) by (nonlinear_arith)
        requires
            align > 0,
            q == n / align,
    ;
}

/// The least common multiple of two integers (`num::Integer::lcm`).
/// Claimed: for `usize` it returns `a * (b / gcd(a, b))`, and 0 when both
/// are 0; the product is required not to overflow.
#[verifier::external_body]
fn lcm(a: usize, b: usize) -> (r: usize)
    requires
        (a == 0 && b == 0) || (a as nat) * ((b as nat) / spec_gcd(a as nat, b as nat)) <= usize::MAX,
    ensures
        r == spec_lcm(a as nat, b as nat),
{
    num::Integer::lcm(&a, &b)
}

/// The base-2 logarithm of `mult` when it is a power of two, 1 otherwise.
pub fn mult_to_shift(mult: usize) -> (r: i32)
    ensures
        r == spec_mult_to_shift(mult as nat),
        0 <= r < usize::BITS,
{
    proof {
        lemma_shift_range(mult as nat);
    }
    if mult == 0 {
        return 1;
    }
    let mut m = mult;
    let mut k: u32 = 0;
    assert(pow2_nat(0) == 1);
    assert(m * pow2_nat(0) == mult);
    while m % 2 == 0
        invariant
            m > 0,
            0 <= k <= 64,
            exact_log2(mult as nat) == match exact_log2(m as nat) {
                Some(j) => Some((j + k) as nat),
                None => None,
            },
            m * pow2_nat(k as nat) == mult,
            mult <= usize::MAX,
        decreases m,
    {
        assert(m != 1);
        proof {
            lemma_pow2_pos(k as nat);
            lemma_pow2_succ(k as nat);
            assert(m * pow2_nat(k as nat) == (m / 2) * pow2_nat(k as nat + 1)) by (nonlinear_arith)
                requires
                    m % 2 == 0,
                    pow2_nat(k as nat + 1) == 2 * pow2_nat(k as nat),
            ;
            lemma_pow2_bound(k as nat + 1, (m / 2) as nat, mult as nat);
        }
        m = m / 2;
        k = k + 1;
    }
    if m == 1 {
        k as i32
    } else {
        1
    }
}

pub open spec fn pow2_nat(k: nat) -> nat
    decreases k,
{
    if k == 0 {
        1
    } else {
        2 * pow2_nat((k - 1) as nat)
    }
}

proof fn lemma_pow2_pos(k: nat)
    ensures
        pow2_nat(k) >= 1,
    decreases k,
{
    if k > 0 {
        lemma_pow2_pos((k - 1) as nat);
    }
}

proof fn lemma_pow2_succ(k: nat)
    ensures
        pow2_nat(k + 1) == 2 * pow2_nat(k),
{
}

/// A positive multiple of `2^k` below `2^64` needs `k < 64`.
proof fn lemma_pow2_bound(k: nat, m: nat, v: nat)
    requires
        m >= 1,
        m * pow2_nat(k) == v,
        v <= usize::MAX,
    ensures
        k <= 64,
    decreases k,
{
    if k > 64 {
        lemma_pow2_grows(64, k);
        lemma_pow2_words();
        assert(m * pow2_nat(k) >= pow2_nat(k)) by (nonlinear_arith)
            requires
                m >= 1,
        ;
    }
}

proof fn lemma_pow2_add(a: nat, b: nat)
    ensures
        pow2_nat(a + b) == pow2_nat(a) * pow2_nat(b),
    decreases b,
{
    if b > 0 {
        lemma_pow2_add(a, (b - 1) as nat);
        assert(pow2_nat(a + b) == 2 * pow2_nat((a + b - 1) as nat));
        assert(pow2_nat(b) == 2 * pow2_nat((b - 1) as nat));
        let x = pow2_nat(a);
        let y = pow2_nat((b - 1) as nat);
        assert(a + (b - 1) as nat == (a + b - 1) as nat);
        assert(pow2_nat((a + b - 1) as nat) == x * y);
        assert(2 * (x * y) == x * (2 * y)) by (nonlinear_arith);
        assert(pow2_nat(a + b) == x * pow2_nat(b));
    } else {
        assert(pow2_nat(b) == 1);
        assert(pow2_nat(a) * 1 == pow2_nat(a));
    }
}

/// `2^32` and `2^64`.
proof fn lemma_pow2_words()
    ensures
        pow2_nat(32) == 0x1_0000_0000,
        pow2_nat(64) == 0x1_0000_0000_0000_0000,
{
    reveal_with_fuel(pow2_nat, 9);
    assert(pow2_nat(8) == 256);
    lemma_pow2_add(8, 8);
    assert(pow2_nat(16) == 256 * 256);
    lemma_pow2_add(16, 16);
    assert(pow2_nat(32) == 65536 * 65536);
    lemma_pow2_add(32, 32);
    assert(pow2_nat(64) == 0x1_0000_0000 * 0x1_0000_0000);
}

proof fn lemma_pow2_grows(a: nat, b: nat)
    requires
        a <= b,
    ensures
        pow2_nat(a) <= pow2_nat(b),
    decreases b,
{
    if a < b {
        lemma_pow2_grows(a, (b - 1) as nat);
        lemma_pow2_pos((b - 1) as nat);
    }
}


impl AstType {
    /// The alignment and size of a value of this type.
    pub fn align_of_size_of(&self) -> (r: (usize, usize))
        requires
            type_layout(*self) is Some,
        ensures
            Some((r.0 as nat, r.1 as nat)) == type_layout(*self),
        decreases self,
    {
        match self {
            AstType::U8 => (1, 1),
            AstType::U32 | AstType::I32 | AstType::F32 => (4, 4),
            AstType::U64 | AstType::I64 | AstType::F64 => (8, 8),
            AstType::FixedArr(ty, count) => {
                let (a, s) = ty.align_of_size_of();
                (a, s * *count)
            },
            AstType::MemLoc(_) | AstType::Ptr(_) => (4, 4),
            AstType::MemStruct(def) => def.compute_layout(),
            _ => (1, 1),
        }
    }

    /// The shift that converts a byte address of a value of this type into
    /// an index of its alignment unit.
    pub fn ptr_shift(&self) -> (r: i32)
        requires
            type_layout(*self) is Some,
        ensures
            r == spec_type_ptr_shift(*self),
            0 <= r < usize::BITS,
    {
        match self {
            AstType::MemStruct(def) => mult_to_shift(def.multiple),
            _ => {
                let (align_of, _) = self.align_of_size_of();
                mult_to_shift(align_of)
            },
        }
    }

    /// The difference between the pointer shifts of `to` and of this type.
    pub fn ptr_convert_shift(&self, to: &AstType) -> (r: i32)
        requires
            type_layout(*self) is Some,
            type_layout(*to) is Some,
        ensures
            r == spec_type_ptr_shift(*to) - spec_type_ptr_shift(*self),
    {
        let from_sh = self.ptr_shift();
        let to_sh = to.ptr_shift();
        to_sh - from_sh
    }

    /// The size of this type counted in units of `1 << ptr_shift`.
    pub fn arr_offset_mult(&self) -> (r: usize)
        requires
            type_layout(*self) is Some,
        ensures
            r as nat == type_layout(*self).unwrap().1 / pow2(spec_type_ptr_shift(*self) as nat),
    {
        let (_, size_of) = self.align_of_size_of();
        let sh = self.ptr_shift();
        let shu = sh as usize;
        proof {
            vstd::bits::lemma_usize_shr_is_div(size_of, shu);
        }
        size_of >> shu
    }

    /// `offset` (a multiple of `1 << ptr_shift`) counted in units of `1 << ptr_shift`.
    pub fn shifted_offset(&self, offset: usize) -> (r: usize)
        requires
            type_layout(*self) is Some,
            offset as nat % pow2(spec_type_ptr_shift(*self) as nat) == 0,
        ensures
            r as nat == offset as nat / pow2(spec_type_ptr_shift(*self) as nat),
    {
        let sh = self.ptr_shift();
        let shu = sh as usize;
        proof {
            vstd::bits::lemma_usize_shr_is_div(offset, shu);
        }
        offset >> shu
    }

    pub fn is_any(&self) -> (r: bool)
        ensures
            r == (*self is Any),
    {
        match self {
            AstType::Any => true,
            _ => false,
        }
    }

    pub fn is_fn(&self) -> (r: bool)
        ensures
            r == (*self is Fn),
    {
        match self {
            AstType::Fn(..) => true,
            _ => false,
        }
    }
}

/// The pointer shift of a type: for a struct that of its multiple, for
/// other types that of its alignment.
pub open spec fn spec_type_ptr_shift(t: AstType) -> int {
    match t {
        AstType::MemStruct(def) => spec_mult_to_shift(def.multiple as nat),
        _ => spec_mult_to_shift(type_layout(t).unwrap().0),
    }
}

/// The pointer shift of a multiple that fits in a `usize` is a valid shift
/// amount for a `usize`.
pub proof fn lemma_shift_range(m: nat)
    requires
        m <= usize::MAX,
    ensures
        0 <= spec_mult_to_shift(m) < usize::BITS,
{
    if exact_log2(m) is Some {
        lemma_exact_log2(m);
        let k = exact_log2(m).unwrap();
        assert((usize::BITS == 32 && usize::MAX == 0xffff_ffff) || (usize::BITS == 64
            && usize::MAX == 0xffff_ffff_ffff_ffff));
        if k >= usize::BITS {
            lemma_pow2_grows(usize::BITS as nat, k);
            lemma_pow2_words();
        }
    }
}

proof fn lemma_exact_log2(m: nat)
    requires
        exact_log2(m) is Some,
    ensures
        pow2_nat(exact_log2(m)->0) == m,
    decreases m,
{
    if m != 1 {
        lemma_exact_log2(m / 2);
    }
}

impl StructDef {
    /// Lays the fields out in order and returns the struct's alignment and size.
    fn compute_layout(&self) -> (r: (usize, usize))
        requires
            struct_layout(self.fields@) is Some,
        ensures
            Some((r.0 as nat, r.1 as nat)) == struct_layout(self.fields@),
        decreases self,
    {
        let mut offset: usize = 0;
        let mut total_align_of: usize = 1;
        let mut i: usize = 0;
        proof {
            lemma_fields_layout_prefix(self.fields@, self.fields@.len() as int);
        }
        while i < self.fields.len()
            invariant
                i <= self.fields@.len(),
                struct_layout(self.fields@) is Some,
                fields_layout(self.fields@) is Some,
                fields_layout(self.fields@.take(i as int)) == Some(
                    (offset as nat, total_align_of as nat),
                ),
            decreases self.fields@.len() - i,
        {
            proof {
                lemma_fields_layout_prefix(self.fields@, i as int + 1);
                assert(self.fields@.take(i as int + 1).drop_last() =~= self.fields@.take(i as int));
            }
            let f = &self.fields[i];
            let (align_of, size_of) = f.ty.align_of_size_of();
            offset = align_offset(offset, align_of) + size_of;
            total_align_of = lcm(total_align_of, align_of);
            i = i + 1;
        }
        assert(self.fields@.take(i as int) =~= self.fields@);
        (total_align_of, align_offset(offset, total_align_of))
    }

    /// Fills in the cached layout if it has not been computed yet.
    pub fn ensure_offsets_computed(&mut self)
        requires
            old(self).computed_offset || struct_layout(old(self).fields@) is Some,
        ensures
            final(self).fields == old(self).fields,
            final(self).multiple == old(self).multiple,
            final(self).computed_offset,
            old(self).computed_offset ==> *final(self) == *old(self),
            !old(self).computed_offset ==> Some(
                (final(self).align_of as nat, final(self).size_of as nat),
            ) == struct_layout(old(self).fields@),
            old(self).cache_ok() ==> final(self).cache_ok(),
    {
        if !self.computed_offset {
            self.computed_offset = true;
            let (a, s) = self.compute_layout();
            self.align_of = a;
            self.size_of = s;
        }
    }

    /// The struct's alignment and size, computed and cached first when
    /// they were not yet.
    pub fn align_of_size_of(&mut self) -> (r: (usize, usize))
        requires
            old(self).computed_offset || struct_layout(old(self).fields@) is Some,
        ensures
            cached_from(*old(self), *final(self)),
            r == (final(self).align_of, final(self).size_of),
            old(self).cache_ok() && struct_layout(old(self).fields@) is Some ==> Some(
                (r.0 as nat, r.1 as nat),
            ) == struct_layout(old(self).fields@),
    {
        self.ensure_offsets_computed();
        (self.align_of, self.size_of)
    }

    /// The pointer shift of the struct, derived from its multiple, after
    /// computing and caching the layout.
    pub fn ptr_shift(&mut self) -> (r: i32)
        requires
            old(self).computed_offset || struct_layout(old(self).fields@) is Some,
        ensures
            cached_from(*old(self), *final(self)),
            r == spec_mult_to_shift(old(self).multiple as nat),
            0 <= r < usize::BITS,
    {
        self.ensure_offsets_computed();
        mult_to_shift(self.multiple)
    }

    /// `offset` (a multiple of `1 << ptr_shift`) counted in units of `1 << ptr_shift`.
    pub fn shifted_offset(&mut self, offset: usize) -> (r: usize)
        requires
            old(self).computed_offset || struct_layout(old(self).fields@) is Some,
            offset as nat % pow2(spec_mult_to_shift(old(self).multiple as nat) as nat) == 0,
        ensures
            cached_from(*old(self), *final(self)),
            r as nat == offset as nat / pow2(spec_mult_to_shift(old(self).multiple as nat) as nat),
    {
        let sh = self.ptr_shift();
        let shu = sh as usize;
        proof {
            vstd::bits::lemma_usize_shr_is_div(offset, shu);
        }
        offset >> shu
    }
}

/// `new` is `old` with its layout computed and cached: the fields and the
/// multiple stay, the cache is filled with the fields' layout when it was
/// empty and kept otherwise.
pub open spec fn cached_from(old: StructDef, new: StructDef) -> bool {
    &&& new.fields == old.fields
    &&& new.multiple == old.multiple
    &&& new.computed_offset
    &&& old.computed_offset ==> new == old
    &&& !old.computed_offset ==> Some((new.align_of as nat, new.size_of as nat)) == struct_layout(old.fields@)
    &&& old.cache_ok() ==> new.cache_ok()
}

proof fn lemma_fields_layout_prefix(fields: Seq<StructField>, k: int)
    requires
        0 <= k <= fields.len(),
        fields_layout(fields) is Some,
    ensures
        fields_layout(fields.take(k)) is Some,
    decreases fields.len(),
{
    if k < fields.len() {
        assert(fields.drop_last().take(k) =~= fields.take(k));
        lemma_fields_layout_prefix(fields.drop_last(), k);
    } else {
        assert(fields.take(k) =~= fields);
    }
}

/// A struct's size is a multiple of its alignment.
pub proof fn lemma_struct_size_aligned(fields: Seq<StructField>)
    requires
        struct_layout(fields) is Some,
    ensures
        struct_layout(fields).unwrap().0 > 0,
        struct_layout(fields).unwrap().1 % struct_layout(fields).unwrap().0 == 0,
{
    let (off, al) = fields_layout(fields)->0;
    lemma_align_up(off, al);
}

// ---------------------------------------------------------------------------
// Modules

/// A name-to-local table where a later entry for a name replaces an earlier one.
pub open spec fn rev_lookup(v: Seq<(Ident, u32)>, name: Seq<char>) -> Option<u32>
    decreases v.len(),
{
    if v.len() == 0 {
        None
    } else if v.last().0@ == name {
        Some(v.last().1)
    } else {
        rev_lookup(v.drop_last(), name)
    }
}

/// Looks `name` up in a name-to-local table (the latest entry wins).
pub fn exports_rev_get(v: &Vec<(Ident, u32)>, name: &Ident) -> (r: Option<u32>)
    ensures
        r == rev_lookup(v@, name@),
{
    let mut i = v.len();
    assert(v@.take(i as int) =~= v@);
    while i > 0
        invariant
            i <= v@.len(),
            rev_lookup(v@, name@) == rev_lookup(v@.take(i as int), name@),
        decreases i,
    {
        assert(v@.take(i as int).drop_last() =~= v@.take(i - 1));
        if v[i - 1].0 == *name {
            return Some(v[i - 1].1);
        }
        i = i - 1;
    }
    None
}

/// A parsed module.
#[derive(Debug)]
pub struct Module {
    pub lambda: AstLambda,
    pub src: Vec<u8>,
    pub path: String,
    pub uses: Vec<Use>,
    pub locals: Vec<LocalDef>,
    pub local_types: Vec<TypeDef>,
    pub exports: Vec<u32>,
    pub exports_rev: Vec<(Ident, u32)>,
    pub language: Language,
}

/// What the later passes know of a module.
#[derive(Debug)]
pub struct ModuleInfo {
    pub name: String,
    pub src: Vec<u8>,
    pub path: String,
    pub locals: Vec<LocalDef>,
    pub local_types: Vec<TypeDef>,
    pub exports: Vec<u32>,
    pub exports_rev: Vec<(Ident, u32)>,
    pub import_map: Vec<u32>,
    pub conflict_tree: ConflictTree<u32>,
    pub language: Language,
    pub external: bool,
}

impl ModuleInfo {
    /// Splits a parsed module into its root lambda and its module info.
    pub fn from_module(module_name: String, import_map: Vec<u32>, module: Module) -> (r: (
        AstLambda,
        ModuleInfo,
    ))
        ensures
            r.0 == module.lambda,
            r.1.name == module_name,
            r.1.src == module.src,
            r.1.path == module.path,
            r.1.locals == module.locals,
            r.1.local_types == module.local_types,
            r.1.exports == module.exports,
            r.1.exports_rev == module.exports_rev,
            r.1.import_map == import_map,
            r.1.conflict_tree@.items.len() == 0,
            r.1.conflict_tree@.children.len() == 0,
            r.1.language == module.language,
            !r.1.external,
    {
        (
            module.lambda,
            ModuleInfo {
                name: module_name,
                src: module.src,
                path: module.path,
                locals: module.locals,
                local_types: module.local_types,
                exports: module.exports,
                exports_rev: module.exports_rev,
                conflict_tree: ConflictTree::new(),
                import_map,
                language: module.language,
                external: false,
            },
        )
    }

    /// A module info for externally provided locals, of which `exports` are exported.
    pub fn from_externals(
        module_name: String,
        locals: Vec<LocalDef>,
        exports: Vec<u32>,
        language: Language,
    ) -> (r: (AstLambda, ModuleInfo))
        requires
            forall|i: int| 0 <= i < exports@.len() ==> exports@[i] < locals@.len(),
        ensures
            r.0.params@.len() == 0 && r.0.param_locals@.len() == 0 && r.0.expr@.len() == 0,
            r.0.return_type is NoType,
            r.1.name == module_name,
            r.1.src@.len() == 0,
            r.1.path@.len() == 0,
            r.1.locals == locals,
            r.1.local_types@.len() == 0,
            r.1.exports == exports,
            r.1.exports_rev@.len() == exports@.len(),
            forall|i: int|
                #![trigger r.1.exports_rev@[i]]
                0 <= i < exports@.len() ==> r.1.exports_rev@[i].1 == exports@[i]
                    && r.1.exports_rev@[i].0@ == locals@[exports@[i] as int].name@,
            r.1.import_map@.len() == 0,
            r.1.conflict_tree@.items.len() == 0,
            r.1.conflict_tree@.children.len() == 0,
            r.1.language == language,
            r.1.external,
    {
        let mut exports_rev: Vec<(Ident, u32)> = Vec::new();
        let mut i: usize = 0;
        while i < exports.len()
            invariant
                i <= exports@.len(),
                exports_rev@.len() == i,
                forall|j: int| 0 <= j < exports@.len() ==> exports@[j] < locals@.len(),
                forall|j: int|
                    #![trigger exports_rev@[j]]
                    0 <= j < i ==> exports_rev@[j].1 == exports@[j]
                        && exports_rev@[j].0@ == locals@[exports@[j] as int].name@,
            decreases exports@.len() - i,
        {
            let export = exports[i];
            let name = locals[export as usize].name.clone();
            exports_rev.push((name, export));
            i = i + 1;
        }
        assert(forall|j: int|
            #![trigger exports_rev@[j]]
            0 <= j < exports@.len() ==> exports_rev@[j].1 == exports@[j]
                && exports_rev@[j].0@ == locals@[exports@[j] as int].name@);
        (
            AstLambda::new_empty(),
            ModuleInfo {
                name: module_name,
                src: Vec::new(),
                path: String::new(),
                locals,
                local_types: Vec::new(),
                exports,
                exports_rev,
                conflict_tree: ConflictTree::new(),
                import_map: Vec::new(),
                language,
                external: true,
            },
        )
    }
}

/// Where an error lies in a source: the bounds of its line and its line
/// and column, both counted from 1.
#[derive(Clone, Copy, Debug)]
pub struct ErrorLocation {
    pub start: usize,
    pub stop: usize,
    pub line: usize,
    pub col: usize,
}

/// The number of newlines in `s`.
pub open spec fn count_newlines(s: Seq<u8>) -> nat
    decreases s.len(),
{
    if s.len() == 0 {
        0
    } else {
        count_newlines(s.drop_last()) + if s.last() == 10 { 1nat } else { 0nat }
    }
}

/// Locates the byte offset `pos` of `data`: the line starts at `start`
/// (just after a newline, or at 0) and no newline lies between it and
/// `pos`; `stop` is the last position from `pos` on before the next newline;
/// `line` is one more than the newlines before `pos` and `col` one more than
/// the bytes between `start` and `pos`.
pub fn error_location(data: &[u8], pos: usize) -> (r: ErrorLocation)
    requires
        pos <= data@.len(),
        data@.len() < usize::MAX,
    ensures
        r.start <= pos <= r.stop,
        r.start == 0 || data@[r.start - 1] == 10,
        forall|i: int| r.start <= i < pos ==> data@[i] != 10,
        r.stop == pos || r.stop < data@.len(),
        forall|i: int| pos < i <= r.stop ==> data@[i] != 10,
        r.stop + 1 >= data@.len() || data@[r.stop + 1] == 10,
        r.line == count_newlines(data@.take(pos as int)) + 1,
        r.col == pos - r.start + 1,
{
    let mut start = pos;
    while start > 0 && data[start - 1] != 10
        invariant
            start <= pos <= data@.len(),
            forall|i: int| start <= i < pos ==> data@[i] != 10,
        decreases start,
    {
        start = start - 1;
    }
    let mut line: usize = 1;
    let mut col: usize = 1;
    let mut i: usize = 0;
    while i < pos
        invariant
            i <= pos <= data@.len(),
            start <= pos,
            start == 0 || data@[start - 1] == 10,
            forall|j: int| start <= j < pos ==> data@[j] != 10,
            line == count_newlines(data@.take(i as int)) + 1,
            count_newlines(data@.take(i as int)) <= i,
            data@.len() < usize::MAX,
            col <= i + 1,
            i == start ==> col == 1,
            i > start ==> col == i - start + 1,
        decreases pos - i,
    {
        assert(data@.take(i as int + 1).drop_last() =~= data@.take(i as int));
        if data[i] == 10 {
            line = line + 1;
            col = 1;
        } else {
            col = col + 1;
        }
        i = i + 1;
    }
    let mut stop = pos;
    while stop + 1 < data.len() && data[stop + 1] != 10
        invariant
            pos <= stop,
            stop == pos || stop < data@.len(),
            pos <= data@.len() < usize::MAX,
            forall|j: int| pos < j <= stop ==> data@[j] != 10,
        decreases data@.len() - stop,
    {
        stop = stop + 1;
    }
    ErrorLocation { start, stop, line, col }
}

// ---------------------------------------------------------------------------
// Well-formed syntax trees

/// Every local a pattern binds is below `nl`.
pub open spec fn pattern_ok(p: Pattern, nl: nat) -> bool
    decreases p,
{
    match p {
        Pattern::Local(i) => i < nl,
        Pattern::Array(ps) => patterns_ok(ps@, nl),
    }
}

pub open spec fn patterns_ok(ps: Seq<Pattern>, nl: nat) -> bool
    decreases ps,
{
    if ps.len() == 0 {
        true
    } else {
        patterns_ok(ps.drop_last(), nl) && pattern_ok(ps.last(), nl)
    }
}

pub open spec fn params_ok(ps: Seq<ParamDef>, nl: nat) -> bool
    decreases ps.len(),
{
    if ps.len() == 0 {
        true
    } else {
        params_ok(ps.drop_last(), nl) && pattern_ok(ps.last().pat, nl)
    }
}

/// Every local, type and use that `a` refers to by index is below `nl`,
/// `nt` and `nu`: the module declares it.
pub open spec fn ast_ok(a: Ast, nl: nat, nt: nat, nu: nat) -> bool
    decreases a,
{
    match a.data {
        AstData::Local { local } => match local {
            Local::Local { index, .. } => index < nl,
            _ => true,
        },
        AstData::App { fun, params, .. } => ast_ok(*fun, nl, nt, nu) && asts_ok(params@, nl, nt, nu),
        AstData::Lambda { lambda } => lambda_ok(lambda, nl, nt, nu),
        AstData::Block { expr } => asts_ok(expr@, nl, nt, nu),
        AstData::TypeDef { index } => index < nt,
        AstData::LetLocal { init, local_index, .. } => local_index < nl && match init {
            Some(i) => ast_ok(*i, nl, nt, nu),
            None => true,
        },
        AstData::FnLocal { lambda, local_index, .. } => local_index < nl && lambda_ok(
            lambda,
            nl,
            nt,
            nu,
        ),
        AstData::Field { base, member } => ast_ok(*base, nl, nt, nu) && ast_ok(*member, nl, nt, nu),
        AstData::For { pat, iter, body, .. } => pat < nl && ast_ok(*iter.0, nl, nt, nu) && ast_ok(
            *iter.1,
            nl,
            nt,
            nu,
        ) && lambda_ok(body, nl, nt, nu),
        AstData::Index { base, index } => ast_ok(*base, nl, nt, nu) && ast_ok(*index, nl, nt, nu),
        AstData::Array { elems } => asts_ok(elems@, nl, nt, nu),
        AstData::If { cond, body, else_body } => ast_ok(*cond, nl, nt, nu) && lambda_ok(
            body,
            nl,
            nt,
            nu,
        ) && match else_body {
            Some(e) => ast_ok(*e, nl, nt, nu),
            None => true,
        },
        AstData::While { cond, body } => ast_ok(*cond, nl, nt, nu) && lambda_ok(body, nl, nt, nu),
        AstData::Loop { body } => lambda_ok(body, nl, nt, nu),
        AstData::Return { value } => match value {
            Some(v) => ast_ok(*v, nl, nt, nu),
            None => true,
        },
        AstData::Use { rel_index, .. } => rel_index < nu,
        AstData::NewObject { assignments } => assigns_ok(assignments@, nl, nt, nu),
        AstData::NewCtor { ctor, params } => ast_ok(*ctor, nl, nt, nu) && asts_ok(
            params@,
            nl,
            nt,
            nu,
        ),
        _ => true,
    }
}

pub open spec fn asts_ok(s: Seq<Ast>, nl: nat, nt: nat, nu: nat) -> bool
    decreases s,
{
    if s.len() == 0 {
        true
    } else {
        asts_ok(s.drop_last(), nl, nt, nu) && ast_ok(s.last(), nl, nt, nu)
    }
}

pub open spec fn assigns_ok(s: Seq<(Ident, Ast)>, nl: nat, nt: nat, nu: nat) -> bool
    decreases s,
{
    if s.len() == 0 {
        true
    } else {
        assigns_ok(s.drop_last(), nl, nt, nu) && ast_ok(s.last().1, nl, nt, nu)
    }
}

pub open spec fn lambda_ok(l: AstLambda, nl: nat, nt: nat, nu: nat) -> bool
    decreases l,
{
    &&& params_ok(l.params@, nl)
    &&& forall|i: int| 0 <= i < l.param_locals@.len() ==> #[trigger] l.param_locals@[i] < nl
    &&& asts_ok(l.expr@, nl, nt, nu)
}

pub proof fn lemma_pattern_grow(p: Pattern, nl: nat, nl2: nat)
    requires
        pattern_ok(p, nl),
        nl <= nl2,
    ensures
        pattern_ok(p, nl2),
    decreases p,
{
    if let Pattern::Array(ps) = p {
        lemma_patterns_grow(ps@, nl, nl2);
    }
}

pub proof fn lemma_patterns_grow(ps: Seq<Pattern>, nl: nat, nl2: nat)
    requires
        patterns_ok(ps, nl),
        nl <= nl2,
    ensures
        patterns_ok(ps, nl2),
    decreases ps,
{
    if ps.len() > 0 {
        lemma_patterns_grow(ps.drop_last(), nl, nl2);
        lemma_pattern_grow(ps.last(), nl, nl2);
    }
}

pub proof fn lemma_params_grow(ps: Seq<ParamDef>, nl: nat, nl2: nat)
    requires
        params_ok(ps, nl),
        nl <= nl2,
    ensures
        params_ok(ps, nl2),
    decreases ps.len(),
{
    if ps.len() > 0 {
        lemma_params_grow(ps.drop_last(), nl, nl2);
        lemma_pattern_grow(ps.last().pat, nl, nl2);
    }
}

/// A tree that refers only to declared items still does once more are
/// declared.
pub proof fn lemma_ast_grow(a: Ast, nl: nat, nt: nat, nu: nat, nl2: nat, nt2: nat, nu2: nat)
    requires
        ast_ok(a, nl, nt, nu),
        nl <= nl2,
        nt <= nt2,
        nu <= nu2,
    ensures
        ast_ok(a, nl2, nt2, nu2),
    decreases a,
{
    match a.data {
        AstData::App { fun, params, .. } => {
            lemma_ast_grow(*fun, nl, nt, nu, nl2, nt2, nu2);
            lemma_asts_grow(params@, nl, nt, nu, nl2, nt2, nu2);
        },
        AstData::Lambda { lambda } => {
            lemma_lambda_grow(lambda, nl, nt, nu, nl2, nt2, nu2);
        },
        AstData::Block { expr } => {
            lemma_asts_grow(expr@, nl, nt, nu, nl2, nt2, nu2);
        },
        AstData::LetLocal { init, .. } => {
            if let Some(i) = init {
                lemma_ast_grow(*i, nl, nt, nu, nl2, nt2, nu2);
            }
        },
        AstData::FnLocal { lambda, .. } => {
            lemma_lambda_grow(lambda, nl, nt, nu, nl2, nt2, nu2);
        },
        AstData::Field { base, member } => {
            lemma_ast_grow(*base, nl, nt, nu, nl2, nt2, nu2);
            lemma_ast_grow(*member, nl, nt, nu, nl2, nt2, nu2);
        },
        AstData::For { iter, body, .. } => {
            lemma_ast_grow(*iter.0, nl, nt, nu, nl2, nt2, nu2);
            lemma_ast_grow(*iter.1, nl, nt, nu, nl2, nt2, nu2);
            lemma_lambda_grow(body, nl, nt, nu, nl2, nt2, nu2);
        },
        AstData::Index { base, index } => {
            lemma_ast_grow(*base, nl, nt, nu, nl2, nt2, nu2);
            lemma_ast_grow(*index, nl, nt, nu, nl2, nt2, nu2);
        },
        AstData::Array { elems } => {
            lemma_asts_grow(elems@, nl, nt, nu, nl2, nt2, nu2);
        },
        AstData::If { cond, body, else_body } => {
            lemma_ast_grow(*cond, nl, nt, nu, nl2, nt2, nu2);
            lemma_lambda_grow(body, nl, nt, nu, nl2, nt2, nu2);
            if let Some(e) = else_body {
                lemma_ast_grow(*e, nl, nt, nu, nl2, nt2, nu2);
            }
        },
        AstData::While { cond, body } => {
            lemma_ast_grow(*cond, nl, nt, nu, nl2, nt2, nu2);
            lemma_lambda_grow(body, nl, nt, nu, nl2, nt2, nu2);
        },
        AstData::Loop { body } => {
            lemma_lambda_grow(body, nl, nt, nu, nl2, nt2, nu2);
        },
        AstData::Return { value } => {
            if let Some(v) = value {
                lemma_ast_grow(*v, nl, nt, nu, nl2, nt2, nu2);
            }
        },
        AstData::NewObject { assignments } => {
            lemma_assigns_grow(assignments@, nl, nt, nu, nl2, nt2, nu2);
        },
        AstData::NewCtor { ctor, params } => {
            lemma_ast_grow(*ctor, nl, nt, nu, nl2, nt2, nu2);
            lemma_asts_grow(params@, nl, nt, nu, nl2, nt2, nu2);
        },
        _ => {},
    }
}

pub proof fn lemma_asts_grow(s: Seq<Ast>, nl: nat, nt: nat, nu: nat, nl2: nat, nt2: nat, nu2: nat)
    requires
        asts_ok(s, nl, nt, nu),
        nl <= nl2,
        nt <= nt2,
        nu <= nu2,
    ensures
        asts_ok(s, nl2, nt2, nu2),
    decreases s,
{
    if s.len() > 0 {
        lemma_asts_grow(s.drop_last(), nl, nt, nu, nl2, nt2, nu2);
        lemma_ast_grow(s.last(), nl, nt, nu, nl2, nt2, nu2);
    }
}

pub proof fn lemma_assigns_grow(
    s: Seq<(Ident, Ast)>,
    nl: nat,
    nt: nat,
    nu: nat,
    nl2: nat,
    nt2: nat,
    nu2: nat,
)
    requires
        assigns_ok(s, nl, nt, nu),
        nl <= nl2,
        nt <= nt2,
        nu <= nu2,
    ensures
        assigns_ok(s, nl2, nt2, nu2),
    decreases s,
{
    if s.len() > 0 {
        lemma_assigns_grow(s.drop_last(), nl, nt, nu, nl2, nt2, nu2);
        lemma_ast_grow(s.last().1, nl, nt, nu, nl2, nt2, nu2);
    }
}

pub proof fn lemma_lambda_grow(
    l: AstLambda,
    nl: nat,
    nt: nat,
    nu: nat,
    nl2: nat,
    nt2: nat,
    nu2: nat,
)
    requires
        lambda_ok(l, nl, nt, nu),
        nl <= nl2,
        nt <= nt2,
        nu <= nu2,
    ensures
        lambda_ok(l, nl2, nt2, nu2),
    decreases l,
{
    lemma_params_grow(l.params@, nl, nl2);
    lemma_asts_grow(l.expr@, nl, nt, nu, nl2, nt2, nu2);
}

/// Appending an assignment whose value refers only to declared items
/// keeps a list of assignments so.
pub proof fn lemma_assigns_push(s: Seq<(Ident, Ast)>, x: (Ident, Ast), nl: nat, nt: nat, nu: nat)
    requires
        assigns_ok(s, nl, nt, nu),
        ast_ok(x.1, nl, nt, nu),
    ensures
        assigns_ok(s.push(x), nl, nt, nu),
{
    assert(s.push(x).drop_last() =~= s);
}

/// Appending a tree that refers only to declared items keeps a list so.
pub proof fn lemma_asts_push(s: Seq<Ast>, a: Ast, nl: nat, nt: nat, nu: nat)
    requires
        asts_ok(s, nl, nt, nu),
        ast_ok(a, nl, nt, nu),
    ensures
        asts_ok(s.push(a), nl, nt, nu),
{
    assert(s.push(a).drop_last() =~= s);
}

// ---------------------------------------------------------------------------
// Copies of types

/// `a` and `b` are the same type: the same shape, with names of the same
/// text and struct layouts alike.
pub open spec fn same_type(a: AstType, b: AstType) -> bool
    decreases a,
{
    match (a, b) {
        (AstType::FixedArr(x, n), AstType::FixedArr(y, m)) => n == m && same_type(*x, *y),
        (AstType::Ptr(x), AstType::Ptr(y)) => same_type(*x, *y),
        (AstType::MemLoc(x), AstType::MemLoc(y)) => same_type(*x, *y),
        (AstType::MemStruct(x), AstType::MemStruct(y)) => x.computed_offset == y.computed_offset
            && x.size_of == y.size_of && x.align_of == y.align_of && x.multiple == y.multiple
            && same_fields(x.fields@, y.fields@),
        (AstType::ArrStruct(x), AstType::ArrStruct(y)) => same_arr_fields(x.fields@, y.fields@),
        (AstType::Fn(x, xs), AstType::Fn(y, ys)) => same_type(*x, *y) && same_types(xs@, ys@),
        (AstType::Ctor(x), AstType::Ctor(y)) => same_type(*x, *y),
        (AstType::Vec(x, n), AstType::Vec(y, m)) => n == m && same_type(*x, *y),
        (AstType::Mat(x, n, k), AstType::Mat(y, m, j)) => n == m && k == j && same_type(*x, *y),
        (AstType::Other(x), AstType::Other(y)) => x@ == y@,
        (AstType::NoType, AstType::NoType) => true,
        (AstType::Any, AstType::Any) => true,
        (AstType::U64, AstType::U64) => true,
        (AstType::I64, AstType::I64) => true,
        (AstType::F64, AstType::F64) => true,
        (AstType::U32, AstType::U32) => true,
        (AstType::I32, AstType::I32) => true,
        (AstType::F32, AstType::F32) => true,
        (AstType::U8, AstType::U8) => true,
        (AstType::Str, AstType::Str) => true,
        _ => false,
    }
}

pub open spec fn same_types(a: Seq<AstType>, b: Seq<AstType>) -> bool
    decreases a,
{
    a.len() == b.len() && (a.len() > 0 ==> same_types(a.drop_last(), b.drop_last()) && same_type(
        a.last(),
        b.last(),
    ))
}

pub open spec fn same_fields(a: Seq<StructField>, b: Seq<StructField>) -> bool
    decreases a,
{
    a.len() == b.len() && (a.len() > 0 ==> same_fields(a.drop_last(), b.drop_last())
        && a.last().name@ == b.last().name@ && a.last().offset == b.last().offset && same_type(
        a.last().ty,
        b.last().ty,
    ))
}

pub open spec fn same_arr_fields(a: Seq<ArrayStructField>, b: Seq<ArrayStructField>) -> bool
    decreases a,
{
    a.len() == b.len() && (a.len() > 0 ==> same_arr_fields(a.drop_last(), b.drop_last())
        && a.last().name@ == b.last().name@ && same_type(a.last().ty, b.last().ty))
}

impl AstType {
    /// A copy of the type.
    pub fn copy(&self) -> (r: AstType)
        ensures
            same_type(r, *self),
        decreases self,
    {
        match self {
            AstType::NoType => AstType::NoType,
            AstType::Any => AstType::Any,
            AstType::U64 => AstType::U64,
            AstType::I64 => AstType::I64,
            AstType::F64 => AstType::F64,
            AstType::U32 => AstType::U32,
            AstType::I32 => AstType::I32,
            AstType::F32 => AstType::F32,
            AstType::U8 => AstType::U8,
            AstType::Str => AstType::Str,
            AstType::FixedArr(t, n) => AstType::FixedArr(Box::new(t.copy()), *n),
            AstType::Ptr(t) => AstType::Ptr(Box::new(t.copy())),
            AstType::MemLoc(t) => AstType::MemLoc(Box::new(t.copy())),
            AstType::MemStruct(d) => {
                let fields = copy_fields(&d.fields);
                AstType::MemStruct(
                    Box::new(
                        StructDef {
                            fields,
                            computed_offset: d.computed_offset,
                            size_of: d.size_of,
                            align_of: d.align_of,
                            multiple: d.multiple,
                        },
                    ),
                )
            },
            AstType::ArrStruct(d) => {
                let fields = copy_arr_fields(&d.fields);
                AstType::ArrStruct(Box::new(ArrayStructDef { fields }))
            },
            AstType::Fn(t, ts) => {
                let r = t.copy();
                let ps = copy_types(ts);
                AstType::Fn(Box::new(r), ps)
            },
            AstType::Ctor(t) => AstType::Ctor(Box::new(t.copy())),
            AstType::Vec(t, n) => AstType::Vec(Box::new(t.copy()), *n),
            AstType::Mat(t, n, m) => AstType::Mat(Box::new(t.copy()), *n, *m),
            AstType::Other(s) => AstType::Other(s.clone()),
        }
    }
}

/// Copies of the types in `ts`, in order.
pub fn copy_types(ts: &Vec<AstType>) -> (r: Vec<AstType>)
    ensures
        same_types(r@, ts@),
    decreases ts,
{
    let mut r: Vec<AstType> = Vec::new();
    let mut i: usize = 0;
    while i < ts.len()
        invariant
            i <= ts@.len(),
            same_types(r@, ts@.take(i as int)),
        decreases ts@.len() - i,
    {
        let t = ts[i].copy();
        proof {
            assert(r@.push(t).drop_last() =~= r@);
            assert(ts@.take(i + 1).drop_last() =~= ts@.take(i as int));
        }
        r.push(t);
        i = i + 1;
    }
    assert(ts@.take(i as int) =~= ts@);
    r
}

fn copy_fields(fs: &Vec<StructField>) -> (r: Vec<StructField>)
    ensures
        same_fields(r@, fs@),
    decreases fs,
{
    let mut r: Vec<StructField> = Vec::new();
    let mut i: usize = 0;
    while i < fs.len()
        invariant
            i <= fs@.len(),
            same_fields(r@, fs@.take(i as int)),
        decreases fs@.len() - i,
    {
        let f = StructField { name: fs[i].name.clone(), ty: fs[i].ty.copy(), offset: fs[i].offset };
        proof {
            assert(r@.push(f).drop_last() =~= r@);
            assert(fs@.take(i + 1).drop_last() =~= fs@.take(i as int));
        }
        r.push(f);
        i = i + 1;
    }
    assert(fs@.take(i as int) =~= fs@);
    r
}

fn copy_arr_fields(fs: &Vec<ArrayStructField>) -> (r: Vec<ArrayStructField>)
    ensures
        same_arr_fields(r@, fs@),
    decreases fs,
{
    let mut r: Vec<ArrayStructField> = Vec::new();
    let mut i: usize = 0;
    while i < fs.len()
        invariant
            i <= fs@.len(),
            same_arr_fields(r@, fs@.take(i as int)),
        decreases fs@.len() - i,
    {
        let f = ArrayStructField { name: fs[i].name.clone(), ty: fs[i].ty.copy() };
        proof {
            assert(r@.push(f).drop_last() =~= r@);
            assert(fs@.take(i + 1).drop_last() =~= fs@.take(i as int));
        }
        r.push(f);
        i = i + 1;
    }
    assert(fs@.take(i as int) =~= fs@);
    r
}

/// A parsed module refers only to the locals, types and uses it declares,
/// and each export is a local found by its name in `exports_rev`.
pub open spec fn module_ok(m: Module) -> bool {
    &&& lambda_ok(m.lambda, m.locals@.len(), m.local_types@.len(), m.uses@.len())
    &&& m.exports_rev@.len() == m.exports@.len()
    &&& forall|i: int| 0 <= i < m.exports@.len() ==> #[trigger] m.exports@[i] < m.locals@.len()
    &&& forall|i: int|
        0 <= i < m.exports@.len() ==> #[trigger] m.exports_rev@[i].1 == m.exports@[i]
            && m.exports_rev@[i].0@ == m.locals@[m.exports@[i] as int].name@
}

// ---------------------------------------------------------------------------
// Copies of syntax trees

pub proof fn lemma_asts_each(s: Seq<Ast>, nl: nat, nt: nat, nu: nat)
    requires
        asts_ok(s, nl, nt, nu),
    ensures
        forall|j: int| 0 <= j < s.len() ==> ast_ok(#[trigger] s[j], nl, nt, nu),
    decreases s.len(),
{
    if s.len() > 0 {
        lemma_asts_each(s.drop_last(), nl, nt, nu);
        assert forall|j: int| 0 <= j < s.len() implies ast_ok(#[trigger] s[j], nl, nt, nu) by {
            if j < s.len() - 1 {
                assert(s[j] == s.drop_last()[j]);
            }
        }
    }
}

pub proof fn lemma_patterns_each(s: Seq<Pattern>, nl: nat)
    requires
        patterns_ok(s, nl),
    ensures
        forall|j: int| 0 <= j < s.len() ==> pattern_ok(#[trigger] s[j], nl),
    decreases s.len(),
{
    if s.len() > 0 {
        lemma_patterns_each(s.drop_last(), nl);
        assert forall|j: int| 0 <= j < s.len() implies pattern_ok(#[trigger] s[j], nl) by {
            if j < s.len() - 1 {
                assert(s[j] == s.drop_last()[j]);
            }
        }
    }
}

pub proof fn lemma_params_each(s: Seq<ParamDef>, nl: nat)
    requires
        params_ok(s, nl),
    ensures
        forall|j: int| 0 <= j < s.len() ==> pattern_ok(#[trigger] s[j].pat, nl),
    decreases s.len(),
{
    if s.len() > 0 {
        lemma_params_each(s.drop_last(), nl);
        assert forall|j: int| 0 <= j < s.len() implies pattern_ok(#[trigger] s[j].pat, nl) by {
            if j < s.len() - 1 {
                assert(s[j] == s.drop_last()[j]);
            }
        }
    }
}

pub proof fn lemma_assigns_each(s: Seq<(Ident, Ast)>, nl: nat, nt: nat, nu: nat)
    requires
        assigns_ok(s, nl, nt, nu),
    ensures
        forall|j: int| 0 <= j < s.len() ==> ast_ok(#[trigger] s[j].1, nl, nt, nu),
    decreases s.len(),
{
    if s.len() > 0 {
        lemma_assigns_each(s.drop_last(), nl, nt, nu);
        assert forall|j: int| 0 <= j < s.len() implies ast_ok(#[trigger] s[j].1, nl, nt, nu) by {
            if j < s.len() - 1 {
                assert(s[j] == s.drop_last()[j]);
            }
        }
    }
}

/// `b` is a copy of the pattern `a`: the same locals in the same shape.
pub open spec fn same_pattern(a: Pattern, b: Pattern) -> bool
    decreases a,
{
    match (a, b) {
        (Pattern::Local(x), Pattern::Local(y)) => x == y,
        (Pattern::Array(xs), Pattern::Array(ys)) => same_patterns(xs@, ys@),
        _ => false,
    }
}

/// `b` is a copy of the patterns `a`, in order.
pub open spec fn same_patterns(a: Seq<Pattern>, b: Seq<Pattern>) -> bool
    decreases a,
{
    a.len() == b.len() && (a.len() > 0 ==> same_patterns(a.drop_last(), b.drop_last()) && same_pattern(
        a.last(),
        b.last(),
    ))
}

/// `b` is a copy of the parameters `a`, in order.
pub open spec fn same_params(a: Seq<ParamDef>, b: Seq<ParamDef>) -> bool
    decreases a.len(),
{
    a.len() == b.len() && (a.len() > 0 ==> same_params(a.drop_last(), b.drop_last()) && same_pattern(
        a.last().pat,
        b.last().pat,
    ) && same_type(b.last().ty, a.last().ty))
}

/// `b` is a copy of the literal `a`.
pub open spec fn same_lit(a: Lit, b: Lit) -> bool {
    match (a, b) {
        (Lit::Int(x), Lit::Int(y)) => x == y,
        (Lit::Float(x), Lit::Float(y)) => x@ == y@,
        _ => false,
    }
}

/// `b` is a copy of the tree `a`: the same span, attribute, type (by
/// `same_type`) and node, with names by their text.
pub open spec fn same_ast(a: Ast, b: Ast) -> bool
    decreases a, 1nat,
{
    a.loc == b.loc && a.attr == b.attr && same_type(b.ty, a.ty) && same_data(a.data, b.data)
}

/// `b` is a copy of the node `a`.
pub open spec fn same_data(a: AstData, b: AstData) -> bool
    decreases a, 0nat,
{
    match (a, b) {
        (AstData::ConstLit { v: x }, AstData::ConstLit { v: y }) => same_lit(x, y),
        (AstData::ConstStr { v: x }, AstData::ConstStr { v: y }) => x@ == y@,
        (AstData::Ident { s: x }, AstData::Ident { s: y }) => x@ == y@,
        (AstData::Local { local: x }, AstData::Local { local: y }) => same_local(x, y),
        (AstData::App { fun: f, params: p, kind: k }, AstData::App { fun: g, params: q, kind: j }) => k == j
            && same_ast(*f, *g) && same_asts(p@, q@),
        (AstData::Lambda { lambda: x }, AstData::Lambda { lambda: y }) => same_lambda(x, y),
        (AstData::Block { expr: x }, AstData::Block { expr: y }) => same_asts(x@, y@),
        (AstData::TypeDef { index: x }, AstData::TypeDef { index: y }) => x == y,
        (
            AstData::LetLocal { name: n, ty: t, init: i, local_index: l, attr: at },
            AstData::LetLocal { name: m, ty: u, init: j, local_index: k, attr: bt },
        ) => n@ == m@ && same_type(u, t) && same_opt(i, j) && l == k && at == bt,
        (
            AstData::FnLocal { name: n, lambda: x, local_index: l, exported: e },
            AstData::FnLocal { name: m, lambda: y, local_index: k, exported: f },
        ) => n@ == m@ && same_lambda(x, y) && l == k && e == f,
        (AstData::Field { base: x, member: y }, AstData::Field { base: u, member: v }) => same_ast(*x, *u)
            && same_ast(*y, *v),
        (AstData::For { name: n, pat: p, iter: it, body: x }, AstData::For { name: m, pat: q, iter: jt, body: y }) => n@
            == m@ && p == q && same_ast(*it.0, *jt.0) && same_ast(*it.1, *jt.1) && same_lambda(x, y),
        (AstData::Index { base: x, index: y }, AstData::Index { base: u, index: v }) => same_ast(*x, *u)
            && same_ast(*y, *v),
        (AstData::Array { elems: x }, AstData::Array { elems: y }) => same_asts(x@, y@),
        (AstData::If { cond: c, body: x, else_body: e }, AstData::If { cond: d, body: y, else_body: f }) =>
            same_ast(*c, *d) && same_lambda(x, y) && same_opt(e, f),
        (AstData::While { cond: c, body: x }, AstData::While { cond: d, body: y }) => same_ast(*c, *d)
            && same_lambda(x, y),
        (AstData::Loop { body: x }, AstData::Loop { body: y }) => same_lambda(x, y),
        (AstData::Break, AstData::Break) => true,
        (AstData::Return { value: x }, AstData::Return { value: y }) => same_opt(x, y),
        (AstData::Use { name: n, rel_index: i }, AstData::Use { name: m, rel_index: j }) => n@ == m@ && i == j,
        (AstData::NewObject { assignments: x }, AstData::NewObject { assignments: y }) => same_assigns(x@, y@),
        (AstData::NewCtor { ctor: c, params: p }, AstData::NewCtor { ctor: d, params: q }) => same_ast(*c, *d)
            && same_asts(p@, q@),
        (AstData::Void, AstData::Void) => true,
        _ => false,
    }
}

/// `b` is a copy of the local `a`.
pub open spec fn same_local(a: Local, b: Local) -> bool
    decreases a, 0nat,
{
    match (a, b) {
        (Local::ModuleRef { abs_index: x }, Local::ModuleRef { abs_index: y }) => x == y,
        (Local::ModuleMember { abs_index: x, local_index: i }, Local::ModuleMember { abs_index: y, local_index: j }) => x
            == y && i == j,
        (Local::Builtin(x), Local::Builtin(y)) => x == y,
        (Local::Local { index: x, inline: p }, Local::Local { index: y, inline: q }) => x == y && same_opt(p, q),
        _ => false,
    }
}

/// `b` is a copy of the optional tree `a`.
pub open spec fn same_opt(a: Option<Box<Ast>>, b: Option<Box<Ast>>) -> bool
    decreases a, 0nat,
{
    match (a, b) {
        (Some(x), Some(y)) => same_ast(*x, *y),
        (None, None) => true,
        _ => false,
    }
}

/// `b` is a copy of the trees `a`, in order.
pub open spec fn same_asts(a: Seq<Ast>, b: Seq<Ast>) -> bool
    decreases a, 0nat,
{
    a.len() == b.len() && (a.len() > 0 ==> same_asts(a.drop_last(), b.drop_last()) && same_ast(
        a.last(),
        b.last(),
    ))
}

/// `b` is a copy of the object fields `a`, in order.
pub open spec fn same_assigns(a: Seq<(Ident, Ast)>, b: Seq<(Ident, Ast)>) -> bool
    decreases a, 0nat,
{
    a.len() == b.len() && (a.len() > 0 ==> same_assigns(a.drop_last(), b.drop_last()) && a.last().0@
        == b.last().0@ && same_ast(a.last().1, b.last().1))
}

/// `b` is a copy of the lambda `a`.
pub open spec fn same_lambda(a: AstLambda, b: AstLambda) -> bool
    decreases a, 0nat,
{
    same_params(a.params@, b.params@) && a.param_locals@ == b.param_locals@ && same_asts(a.expr@, b.expr@)
        && same_type(b.return_type, a.return_type)
}

impl Pattern {
    /// A copy of the pattern.
    pub fn copy(&self, Ghost(nl): Ghost<nat>) -> (r: Pattern)
        ensures
            pattern_ok(*self, nl) ==> pattern_ok(r, nl),
            same_pattern(*self, r),
        decreases self,
    {
        match self {
            Pattern::Local(i) => Pattern::Local(*i),
            Pattern::Array(ps) => Pattern::Array(copy_patterns(ps, Ghost(nl))),
        }
    }
}

fn copy_patterns(ps: &Vec<Pattern>, Ghost(nl): Ghost<nat>) -> (r: Vec<Pattern>)
    ensures
        patterns_ok(ps@, nl) ==> patterns_ok(r@, nl),
        same_patterns(ps@, r@),
    decreases ps,
{
    let mut r: Vec<Pattern> = Vec::new();
    let mut i: usize = 0;
    proof {
        if patterns_ok(ps@, nl) {
            lemma_patterns_each(ps@, nl);
        }
    }
    while i < ps.len()
        invariant
            i <= ps@.len(),
            patterns_ok(ps@, nl) ==> patterns_ok(r@, nl),
            patterns_ok(ps@, nl) ==> forall|j: int|
                0 <= j < ps@.len() ==> pattern_ok(#[trigger] ps@[j], nl),
            same_patterns(ps@.take(i as int), r@),
        decreases ps@.len() - i,
    {
        let p = ps[i].copy(Ghost(nl));
        assert(r@.push(p).drop_last() =~= r@);
        assert(ps@.take(i + 1).drop_last() =~= ps@.take(i as int));
        r.push(p);
        i = i + 1;
    }
    assert(ps@.take(i as int) =~= ps@);
    r
}

fn copy_params(ps: &Vec<ParamDef>, Ghost(nl): Ghost<nat>) -> (r: Vec<ParamDef>)
    ensures
        params_ok(ps@, nl) ==> params_ok(r@, nl),
        same_params(ps@, r@),
{
    let mut r: Vec<ParamDef> = Vec::new();
    let mut i: usize = 0;
    proof {
        if params_ok(ps@, nl) {
            lemma_params_each(ps@, nl);
        }
    }
    while i < ps.len()
        invariant
            i <= ps@.len(),
            params_ok(ps@, nl) ==> params_ok(r@, nl),
            params_ok(ps@, nl) ==> forall|j: int|
                0 <= j < ps@.len() ==> pattern_ok(#[trigger] ps@[j].pat, nl),
            same_params(ps@.take(i as int), r@),
        decreases ps@.len() - i,
    {
        let p = ParamDef { pat: ps[i].pat.copy(Ghost(nl)), ty: ps[i].ty.copy() };
        assert(r@.push(p).drop_last() =~= r@);
        assert(ps@.take(i + 1).drop_last() =~= ps@.take(i as int));
        r.push(p);
        i = i + 1;
    }
    assert(ps@.take(i as int) =~= ps@);
    r
}

impl Lit {
    pub fn copy(&self) -> (r: Lit)
        ensures
            match (*self, r) {
                (Lit::Int(a), Lit::Int(b)) => a == b,
                (Lit::Float(a), Lit::Float(b)) => a@ == b@,
                _ => false,
            },
    {
        match self {
            Lit::Int(v) => Lit::Int(*v),
            Lit::Float(t) => Lit::Float(t.clone()),
        }
    }
}

impl AstLambda {
    /// A copy of the lambda.
    pub fn copy(&self, Ghost(nl): Ghost<nat>, Ghost(nt): Ghost<nat>, Ghost(nu): Ghost<nat>) -> (r:
        AstLambda)
        ensures
            lambda_ok(*self, nl, nt, nu) ==> lambda_ok(r, nl, nt, nu),
            same_lambda(*self, r),
        decreases self,
    {
        let params = copy_params(&self.params, Ghost(nl));
        let mut param_locals: Vec<u32> = Vec::new();
        let mut i: usize = 0;
        while i < self.param_locals.len()
            invariant
                i <= self.param_locals@.len(),
                param_locals@ == self.param_locals@.take(i as int),
            decreases self.param_locals@.len() - i,
        {
            param_locals.push(self.param_locals[i]);
            assert(self.param_locals@.take(i + 1) =~= self.param_locals@.take(i as int).push(
                self.param_locals@[i as int],
            ));
            i = i + 1;
        }
        assert(self.param_locals@.take(i as int) =~= self.param_locals@);
        let expr = copy_asts(&self.expr, Ghost(nl), Ghost(nt), Ghost(nu));
        AstLambda { params, param_locals, expr, return_type: self.return_type.copy() }
    }
}

/// Copies of the trees in `v`, in order.
pub fn copy_asts(v: &Vec<Ast>, Ghost(nl): Ghost<nat>, Ghost(nt): Ghost<nat>, Ghost(nu): Ghost<nat>) -> (r:
    Vec<Ast>)
    ensures
        r@.len() == v@.len(),
        asts_ok(v@, nl, nt, nu) ==> asts_ok(r@, nl, nt, nu),
        same_asts(v@, r@),
    decreases v,
{
    let mut r: Vec<Ast> = Vec::new();
    let mut i: usize = 0;
    proof {
        if asts_ok(v@, nl, nt, nu) {
            lemma_asts_each(v@, nl, nt, nu);
        }
    }
    while i < v.len()
        invariant
            i <= v@.len(),
            r@.len() == i,
            asts_ok(v@, nl, nt, nu) ==> asts_ok(r@, nl, nt, nu),
            asts_ok(v@, nl, nt, nu) ==> forall|j: int|
                0 <= j < v@.len() ==> ast_ok(#[trigger] v@[j], nl, nt, nu),
            same_asts(v@.take(i as int), r@),
        decreases v@.len() - i,
    {
        let a = v[i].copy(Ghost(nl), Ghost(nt), Ghost(nu));
        assert(r@.push(a).drop_last() =~= r@);
        assert(v@.take(i + 1).drop_last() =~= v@.take(i as int));
        r.push(a);
        i = i + 1;
    }
    assert(v@.take(i as int) =~= v@);
    r
}

fn copy_assigns(
    v: &Vec<(Ident, Ast)>,
    Ghost(nl): Ghost<nat>,
    Ghost(nt): Ghost<nat>,
    Ghost(nu): Ghost<nat>,
) -> (r: Vec<(Ident, Ast)>)
    ensures
        assigns_ok(v@, nl, nt, nu) ==> assigns_ok(r@, nl, nt, nu),
        same_assigns(v@, r@),
    decreases v,
{
    let mut r: Vec<(Ident, Ast)> = Vec::new();
    let mut i: usize = 0;
    proof {
        if assigns_ok(v@, nl, nt, nu) {
            lemma_assigns_each(v@, nl, nt, nu);
        }
    }
    while i < v.len()
        invariant
            i <= v@.len(),
            assigns_ok(v@, nl, nt, nu) ==> assigns_ok(r@, nl, nt, nu),
            assigns_ok(v@, nl, nt, nu) ==> forall|j: int|
                0 <= j < v@.len() ==> ast_ok(#[trigger] v@[j].1, nl, nt, nu),
            same_assigns(v@.take(i as int), r@),
        decreases v@.len() - i,
    {
        let x = (v[i].0.clone(), v[i].1.copy(Ghost(nl), Ghost(nt), Ghost(nu)));
        assert(r@.push(x).drop_last() =~= r@);
        assert(v@.take(i + 1).drop_last() =~= v@.take(i as int));
        r.push(x);
        i = i + 1;
    }
    assert(v@.take(i as int) =~= v@);
    r
}

fn copy_opt(o: &Option<Box<Ast>>, Ghost(nl): Ghost<nat>, Ghost(nt): Ghost<nat>, Ghost(nu): Ghost<nat>) -> (r:
    Option<Box<Ast>>)
    ensures
        r is Some <==> o is Some,
        o matches Some(a) ==> (ast_ok(**a, nl, nt, nu) ==> ast_ok(*r.unwrap(), nl, nt, nu)),
        same_opt(*o, r),
    decreases o,
{
    match o {
        Some(a) => Some(Box::new(a.copy(Ghost(nl), Ghost(nt), Ghost(nu)))),
        None => None,
    }
}

impl Local {
    /// A copy of the local.
    pub fn copy(&self, Ghost(nl): Ghost<nat>, Ghost(nt): Ghost<nat>, Ghost(nu): Ghost<nat>) -> (r: Local)
        ensures
            match (*self, r) {
                (Local::ModuleRef { abs_index: a }, Local::ModuleRef { abs_index: b }) => a == b,
                (
                    Local::ModuleMember { abs_index: a, local_index: i },
                    Local::ModuleMember { abs_index: b, local_index: j },
                ) => a == b && i == j,
                (Local::Builtin(a), Local::Builtin(b)) => a == b,
                (Local::Local { index: a, inline: x }, Local::Local { index: b, inline: y }) => a
                    == b && (x is Some <==> y is Some) && (x matches Some(e) ==> (ast_ok(
                    *e,
                    nl,
                    nt,
                    nu,
                ) ==> ast_ok(*y.unwrap(), nl, nt, nu))),
                _ => false,
            },
            same_local(*self, r),
        decreases self,
    {
        match self {
            Local::ModuleRef { abs_index } => Local::ModuleRef { abs_index: *abs_index },
            Local::ModuleMember { abs_index, local_index } => Local::ModuleMember {
                abs_index: *abs_index,
                local_index: *local_index,
            },
            Local::Builtin(b) => Local::Builtin(*b),
            Local::Local { index, inline } => Local::Local {
                index: *index,
                inline: copy_opt(inline, Ghost(nl), Ghost(nt), Ghost(nu)),
            },
        }
    }
}

impl Ast {
    /// A copy of the tree.
    pub fn copy(&self, Ghost(nl): Ghost<nat>, Ghost(nt): Ghost<nat>, Ghost(nu): Ghost<nat>) -> (r: Ast)
        ensures
            ast_ok(*self, nl, nt, nu) ==> ast_ok(r, nl, nt, nu),
            same_ast(*self, r),
        decreases self,
    {
        let data = match &self.data {
            AstData::ConstLit { v } => AstData::ConstLit { v: v.copy() },
            AstData::ConstStr { v } => AstData::ConstStr { v: v.clone() },
            AstData::Ident { s } => AstData::Ident { s: s.clone() },
            AstData::Local { local } => AstData::Local { local: local.copy(Ghost(nl), Ghost(nt), Ghost(nu)) },
            AstData::App { fun, params, kind } => AstData::App {
                fun: Box::new(fun.copy(Ghost(nl), Ghost(nt), Ghost(nu))),
                params: copy_asts(params, Ghost(nl), Ghost(nt), Ghost(nu)),
                kind: *kind,
            },
            AstData::Lambda { lambda } => AstData::Lambda { lambda: lambda.copy(Ghost(nl), Ghost(nt), Ghost(nu)) },
            AstData::Block { expr } => AstData::Block { expr: copy_asts(expr, Ghost(nl), Ghost(nt), Ghost(nu)) },
            AstData::TypeDef { index } => AstData::TypeDef { index: *index },
            AstData::LetLocal { name, ty, init, local_index, attr } => AstData::LetLocal {
                name: name.clone(),
                ty: ty.copy(),
                init: copy_opt(init, Ghost(nl), Ghost(nt), Ghost(nu)),
                local_index: *local_index,
                attr: *attr,
            },
            AstData::FnLocal { name, lambda, local_index, exported } => AstData::FnLocal {
                name: name.clone(),
                lambda: lambda.copy(Ghost(nl), Ghost(nt), Ghost(nu)),
                local_index: *local_index,
                exported: *exported,
            },
            AstData::Field { base, member } => AstData::Field {
                base: Box::new(base.copy(Ghost(nl), Ghost(nt), Ghost(nu))),
                member: Box::new(member.copy(Ghost(nl), Ghost(nt), Ghost(nu))),
            },
            AstData::For { name, pat, iter, body } => AstData::For {
                name: name.clone(),
                pat: *pat,
                iter: (
                    Box::new(iter.0.copy(Ghost(nl), Ghost(nt), Ghost(nu))),
                    Box::new(iter.1.copy(Ghost(nl), Ghost(nt), Ghost(nu))),
                ),
                body: body.copy(Ghost(nl), Ghost(nt), Ghost(nu)),
            },
            AstData::Index { base, index } => AstData::Index {
                base: Box::new(base.copy(Ghost(nl), Ghost(nt), Ghost(nu))),
                index: Box::new(index.copy(Ghost(nl), Ghost(nt), Ghost(nu))),
            },
            AstData::Array { elems } => AstData::Array { elems: copy_asts(elems, Ghost(nl), Ghost(nt), Ghost(nu)) },
            AstData::If { cond, body, else_body } => AstData::If {
                cond: Box::new(cond.copy(Ghost(nl), Ghost(nt), Ghost(nu))),
                body: body.copy(Ghost(nl), Ghost(nt), Ghost(nu)),
                else_body: copy_opt(else_body, Ghost(nl), Ghost(nt), Ghost(nu)),
            },
            AstData::While { cond, body } => AstData::While {
                cond: Box::new(cond.copy(Ghost(nl), Ghost(nt), Ghost(nu))),
                body: body.copy(Ghost(nl), Ghost(nt), Ghost(nu)),
            },
            AstData::Loop { body } => AstData::Loop { body: body.copy(Ghost(nl), Ghost(nt), Ghost(nu)) },
            AstData::Break => AstData::Break,
            AstData::Return { value } => AstData::Return { value: copy_opt(value, Ghost(nl), Ghost(nt), Ghost(nu)) },
            AstData::Use { name, rel_index } => AstData::Use { name: name.clone(), rel_index: *rel_index },
            AstData::NewObject { assignments } => AstData::NewObject {
                assignments: copy_assigns(assignments, Ghost(nl), Ghost(nt), Ghost(nu)),
            },
            AstData::NewCtor { ctor, params } => AstData::NewCtor {
                ctor: Box::new(ctor.copy(Ghost(nl), Ghost(nt), Ghost(nu))),
                params: copy_asts(params, Ghost(nl), Ghost(nt), Ghost(nu)),
            },
            AstData::Void => AstData::Void,
        };
        Ast { ty: self.ty.copy(), loc: self.loc, attr: self.attr, data }
    }
}

impl LocalDef {
    /// A copy of the declaration.
    pub fn copy(&self) -> (r: LocalDef)
        ensures
            r.name@ == self.name@,
            same_type(r.ty, self.ty),
            r.is_mut == self.is_mut,
            r.const_value is Some <==> self.const_value is Some,
            r.need_qualification == self.need_qualification,
    {
        LocalDef {
            ty: self.ty.copy(),
            name: self.name.clone(),
            is_mut: self.is_mut,
            const_value: match &self.const_value {
                Some(v) => Some(v.copy()),
                None => None,
            },
            need_qualification: self.need_qualification,
        }
    }
}

impl Module {
    /// A copy of the module: same source, path, uses, declarations and
    /// exports; a well-formed module's copy is well formed.
    pub fn copy(&self) -> (r: Module)
        ensures
            module_ok(*self) ==> module_ok(r),
            r.src@ == self.src@,
            r.path@ == self.path@,
            r.uses@.len() == self.uses@.len(),
            forall|i: int| 0 <= i < self.uses@.len() ==> #[trigger] r.uses@[i].0 == self.uses@[i].0
                && r.uses@[i].1@ == self.uses@[i].1@,
            r.locals@.len() == self.locals@.len(),
            r.local_types@.len() == self.local_types@.len(),
            r.exports@ == self.exports@,
            r.language == self.language,
            same_lambda(self.lambda, r.lambda),
    {
        let ghost nl = self.locals@.len();
        let ghost nt = self.local_types@.len();
        let ghost nu = self.uses@.len();
        let lambda = self.lambda.copy(Ghost(nl), Ghost(nt), Ghost(nu));
        let mut src: Vec<u8> = Vec::new();
        let mut i: usize = 0;
        while i < self.src.len()
            invariant
                i <= self.src@.len(),
                src@ == self.src@.take(i as int),
            decreases self.src@.len() - i,
        {
            src.push(self.src[i]);
            i = i + 1;
            assert(src@ =~= self.src@.take(i as int));
        }
        assert(self.src@.take(i as int) =~= self.src@);
        let mut uses: Vec<Use> = Vec::new();
        i = 0;
        while i < self.uses.len()
            invariant
                i <= self.uses@.len(),
                uses@.len() == i,
                forall|j: int| 0 <= j < i ==> #[trigger] uses@[j].0 == self.uses@[j].0 && uses@[j].1@
                    == self.uses@[j].1@,
            decreases self.uses@.len() - i,
        {
            uses.push(Use(self.uses[i].0, self.uses[i].1.clone()));
            i = i + 1;
        }
        let mut locals: Vec<LocalDef> = Vec::new();
        i = 0;
        while i < self.locals.len()
            invariant
                i <= self.locals@.len(),
                locals@.len() == i,
                forall|j: int| 0 <= j < i ==> #[trigger] locals@[j].name@ == self.locals@[j].name@,
            decreases self.locals@.len() - i,
        {
            locals.push(self.locals[i].copy());
            i = i + 1;
        }
        let mut local_types: Vec<TypeDef> = Vec::new();
        i = 0;
        while i < self.local_types.len()
            invariant
                i <= self.local_types@.len(),
                local_types@.len() == i,
            decreases self.local_types@.len() - i,
        {
            local_types.push(TypeDef { name: self.local_types[i].name.clone(), ty: self.local_types[i].ty.copy() });
            i = i + 1;
        }
        let mut exports: Vec<u32> = Vec::new();
        i = 0;
        while i < self.exports.len()
            invariant
                i <= self.exports@.len(),
                exports@ == self.exports@.take(i as int),
            decreases self.exports@.len() - i,
        {
            exports.push(self.exports[i]);
            i = i + 1;
            assert(exports@ =~= self.exports@.take(i as int));
        }
        assert(self.exports@.take(i as int) =~= self.exports@);
        let mut exports_rev: Vec<(Ident, u32)> = Vec::new();
        i = 0;
        while i < self.exports_rev.len()
            invariant
                i <= self.exports_rev@.len(),
                exports_rev@.len() == i,
                forall|j: int| 0 <= j < i ==> #[trigger] exports_rev@[j].0@ == self.exports_rev@[j].0@
                    && exports_rev@[j].1 == self.exports_rev@[j].1,
            decreases self.exports_rev@.len() - i,
        {
            exports_rev.push((self.exports_rev[i].0.clone(), self.exports_rev[i].1));
            i = i + 1;
        }
        let r = Module {
            lambda,
            src,
            path: self.path.clone(),
            uses,
            locals,
            local_types,
            exports,
            exports_rev,
            language: self.language,
        };
        proof {
            if module_ok(*self) {
                assert forall|i: int| 0 <= i < r.exports@.len() implies #[trigger] r.exports_rev@[i].1
                    == r.exports@[i] && r.exports_rev@[i].0@ == r.locals@[r.exports@[i] as int].name@ by {
                    assert(self.exports_rev@[i].1 == self.exports@[i]);
                    assert(self.exports@[i] < self.locals@.len());
                    let e = self.exports@[i] as int;
                    assert(r.locals@[e].name@ == self.locals@[e].name@);
                    assert(r.exports_rev@[i].0@ == self.exports_rev@[i].0@);
                }
            }
        }
        r
    }
}

} // verus!
