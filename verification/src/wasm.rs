use vstd::prelude::*;

verus! {

pub const SEC_CUSTOM: u8 = 0;
pub const SEC_TYPE: u8 = 1;
pub const SEC_IMPORT: u8 = 2;
pub const SEC_FUNCTION: u8 = 3;
pub const SEC_TABLE: u8 = 4;
pub const SEC_MEMORY: u8 = 5;
pub const SEC_GLOBAL: u8 = 6;
pub const SEC_EXPORT: u8 = 7;
pub const SEC_START: u8 = 8;
pub const SEC_ELEMENT: u8 = 9;
pub const SEC_CODE: u8 = 10;
pub const SEC_DATA: u8 = 11;

/// The LEB128 encoding of an unsigned 32-bit value: seven bits per byte,
/// least significant first, the high bit set on every byte but the last.
pub open spec fn varuint_bytes(v: u32) -> Seq<u8>
    decreases v,
{
    if v < 0x80 {
        seq![v as u8]
    } else {
        seq![((v & 0x7f) | 0x80) as u8] + varuint_bytes(
            {
                proof {
                    lemma_shr7_decreases(v);
                }
                v >> 7
            },
        )
    }
}

pub proof fn lemma_shr7_decreases(v: u32)
    requires
        v >= 0x80,
    ensures
        v >> 7 < v,
{
    assert(v >= 0x80 ==> v >> 7 < v) by (bit_vector);
}

/// The value that a LEB128 decoder reads from `s`, starting with the
/// partial value `v` and the bit offset `off`: `None` when `s` ends before
/// the last byte, or when a byte after the fifth would be read.
pub open spec fn varuint_decode_from(s: Seq<u8>, v: u32, off: u32) -> Option<(u32, nat)>
    decreases s.len(),
{
    if s.len() == 0 || off >= 32 {
        None
    } else {
        let p = s[0];
        let v2 = v | (((p & 0x7f) as u32) << off);
        if p < 0x80 {
            Some((v2, 1))
        } else {
            match varuint_decode_from(s.drop_first(), v2, (off + 7) as u32) {
                Some((r, n)) => Some((r, n + 1)),
                None => None,
            }
        }
    }
}

/// The value and length of the LEB128 number at the start of `s`.
pub open spec fn varuint_decode(s: Seq<u8>) -> Option<(u32, nat)> {
    varuint_decode_from(s, 0, 0)
}

/// A decoded LEB128 number takes at least one byte and no more than remain.
pub proof fn lemma_decode_len(s: Seq<u8>, v: u32, off: u32)
    ensures
        varuint_decode_from(s, v, off) matches Some((_, n)) ==> 1 <= n <= s.len(),
    decreases s.len(),
{
    if s.len() > 0 && off < 32 {
        let p = s[0];
        let v2 = v | (((p & 0x7f) as u32) << off);
        lemma_decode_len(s.drop_first(), v2, (off + 7) as u32);
    }
}

/// The LEB128 encoding of a 32-bit value takes at most five bytes.
pub proof fn lemma_varuint_len(v: u32)
    ensures
        1 <= varuint_bytes(v).len() <= 5,
{
    assert(v >> 7 <= 0x1ffffff) by (bit_vector);
    let v1 = v >> 7;
    assert(v1 <= 0x1ffffff ==> v1 >> 7 <= 0x3ffff) by (bit_vector);
    let v2 = v1 >> 7;
    assert(v2 <= 0x3ffff ==> v2 >> 7 <= 0x7ff) by (bit_vector);
    let v3 = v2 >> 7;
    assert(v3 <= 0x7ff ==> v3 >> 7 <= 0xf) by (bit_vector);
    let v4 = v3 >> 7;
    reveal_with_fuel(varuint_bytes, 6);
    if v >= 0x80 {
        if v1 >= 0x80 {
            if v2 >= 0x80 {
                if v3 >= 0x80 {
                    assert(varuint_bytes(v4).len() == 1);
                }
            }
        }
    }
}

/// The number of bytes in the LEB128 encoding of `v`.
pub fn varuint32_len(v: u32) -> (r: usize)
    ensures
        r == varuint_bytes(v).len(),
{
    let ghost v0 = v;
    proof {
        lemma_varuint_len(v);
    }
    let mut v = v;
    let mut len: usize = 0;
    loop
        invariant_except_break
            varuint_bytes(v0).len() == len + varuint_bytes(v).len(),
            varuint_bytes(v0).len() <= 5,
        ensures
            len == varuint_bytes(v0).len(),
        decreases v,
    {
        let more = v >= 0x80;
        len = len + 1;
        if more {
            proof {
                lemma_shr7_decreases(v);
            }
        }
        v = v >> 7;
        if !more {
            break ;
        }
    }
    len
}

/// Appends the LEB128 encoding of `v` to `buf`.
pub fn put_varuint32(buf: &mut Vec<u8>, v: u32)
    ensures
        final(buf)@ == old(buf)@ + varuint_bytes(v),
    decreases v,
{
    let piece = v & 0x7f;
    let more = v >= 0x80;
    proof {
        assert(piece <= 0x7f) by (bit_vector)
            requires
                piece == v & 0x7f,
        ;
        assert(v < 0x80 ==> v & 0x7f == v) by (bit_vector);
        assert((v & 0x7f) | 0x80 == (v & 0x7f) + 0x80) by (bit_vector);
    }
    let byte = (piece as u8) + (if more { 0x80u8 } else { 0x00u8 });
    buf.push(byte);
    if more {
        proof {
            lemma_shr7_decreases(v);
        }
        put_varuint32(buf, v >> 7);
    }
    assert(buf@ =~= old(buf)@ + varuint_bytes(v));
}

/// Reads the LEB128 number at `pos` and returns it with the position after it.
pub fn get_varuint32(data: &[u8], pos: usize) -> (r: (u32, usize))
    requires
        pos <= data@.len(),
        varuint_decode(data@.skip(pos as int)) is Some,
    ensures
        r.0 == varuint_decode(data@.skip(pos as int)).unwrap().0,
        r.1 == pos + varuint_decode(data@.skip(pos as int)).unwrap().1,
{
    let mut v: u32 = 0;
    let mut offset: u32 = 0;
    let mut i = pos;
    loop
        invariant_except_break
            pos <= i <= data@.len(),
            offset < 32,
            varuint_decode_from(data@.skip(i as int), v, offset) is Some,
            varuint_decode_from(data@.skip(i as int), v, offset).unwrap().0 == varuint_decode(
                data@.skip(pos as int),
            ).unwrap().0,
            varuint_decode_from(data@.skip(i as int), v, offset).unwrap().1 + (i - pos)
                == varuint_decode(data@.skip(pos as int)).unwrap().1,
        ensures
            v == varuint_decode(data@.skip(pos as int)).unwrap().0,
            i == pos + varuint_decode(data@.skip(pos as int)).unwrap().1,
        decreases data@.len() - i,
    {
        let piece = data[i];
        assert(data@.skip(i as int)[0] == piece);
        v = v | (((piece & 0x7f) as u32) << offset);
        i = i + 1;
        if piece < 0x80 {
            break ;
        }
        assert(data@.skip(i - 1).drop_first() =~= data@.skip(i as int));
        offset = offset + 7;
    }
    (v, i)
}

/// A section of a WebAssembly module: its id, its name (custom sections
/// only) and its payload.
pub struct Section {
    pub name: Vec<u8>,
    pub data: Vec<u8>,
    pub id: u8,
}

/// The payload length written for a section: for a custom section the
/// name with its length prefix counts too.
pub open spec fn section_payload_len(id: u8, name: Seq<u8>, data: Seq<u8>) -> nat {
    if id == 0 {
        data.len() + varuint_bytes(name.len() as u32).len() + name.len()
    } else {
        data.len()
    }
}

/// The bytes of a section: its id, the LEB128 payload length (truncated to
/// 32 bits), for a custom section the LEB128 name length and the name, and
/// the payload.
pub open spec fn section_bytes(id: u8, name: Seq<u8>, data: Seq<u8>) -> Seq<u8> {
    seq![id] + varuint_bytes(section_payload_len(id, name, data) as u32) + (if id == 0 {
        varuint_bytes(name.len() as u32) + name
    } else {
        Seq::empty()
    }) + data
}

impl Section {
    /// Appends the section's bytes to `buf`.
    pub fn write(&self, buf: &mut Vec<u8>)
        requires
            section_payload_len(self.id, self.name@, self.data@) <= usize::MAX,
        ensures
            final(buf)@ == old(buf)@ + section_bytes(self.id, self.name@, self.data@),
    {
        let payload_len = if self.id == 0 {
            self.data.len() + varuint32_len(self.name.len() as u32) + self.name.len()
        } else {
            self.data.len()
        };
        buf.push(self.id);
        put_varuint32(buf, payload_len as u32);
        if self.id == 0 {
            put_varuint32(buf, self.name.len() as u32);
            buf.extend_from_slice(self.name.as_slice());
        }
        buf.extend_from_slice(self.data.as_slice());
        assert(buf@ =~= old(buf)@ + section_bytes(self.id, self.name@, self.data@));
    }
}

/// The model of a section: (id, name, data).
pub type SectionModel = (u8, Seq<u8>, Seq<u8>);

/// The sections read from `s` until it ends, or `None` when `s` is not a
/// well-formed sequence of sections.
pub open spec fn parse_sections(s: Seq<u8>) -> Option<Seq<SectionModel>>
    decreases s.len(),
{
    if s.len() == 0 {
        Some(Seq::empty())
    } else {
        let id = s[0];
        let s1 = s.skip(1);
        proof {
            lemma_decode_len(s1, 0, 0);
        }
        match varuint_decode(s1) {
            None => None,
            Some((pl, n1)) => {
                let s2 = s1.skip(n1 as int);
                if id == 0 {
                    proof {
                        lemma_decode_len(s2, 0, 0);
                    }
                    match varuint_decode(s2) {
                        None => None,
                        Some((nl, n2)) => {
                            let s3 = s2.skip(n2 as int);
                            if nl > s3.len() || n2 + nl > pl {
                                None
                            } else {
                                let name = s3.take(nl as int);
                                let s4 = s3.skip(nl as int);
                                let dl = (pl - n2 - nl) as nat;
                                if dl > s4.len() {
                                    None
                                } else {
                                    match parse_sections(s4.skip(dl as int)) {
                                        Some(rest) => Some(seq![(id, name, s4.take(dl as int))] + rest),
                                        None => None,
                                    }
                                }
                            }
                        },
                    }
                } else {
                    if pl > s2.len() {
                        None
                    } else {
                        match parse_sections(s2.skip(pl as int)) {
                            Some(rest) => Some(seq![(id, Seq::empty(), s2.take(pl as int))] + rest),
                            None => None,
                        }
                    }
                }
            },
        }
    }
}

/// The little-endian 32-bit value of the four bytes at the start of `s`.
pub open spec fn u32_le(s: Seq<u8>) -> u32 {
    (s[0] as u32) | ((s[1] as u32) << 8) | ((s[2] as u32) << 16) | ((s[3] as u32) << 24)
}

/// A WebAssembly module split into its header and its sections.
pub struct Reader {
    pub magic: u32,
    pub version: u32,
    pub sections: Vec<Section>,
}

impl Reader {
    /// Splits a WebAssembly module into its header fields and its sections.
    pub fn from(data: &[u8]) -> (r: Reader)
        requires
            data@.len() >= 8,
            parse_sections(data@.skip(8)) is Some,
        ensures
            r.magic == u32_le(data@),
            r.version == u32_le(data@.skip(4)),
            r.sections@.len() == parse_sections(data@.skip(8)).unwrap().len(),
            forall|i: int|
                #![trigger r.sections@[i]]
                0 <= i < r.sections@.len() ==> {
                    let m = parse_sections(data@.skip(8)).unwrap()[i];
                    &&& r.sections@[i].id == m.0
                    &&& r.sections@[i].name@ == m.1
                    &&& r.sections@[i].data@ == m.2
                },
    {
        let magic = read_u32_le(data, 0);
        let version = read_u32_le(data, 4);
        assert(data@.skip(4).take(4) =~= data@.subrange(4, 8));
        let mut sections: Vec<Section> = Vec::new();
        let mut pos: usize = 8;
        let ghost all = parse_sections(data@.skip(8)).unwrap();
        while pos < data.len()
            invariant
                8 <= pos <= data@.len(),
                parse_sections(data@.skip(pos as int)) is Some,
                all == sections_models(sections@) + parse_sections(data@.skip(pos as int)).unwrap(),
            decreases data@.len() - pos,
        {
            let ghost s = data@.skip(pos as int);
            let id = data[pos];
            assert(s[0] == id);
            let ghost s1 = s.skip(1);
            assert(s1 =~= data@.skip(pos + 1));
            proof {
                lemma_decode_len(s1, 0, 0);
            }
            let (payload, p1) = get_varuint32(data, pos + 1);
            let ghost n1 = (p1 - pos - 1) as nat;
            let ghost s2 = s1.skip(n1 as int);
            assert(s2 =~= data@.skip(p1 as int));
            let mut payload_len = payload as usize;
            let name;
            let mut p = p1;
            if id == 0 {
                proof {
                    lemma_decode_len(s2, 0, 0);
                }
                let (name_len32, p2) = get_varuint32(data, p1);
                let name_len = name_len32 as usize;
                let ghost n2 = (p2 - p1) as nat;
                let ghost s3 = s2.skip(n2 as int);
                assert(s3 =~= data@.skip(p2 as int));
                name = copy_range(data, p2, name_len);
                assert(s3.take(name_len as int) =~= name@);
                let consumed = (p2 - p1) + name_len;
                payload_len = payload_len - consumed;
                p = p2 + name_len;
                assert(s3.skip(name_len as int) =~= data@.skip(p as int));
            } else {
                name = Vec::new();
            }
            let d = copy_range(data, p, payload_len);
            assert(data@.skip(p as int).take(payload_len as int) =~= d@);
            assert(data@.skip(p as int).skip(payload_len as int) =~= data@.skip(p + payload_len));
            let ghost pre = sections@;
            let ghost rest = parse_sections(data@.skip(p + payload_len)).unwrap();
            assert(parse_sections(s).unwrap() =~= seq![(id, name@, d@)] + rest);
            sections.push(Section { name, data: d, id });
            proof {
                lemma_sections_models_push(pre, sections@.last());
                assert(sections_models(sections@) + rest =~= sections_models(pre) + (seq![
                    (id, sections@.last().name@, sections@.last().data@),
                ] + rest));
            }
            pos = p + payload_len;
        }
        assert(data@.skip(pos as int) =~= Seq::<u8>::empty());
        assert(all =~= sections_models(sections@));
        proof {
            lemma_sections_models(sections@);
        }
        Reader { magic, version, sections }
    }

    /// The script and stripped module of a bundle: both currently empty.
    pub fn bundle(&self) -> (r: (String, Vec<u8>))
        ensures
            r.0@.len() == 0,
            r.1@.len() == 0,
    {
        (String::new(), Vec::new())
    }
}

/// The models of `secs`.
pub open spec fn sections_models(secs: Seq<Section>) -> Seq<SectionModel>
    decreases secs.len(),
{
    if secs.len() == 0 {
        Seq::empty()
    } else {
        sections_models(secs.drop_last()).push(
            (secs.last().id, secs.last().name@, secs.last().data@),
        )
    }
}

proof fn lemma_sections_models_push(secs: Seq<Section>, s: Section)
    ensures
        sections_models(secs.push(s)) == sections_models(secs).push((s.id, s.name@, s.data@)),
{
    assert(secs.push(s).drop_last() =~= secs);
}

proof fn lemma_sections_models(secs: Seq<Section>)
    ensures
        sections_models(secs).len() == secs.len(),
        forall|i: int|
            0 <= i < secs.len() ==> #[trigger] sections_models(secs)[i] == (
                secs[i].id,
                secs[i].name@,
                secs[i].data@,
            ),
    decreases secs.len(),
{
    if secs.len() > 0 {
        lemma_sections_models(secs.drop_last());
    }
}

/// The little-endian 32-bit value of the four bytes at `pos`.
fn read_u32_le(data: &[u8], pos: usize) -> (r: u32)
    requires
        pos + 4 <= data@.len(),
    ensures
        r == u32_le(data@.skip(pos as int)),
{
    (data[pos] as u32) | ((data[pos + 1] as u32) << 8) | ((data[pos + 2] as u32) << 16) | ((data[pos
        + 3] as u32) << 24)
}

/// A copy of the `len` bytes at `pos`.
fn copy_range(data: &[u8], pos: usize, len: usize) -> (r: Vec<u8>)
    requires
        pos + len <= data@.len(),
    ensures
        r@ == data@.subrange(pos as int, pos + len),
{
    let mut r: Vec<u8> = Vec::new();
    let mut i: usize = 0;
    while i < len
        invariant
            i <= len,
            pos + len <= data.len(),
            r@ == data@.subrange(pos as int, pos + i),
        decreases len - i,
    {
        r.push(data[pos + i]);
        i = i + 1;
        assert(r@ =~= data@.subrange(pos as int, pos + i));
    }
    r
}

proof fn lemma_decode_encode(w: u32, v: u32, off: u32, rest: Seq<u8>)
    requires
        off % 7 == 0,
        off <= 28,
        (w << off) >> off == w,
        v < (1u32 << off),
    ensures
        varuint_decode_from(varuint_bytes(w) + rest, v, off) == Some(
            (v | (w << off), varuint_bytes(w).len()),
        ),
    decreases w,
{
    let s = varuint_bytes(w) + rest;
    if w < 0x80 {
        let p = w as u8;
        assert(s[0] == p);
        assert(w < 0x80 ==> ((w as u8) & 0x7f) as u32 == w) by (bit_vector);
    } else {
        let p = ((w & 0x7f) | 0x80) as u8;
        assert(s[0] == p);
        assert(w >= 0x80 ==> ((((w & 0x7f) | 0x80) as u8) >= 0x80 && ((((w & 0x7f) | 0x80) as u8)
            & 0x7f) as u32 == w & 0x7f)) by (bit_vector);
        assert(off <= 28 && (w << off) >> off == w && w >= 0x80 ==> off < 28) by (bit_vector);
        assert(off % 7 == 0 && off < 28 ==> off <= 21);
        let v2 = v | ((w & 0x7f) << off);
        assert(off <= 21 && v < (1u32 << off) ==> v | ((w & 0x7f) << off) < (1u32 << (
        off + 7) as u32)) by (bit_vector);
        assert(off <= 21 && (w << off) >> off == w ==> ((w >> 7) << (off + 7) as u32) >> (off
            + 7) as u32 == w >> 7) by (bit_vector);
        assert(off <= 21 && v < (1u32 << off) ==> (v | ((w & 0x7f) << off)) | ((w >> 7) << (off
            + 7) as u32) == v | (w << off)) by (bit_vector);
        lemma_shr7_decreases(w);
        assert(s.drop_first() =~= varuint_bytes(w >> 7) + rest);
        lemma_decode_encode(w >> 7, v2, (off + 7) as u32, rest);
    }
}

/// Decoding the LEB128 encoding of a value gives back the value and the
/// encoding's length, whatever follows it.
pub proof fn law_varuint_roundtrip(v: u32, rest: Seq<u8>)
    ensures
        varuint_decode(varuint_bytes(v) + rest) == Some((v, varuint_bytes(v).len())),
{
    assert((v << 0u32) >> 0u32 == v) by (bit_vector);
    assert(0u32 < (1u32 << 0u32)) by (bit_vector);
    lemma_decode_encode(v, 0, 0, rest);
    assert(0u32 | (v << 0u32) == v) by (bit_vector);
}

/// The bytes of a list of sections, one after the other.
pub open spec fn sections_bytes(secs: Seq<SectionModel>) -> Seq<u8>
    decreases secs.len(),
{
    if secs.len() == 0 {
        Seq::empty()
    } else {
        section_bytes(secs[0].0, secs[0].1, secs[0].2) + sections_bytes(secs.drop_first())
    }
}

/// A section model that writing can represent: its lengths fit in 32 bits
/// and only a custom section has a name.
pub open spec fn section_writable(sec: SectionModel) -> bool {
    &&& section_payload_len(sec.0, sec.1, sec.2) <= u32::MAX
    &&& sec.1.len() <= u32::MAX
    &&& (sec.0 != 0 ==> sec.1.len() == 0)
}

/// Reading the bytes of a written section gives back the section, followed
/// by whatever the rest of the bytes hold.
pub proof fn law_section_roundtrip(id: u8, name: Seq<u8>, data: Seq<u8>, rest: Seq<u8>)
    requires
        section_writable((id, name, data)),
        parse_sections(rest) is Some,
    ensures
        parse_sections(section_bytes(id, name, data) + rest) == Some(
            seq![(id, name, data)] + parse_sections(rest).unwrap(),
        ),
{
    let pl = section_payload_len(id, name, data);
    let b = section_bytes(id, name, data) + rest;
    let s1 = b.skip(1);
    let tail = (if id == 0 {
        varuint_bytes(name.len() as u32) + name
    } else {
        Seq::empty()
    }) + data + rest;
    assert(s1 =~= varuint_bytes(pl as u32) + tail);
    law_varuint_roundtrip(pl as u32, tail);
    let n1 = varuint_bytes(pl as u32).len();
    let s2 = s1.skip(n1 as int);
    assert(s2 =~= tail);
    if id == 0 {
        let tail2 = name + data + rest;
        assert(s2 =~= varuint_bytes(name.len() as u32) + tail2);
        law_varuint_roundtrip(name.len() as u32, tail2);
        let n2 = varuint_bytes(name.len() as u32).len();
        let s3 = s2.skip(n2 as int);
        assert(s3 =~= tail2);
        assert(s3.take(name.len() as int) =~= name);
        let s4 = s3.skip(name.len() as int);
        assert(s4 =~= data + rest);
        assert(s4.take(data.len() as int) =~= data);
        assert(s4.skip(data.len() as int) =~= rest);
    } else {
        assert(s2.take(data.len() as int) =~= data);
        assert(s2.skip(data.len() as int) =~= rest);
        assert(name =~= Seq::<u8>::empty());
    }
}

/// Reading the bytes of written sections gives back the sections.
pub proof fn law_sections_roundtrip(secs: Seq<SectionModel>)
    requires
        forall|i: int| 0 <= i < secs.len() ==> section_writable(#[trigger] secs[i]),
    ensures
        parse_sections(sections_bytes(secs)) == Some(secs),
    decreases secs.len(),
{
    if secs.len() == 0 {
        assert(sections_bytes(secs) =~= Seq::<u8>::empty());
    } else {
        let rest = secs.drop_first();
        assert forall|i: int| 0 <= i < rest.len() implies section_writable(#[trigger] rest[i]) by {
            assert(rest[i] == secs[i + 1]);
        }
        law_sections_roundtrip(rest);
        assert(section_writable(secs[0]));
        law_section_roundtrip(secs[0].0, secs[0].1, secs[0].2, sections_bytes(rest));
        assert(seq![secs[0]] + rest =~= secs);
    }
}

} // verus!
