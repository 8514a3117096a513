//! Constant definitions and the constant table.
use vstd::prelude::*;

use crate::decode::{
    agree, be16, be32, be64, copy_bytes, enc16, enc32, fits, lemma_agree_reads, lemma_agree_sub,
    lemma_agree_window, lemma_be16, lemma_be32, read_u16, read_u32, read_u64, write_bytes,
    write_u16, write_u32,
};
use crate::error::{in_table, in_table_err, viewed, ExecutableFormatError};
use crate::types::{
    encode_operand, natural_width, natural_width_of, operand_at, operand_width, operand_width_of,
    read_operand, type_id, valid_type_id, write_operand, ConstantIndex, Type, TypeFlags,
};

verus! {

broadcast use vstd::seq_lib::group_seq_properties;

/// The value that ends a constant table.
pub const CONSTANT_TABLE_TERMINATOR: u16 = 0xF00F;

/// What a constant definition holds.
pub struct ConstantDefView {
    pub type_flags: u8,
    pub type_operand: Option<u16>,
    pub data_len: u32,
    pub data: Seq<u8>,
    pub len: nat,
}

/// What a constant table holds: its constants, and its length in bytes with
/// the terminator.
pub struct ConstantTableView {
    pub constants: Seq<ConstantDefView>,
    pub len: nat,
}

/// The value of a constant, by its type. Integers and floats keep their bits.
#[derive(Debug, PartialEq, Eq)]
pub enum ConstantValue {
    I8(u8),
    I16(u16),
    I32(u32),
    I64(u64),
    F32(u32),
    F64(u64),
    ObjectRef(ConstantIndex),
    ArrayPayload(u8, Vec<u8>),
}

/// What a constant value is.
pub enum ConstantValueView {
    I8(u8),
    I16(u16),
    I32(u32),
    I64(u64),
    F32(u32),
    F64(u64),
    ObjectRef(ConstantIndex),
    ArrayPayload(u8, Seq<u8>),
}

impl View for ConstantValue {
    type V = ConstantValueView;

    open spec fn view(&self) -> ConstantValueView {
        match self {
            ConstantValue::I8(v) => ConstantValueView::I8(*v),
            ConstantValue::I16(v) => ConstantValueView::I16(*v),
            ConstantValue::I32(v) => ConstantValueView::I32(*v),
            ConstantValue::I64(v) => ConstantValueView::I64(*v),
            ConstantValue::F32(v) => ConstantValueView::F32(*v),
            ConstantValue::F64(v) => ConstantValueView::F64(*v),
            ConstantValue::ObjectRef(v) => ConstantValueView::ObjectRef(*v),
            ConstantValue::ArrayPayload(t, b) => ConstantValueView::ArrayPayload(*t, b@),
        }
    }
}

/// The constant definition at `p`:
/// `type_flags:u8, [operand], data_len:u32, payload:bytes[data_len]`.
pub open spec fn parse_constant_def(s: Seq<u8>, p: int) -> Result<
    ConstantDefView,
    ExecutableFormatError,
> {
    if !fits(s, p, 1) {
        Err(ExecutableFormatError::Truncated)
    } else {
        let flags = s[p];
        let id = type_id(flags);
        let q = p + 1 + operand_width(id);
        if !valid_type_id(id) {
            Err(ExecutableFormatError::IllegalTypeId(id))
        } else if !fits(s, p + 1, operand_width(id) as int) || !fits(s, q, 4) {
            Err(ExecutableFormatError::Truncated)
        } else if natural_width(id) is Some && natural_width(id)->0 != be32(s, q) {
            Err(ExecutableFormatError::BadPayloadLen)
        } else if !fits(s, q + 4, be32(s, q) as int) {
            Err(ExecutableFormatError::Truncated)
        } else {
            Ok(
                ConstantDefView {
                    type_flags: flags,
                    type_operand: operand_at(s, p + 1, id),
                    data_len: be32(s, q),
                    data: s.subrange(q + 4, q + 4 + be32(s, q)),
                    len: (5 + operand_width(id) + be32(s, q)) as nat,
                },
            )
        }
    }
}

/// What every parsed constant satisfies: a known type, the operand its type
/// asks for, a payload of its stated length (the natural width for numbers).
pub open spec fn wf_constant(c: ConstantDefView) -> bool {
    let id = type_id(c.type_flags);
    &&& valid_type_id(id)
    &&& (c.type_operand is Some <==> operand_width(id) > 0)
    &&& (operand_width(id) == 1 ==> c.type_operand->0 < 256)
    &&& c.data.len() == c.data_len
    &&& (natural_width(id) is Some ==> natural_width(id)->0 == c.data_len)
    &&& c.len == 5 + operand_width(id) + c.data_len
}

/// The value a well-formed constant holds.
pub open spec fn value_of(c: ConstantDefView) -> ConstantValueView {
    let id = type_id(c.type_flags);
    if id == 0 {
        ConstantValueView::I8(c.data[0])
    } else if id == 1 {
        ConstantValueView::I16(be16(c.data, 0))
    } else if id == 2 {
        ConstantValueView::I32(be32(c.data, 0))
    } else if id == 3 {
        ConstantValueView::I64(be64(c.data, 0))
    } else if id == 4 {
        ConstantValueView::F32(be32(c.data, 0))
    } else if id == 5 {
        ConstantValueView::F64(be64(c.data, 0))
    } else if id == 6 {
        ConstantValueView::ObjectRef(c.type_operand->0)
    } else {
        ConstantValueView::ArrayPayload(c.type_operand->0 as u8, c.data)
    }
}

/// A parsed constant definition is well formed, lies inside the bytes and is
/// not empty.
pub proof fn lemma_constant_def_len(s: Seq<u8>, p: int)
    requires
        parse_constant_def(s, p) is Ok,
    ensures
        parse_constant_def(s, p)->Ok_0.len > 0,
        fits(s, p, parse_constant_def(s, p)->Ok_0.len as int),
        wf_constant(parse_constant_def(s, p)->Ok_0),
{
}

/// The constant table at `p`: constant definitions up to the terminator
/// `0xF00F`.
pub open spec fn parse_constant_table(s: Seq<u8>, p: int) -> Result<
    ConstantTableView,
    ExecutableFormatError,
>
    decreases s.len() - p,
{
    if !fits(s, p, 2) {
        Err(ExecutableFormatError::MissingTerminator)
    } else if be16(s, p) == CONSTANT_TABLE_TERMINATOR {
        Ok(ConstantTableView { constants: Seq::empty(), len: 2 })
    } else {
        match parse_constant_def(s, p) {
            Err(e) => Err(in_table(e)),
            Ok(c) => {
                proof {
                    lemma_constant_def_len(s, p);
                }
                match parse_constant_table(s, p + c.len) {
                    Err(e) => Err(e),
                    Ok(t) => Ok(
                        ConstantTableView { constants: seq![c] + t.constants, len: c.len + t.len },
                    ),
                }
            },
        }
    }
}

/// The bytes of a constant definition.
pub open spec fn encode_constant_def(c: ConstantDefView) -> Seq<u8> {
    seq![c.type_flags] + encode_operand(type_id(c.type_flags), c.type_operand) + enc32(c.data_len)
        + c.data
}

/// The bytes of a run of constant definitions.
pub open spec fn encode_constant_defs(cs: Seq<ConstantDefView>) -> Seq<u8>
    decreases cs.len(),
{
    if cs.len() == 0 {
        Seq::empty()
    } else {
        encode_constant_defs(cs.drop_last()) + encode_constant_def(cs.last())
    }
}

/// The bytes of a constant table.
pub open spec fn encode_constant_table(t: ConstantTableView) -> Seq<u8> {
    encode_constant_defs(t.constants) + enc16(CONSTANT_TABLE_TERMINATOR)
}

/// The bytes of a run that starts with `c`.
pub proof fn lemma_constant_defs_cons(c: ConstantDefView, rest: Seq<ConstantDefView>)
    ensures
        encode_constant_defs(seq![c] + rest) == encode_constant_def(c) + encode_constant_defs(rest),
    decreases rest.len(),
{
    if rest.len() == 0 {
        assert((seq![c] + rest).drop_last() =~= Seq::<ConstantDefView>::empty());
        assert(encode_constant_defs(seq![c] + rest) =~= encode_constant_def(c)
            + encode_constant_defs(rest));
    } else {
        assert((seq![c] + rest).drop_last() =~= seq![c] + rest.drop_last());
        lemma_constant_defs_cons(c, rest.drop_last());
        assert(encode_constant_defs(seq![c] + rest) =~= encode_constant_def(c)
            + encode_constant_defs(rest));
    }
}

/// A constant definition.
#[derive(Debug)]
pub struct ConstantDef {
    type_flags: TypeFlags,
    type_operand: Option<u16>,
    data_len: u32,
    data: Vec<u8>,
    len: usize,
}

/// A constant table.
#[derive(Debug)]
pub struct ConstantTable {
    constants: Vec<ConstantDef>,
    len: usize,
}

impl View for ConstantDef {
    type V = ConstantDefView;

    closed spec fn view(&self) -> ConstantDefView {
        ConstantDefView {
            type_flags: self.type_flags,
            type_operand: self.type_operand,
            data_len: self.data_len,
            data: self.data@,
            len: self.len as nat,
        }
    }
}

impl View for ConstantTable {
    type V = ConstantTableView;

    closed spec fn view(&self) -> ConstantTableView {
        ConstantTableView {
            constants: self.constants@.map_values(|c: ConstantDef| c@),
            len: self.len as nat,
        }
    }
}

impl ConstantDef {
    #[verifier::type_invariant]
    spec fn inv(&self) -> bool {
        wf_constant(self@)
    }

    /// Parses the constant definition at `start`.
    pub fn parse(bytes: &[u8], start: usize) -> (r: Result<ConstantDef, ExecutableFormatError>)
        ensures
            viewed(r) == parse_constant_def(bytes@, start as int),
    {
        if start >= bytes.len() {
            return Err(ExecutableFormatError::Truncated);
        }
        let type_flags = bytes[start];
        let id = type_flags % 16;
        if Type::from_flags(type_flags).is_none() {
            return Err(ExecutableFormatError::IllegalTypeId(id));
        }
        let type_operand = match read_operand(bytes, start + 1, id) {
            Some(op) => op,
            None => return Err(ExecutableFormatError::Truncated),
        };
        let q = start + 1 + operand_width_of(id);
        let data_len = match read_u32(bytes, q) {
            Some(v) => v,
            None => return Err(ExecutableFormatError::Truncated),
        };
        match natural_width_of(id) {
            Some(w) => {
                if w != data_len {
                    return Err(ExecutableFormatError::BadPayloadLen);
                }
            },
            None => {},
        }
        if ((bytes.len() - (q + 4)) as u64) < (data_len as u64) {
            return Err(ExecutableFormatError::Truncated);
        }
        let data = copy_bytes(bytes, q + 4, data_len as usize);
        let len = q + 4 + data_len as usize - start;
        Ok(ConstantDef { type_flags, type_operand, data_len, data, len })
    }

    /// The constant's type byte.
    pub fn type_flags(&self) -> (r: TypeFlags)
        ensures
            r == self@.type_flags,
    {
        self.type_flags
    }

    /// The constant's type operand, if its type has one.
    pub fn type_operand(&self) -> (r: Option<u16>)
        ensures
            r == self@.type_operand,
    {
        self.type_operand
    }

    /// The length of the payload in bytes.
    pub fn data_len(&self) -> (r: u32)
        ensures
            r == self@.data_len,
    {
        self.data_len
    }

    /// The value the constant holds.
    pub fn val(&self) -> (r: ConstantValue)
        ensures
            r@ == value_of(self@),
    {
        proof {
            use_type_invariant(self);
        }
        let d = self.data.as_slice();
        let id = self.type_flags % 16;
        if id == 0 {
            ConstantValue::I8(d[0])
        } else if id == 1 {
            ConstantValue::I16(read_u16(d, 0).unwrap())
        } else if id == 2 {
            ConstantValue::I32(read_u32(d, 0).unwrap())
        } else if id == 3 {
            ConstantValue::I64(read_u64(d, 0).unwrap())
        } else if id == 4 {
            ConstantValue::F32(read_u32(d, 0).unwrap())
        } else if id == 5 {
            ConstantValue::F64(read_u64(d, 0).unwrap())
        } else if id == 6 {
            ConstantValue::ObjectRef(self.type_operand.unwrap())
        } else {
            ConstantValue::ArrayPayload(self.type_operand.unwrap() as u8, copy_bytes(d, 0, d.len()))
        }
    }

    /// The payload bytes.
    pub fn val_raw(&self) -> (r: &[u8])
        ensures
            r@ == self@.data,
    {
        self.data.as_slice()
    }

    /// The length of the encoded definition in bytes.
    pub fn len(&self) -> (r: usize)
        ensures
            r == self@.len,
    {
        self.len
    }

    /// Appends the bytes of this definition.
    pub fn emit(&self, out: &mut Vec<u8>)
        ensures
            final(out)@ == old(out)@ + encode_constant_def(self@),
    {
        out.push(self.type_flags);
        write_operand(out, self.type_flags % 16, self.type_operand);
        write_u32(out, self.data_len);
        write_bytes(out, self.data.as_slice());
        assert(out@ =~= old(out)@ + encode_constant_def(self@));
    }
}

impl ConstantTable {
    /// Parses the constant table at `start`.
    pub fn parse(bytes: &[u8], start: usize) -> (r: Result<ConstantTable, ExecutableFormatError>)
        ensures
            viewed(r) == parse_constant_table(bytes@, start as int),
    {
        let mut constants: Vec<ConstantDef> = Vec::new();
        let mut p: usize = start;
        loop
            invariant
                start <= p,
                match parse_constant_table(bytes@, p as int) {
                    Ok(t) => parse_constant_table(bytes@, start as int) == Ok::<
                        ConstantTableView,
                        ExecutableFormatError,
                    >(
                        ConstantTableView {
                            constants: constants@.map_values(|c: ConstantDef| c@) + t.constants,
                            len: ((p - start) + t.len) as nat,
                        },
                    ),
                    Err(e) => parse_constant_table(bytes@, start as int) == Err::<
                        ConstantTableView,
                        ExecutableFormatError,
                    >(e),
                },
            decreases bytes.len() - p,
        {
            let ghost cv = constants@.map_values(|c: ConstantDef| c@);
            match read_u16(bytes, p) {
                None => return Err(ExecutableFormatError::MissingTerminator),
                Some(t) => {
                    if t == CONSTANT_TABLE_TERMINATOR {
                        let r = ConstantTable { constants, len: p - start + 2 };
                        assert(cv + Seq::<ConstantDefView>::empty() =~= cv);
                        return Ok(r);
                    }
                },
            }
            match ConstantDef::parse(bytes, p) {
                Err(e) => return Err(in_table_err(e)),
                Ok(c) => {
                    proof {
                        lemma_constant_def_len(bytes@, p as int);
                    }
                    let l = c.len;
                    constants.push(c);
                    proof {
                        let t = parse_constant_table(bytes@, p + l);
                        if t is Ok {
                            assert(constants@.map_values(|c: ConstantDef| c@) + t->Ok_0.constants
                                =~= cv + (seq![c@] + t->Ok_0.constants));
                        }
                    }
                    p = p + l;
                },
            }
        }
    }

    /// The table's constants, in order.
    pub fn constants(&self) -> (r: &Vec<ConstantDef>)
        ensures
            r@.map_values(|c: ConstantDef| c@) == self@.constants,
    {
        &self.constants
    }

    /// The length of the encoded table in bytes, terminator included.
    pub fn len(&self) -> (r: usize)
        ensures
            r == self@.len,
    {
        self.len
    }

    /// The bytes of this table.
    pub fn emit(&self) -> (r: Vec<u8>)
        ensures
            r@ == encode_constant_table(self@),
    {
        let mut out: Vec<u8> = Vec::new();
        let ghost cv = self.constants@.map_values(|c: ConstantDef| c@);
        let mut i: usize = 0;
        while i < self.constants.len()
            invariant
                i <= self.constants.len(),
                cv == self.constants@.map_values(|c: ConstantDef| c@),
                out@ == encode_constant_defs(cv.take(i as int)),
            decreases self.constants.len() - i,
        {
            self.constants[i].emit(&mut out);
            proof {
                assert(cv[i as int] == self.constants@[i as int]@);
                assert(cv.take(i + 1).drop_last() =~= cv.take(i as int));
            }
            i = i + 1;
        }
        write_u16(&mut out, CONSTANT_TABLE_TERMINATOR);
        assert(cv.take(i as int) =~= cv);
        out
    }
}

/// The bytes of a parsed constant definition are the bytes it was parsed from.
pub proof fn lemma_constant_def_bytes(s: Seq<u8>, p: int)
    requires
        parse_constant_def(s, p) is Ok,
    ensures
        encode_constant_def(parse_constant_def(s, p)->Ok_0) == s.subrange(
            p,
            p + parse_constant_def(s, p)->Ok_0.len,
        ),
{
    let c = parse_constant_def(s, p)->Ok_0;
    let id = type_id(s[p]);
    let q = p + 1 + operand_width(id);
    if operand_width(id) == 2 {
        lemma_be16(0, s, p + 1);
    }
    lemma_be32(0, s, q);
    assert(encode_constant_def(c) =~= s.subrange(p, p + c.len));
}

/// A constant definition reads only its own bytes.
pub proof fn lemma_constant_def_local(s1: Seq<u8>, p1: int, s2: Seq<u8>, p2: int)
    requires
        parse_constant_def(s1, p1) is Ok,
        agree(s1, p1, s2, p2, parse_constant_def(s1, p1)->Ok_0.len as int),
    ensures
        parse_constant_def(s2, p2) == parse_constant_def(s1, p1),
{
    let c = parse_constant_def(s1, p1)->Ok_0;
    let n = c.len as int;
    let w = operand_width(type_id(s1[p1])) as int;
    lemma_agree_reads(s1, p1, s2, p2, n, 0);
    lemma_agree_reads(s1, p1, s2, p2, n, 1);
    lemma_agree_reads(s1, p1, s2, p2, n, 1 + w);
    lemma_agree_sub(s1, p1, s2, p2, n, 5 + w, c.data_len as int);
    assert(s1.subrange(p1 + 5 + w, p1 + 5 + w + c.data_len) == s2.subrange(
        p2 + 5 + w,
        p2 + 5 + w + c.data_len,
    ));
}

/// A parsed constant table lies inside the bytes and its length runs from its
/// start to the end of its terminator.
pub proof fn lemma_constant_table_fits(s: Seq<u8>, p: int)
    requires
        parse_constant_table(s, p) is Ok,
    ensures
        parse_constant_table(s, p)->Ok_0.len >= 2,
        fits(s, p, parse_constant_table(s, p)->Ok_0.len as int),
        be16(s, p + parse_constant_table(s, p)->Ok_0.len - 2) == CONSTANT_TABLE_TERMINATOR,
    decreases s.len() - p,
{
    if be16(s, p) != CONSTANT_TABLE_TERMINATOR {
        let c = parse_constant_def(s, p)->Ok_0;
        lemma_constant_def_len(s, p);
        lemma_constant_table_fits(s, p + c.len);
    }
}

/// The bytes of a parsed constant table are the bytes it was parsed from.
pub proof fn lemma_constant_table_bytes(s: Seq<u8>, p: int)
    requires
        parse_constant_table(s, p) is Ok,
    ensures
        encode_constant_table(parse_constant_table(s, p)->Ok_0) == s.subrange(
            p,
            p + parse_constant_table(s, p)->Ok_0.len,
        ),
    decreases s.len() - p,
{
    let t = parse_constant_table(s, p)->Ok_0;
    lemma_be16(0, s, p);
    lemma_constant_table_fits(s, p);
    if be16(s, p) == CONSTANT_TABLE_TERMINATOR {
        assert(encode_constant_table(t) =~= s.subrange(p, p + 2));
    } else {
        let c = parse_constant_def(s, p)->Ok_0;
        lemma_constant_def_len(s, p);
        lemma_constant_def_bytes(s, p);
        lemma_constant_table_bytes(s, p + c.len);
        lemma_constant_table_fits(s, p + c.len);
        let rest = parse_constant_table(s, p + c.len)->Ok_0;
        lemma_constant_defs_cons(c, rest.constants);
        assert(encode_constant_table(t) =~= encode_constant_def(c) + encode_constant_table(rest));
        assert(s.subrange(p, p + t.len) =~= s.subrange(p, p + c.len) + s.subrange(
            p + c.len,
            p + t.len,
        ));
    }
}

/// A constant table reads only its own bytes.
pub proof fn lemma_constant_table_local(s1: Seq<u8>, p1: int, s2: Seq<u8>, p2: int)
    requires
        parse_constant_table(s1, p1) is Ok,
        agree(s1, p1, s2, p2, parse_constant_table(s1, p1)->Ok_0.len as int),
    ensures
        parse_constant_table(s2, p2) == parse_constant_table(s1, p1),
    decreases s1.len() - p1,
{
    let n = parse_constant_table(s1, p1)->Ok_0.len as int;
    lemma_agree_reads(s1, p1, s2, p2, n, 0);
    if be16(s1, p1) != CONSTANT_TABLE_TERMINATOR {
        let c = parse_constant_def(s1, p1)->Ok_0;
        lemma_constant_def_len(s1, p1);
        lemma_agree_sub(s1, p1, s2, p2, n, 0, c.len as int);
        lemma_constant_def_local(s1, p1, s2, p2);
        lemma_agree_sub(s1, p1, s2, p2, n, c.len as int, n - c.len);
        lemma_constant_table_local(s1, p1 + c.len, s2, p2 + c.len);
    }
}

/// Parsing a constant table, writing it out again and parsing the bytes
/// written gives the same table.
pub proof fn lemma_constant_table_round_trip(s: Seq<u8>, p: int)
    requires
        parse_constant_table(s, p) is Ok,
    ensures
        encode_constant_table(parse_constant_table(s, p)->Ok_0).len() == parse_constant_table(
            s,
            p,
        )->Ok_0.len,
        parse_constant_table(encode_constant_table(parse_constant_table(s, p)->Ok_0), 0)
            == parse_constant_table(s, p),
{
    let t = parse_constant_table(s, p)->Ok_0;
    lemma_constant_table_bytes(s, p);
    lemma_constant_table_fits(s, p);
    lemma_agree_window(s, p, t.len as int);
    lemma_constant_table_local(s, p, encode_constant_table(t), 0);
}

} // verus!
