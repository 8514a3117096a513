//! Field definitions and the field table.
use vstd::prelude::*;

use crate::decode::{
    agree, be16, enc16, fits, lemma_agree_reads, lemma_agree_sub, lemma_agree_window, lemma_be16,
    read_u16, write_u16,
};
use crate::error::{in_table, in_table_err, viewed, ExecutableFormatError};
use crate::types::{
    encode_operand, operand_at, operand_width, read_operand, type_id, valid_type_id, write_operand,
    ConstantIndex, Type, TypeFlags,
};

verus! {

broadcast use vstd::seq_lib::group_seq_properties;

/// The value that ends a field table.
pub const FIELD_TABLE_TERMINATOR: u16 = 0xBABA;

/// What a field definition holds.
pub struct FieldDefView {
    pub name: u16,
    pub type_flags: u8,
    pub type_operand: Option<u16>,
    pub len: nat,
}

/// What a field table holds: its fields, and its length in bytes with the
/// terminator.
pub struct FieldTableView {
    pub fields: Seq<FieldDefView>,
    pub len: nat,
}

/// The field definition at `p`: `name:u16, type_flags:u8, [operand]`.
pub open spec fn parse_field_def(s: Seq<u8>, p: int) -> Result<FieldDefView, ExecutableFormatError> {
    if !fits(s, p, 3) {
        Err(ExecutableFormatError::Truncated)
    } else {
        let flags = s[p + 2];
        let id = type_id(flags);
        if !valid_type_id(id) {
            Err(ExecutableFormatError::IllegalTypeId(id))
        } else if !fits(s, p + 3, operand_width(id) as int) {
            Err(ExecutableFormatError::Truncated)
        } else {
            Ok(
                FieldDefView {
                    name: be16(s, p),
                    type_flags: flags,
                    type_operand: operand_at(s, p + 3, id),
                    len: 3 + operand_width(id),
                },
            )
        }
    }
}

/// A parsed field definition lies inside the bytes and is not empty.
pub proof fn lemma_field_def_len(s: Seq<u8>, p: int)
    requires
        parse_field_def(s, p) is Ok,
    ensures
        parse_field_def(s, p)->Ok_0.len > 0,
        fits(s, p, parse_field_def(s, p)->Ok_0.len as int),
{
}

/// The field table at `p`: field definitions up to the terminator `0xBABA`.
pub open spec fn parse_field_table(s: Seq<u8>, p: int) -> Result<
    FieldTableView,
    ExecutableFormatError,
>
    decreases s.len() - p,
{
    if !fits(s, p, 2) {
        Err(ExecutableFormatError::MissingTerminator)
    } else if be16(s, p) == FIELD_TABLE_TERMINATOR {
        Ok(FieldTableView { fields: Seq::empty(), len: 2 })
    } else {
        match parse_field_def(s, p) {
            Err(e) => Err(in_table(e)),
            Ok(f) => {
                proof {
                    lemma_field_def_len(s, p);
                }
                match parse_field_table(s, p + f.len) {
                    Err(e) => Err(e),
                    Ok(t) => Ok(FieldTableView { fields: seq![f] + t.fields, len: f.len + t.len }),
                }
            },
        }
    }
}

/// The bytes of a field definition.
pub open spec fn encode_field_def(f: FieldDefView) -> Seq<u8> {
    enc16(f.name) + seq![f.type_flags] + encode_operand(type_id(f.type_flags), f.type_operand)
}

/// The bytes of a run of field definitions.
pub open spec fn encode_field_defs(fs: Seq<FieldDefView>) -> Seq<u8>
    decreases fs.len(),
{
    if fs.len() == 0 {
        Seq::empty()
    } else {
        encode_field_defs(fs.drop_last()) + encode_field_def(fs.last())
    }
}

/// The bytes of a field table.
pub open spec fn encode_field_table(t: FieldTableView) -> Seq<u8> {
    encode_field_defs(t.fields) + enc16(FIELD_TABLE_TERMINATOR)
}

/// The bytes of a run that starts with `f`.
pub proof fn lemma_field_defs_cons(f: FieldDefView, rest: Seq<FieldDefView>)
    ensures
        encode_field_defs(seq![f] + rest) == encode_field_def(f) + encode_field_defs(rest),
    decreases rest.len(),
{
    if rest.len() == 0 {
        assert((seq![f] + rest).drop_last() =~= Seq::<FieldDefView>::empty());
        assert(encode_field_defs(seq![f] + rest) =~= encode_field_def(f) + encode_field_defs(rest));
    } else {
        assert((seq![f] + rest).drop_last() =~= seq![f] + rest.drop_last());
        lemma_field_defs_cons(f, rest.drop_last());
        assert(encode_field_defs(seq![f] + rest) =~= encode_field_def(f) + encode_field_defs(rest));
    }
}

/// A field definition.
#[derive(Debug)]
pub struct FieldDef {
    name: ConstantIndex,
    type_flags: TypeFlags,
    type_operand: Option<u16>,
    len: usize,
}

/// A field table.
#[derive(Debug)]
pub struct FieldTable {
    fields: Vec<FieldDef>,
    len: usize,
}

impl View for FieldDef {
    type V = FieldDefView;

    closed spec fn view(&self) -> FieldDefView {
        FieldDefView {
            name: self.name,
            type_flags: self.type_flags,
            type_operand: self.type_operand,
            len: self.len as nat,
        }
    }
}

impl View for FieldTable {
    type V = FieldTableView;

    closed spec fn view(&self) -> FieldTableView {
        FieldTableView { fields: self.fields@.map_values(|f: FieldDef| f@), len: self.len as nat }
    }
}

impl FieldDef {
    /// Parses the field definition at `start`.
    pub fn parse(bytes: &[u8], start: usize) -> (r: Result<FieldDef, ExecutableFormatError>)
        ensures
            viewed(r) == parse_field_def(bytes@, start as int),
    {
        if start > bytes.len() || bytes.len() - start < 3 {
            return Err(ExecutableFormatError::Truncated);
        }
        let name = match read_u16(bytes, start) {
            Some(v) => v,
            None => return Err(ExecutableFormatError::Truncated),
        };
        let type_flags = bytes[start + 2];
        let id = type_flags % 16;
        if Type::from_flags(type_flags).is_none() {
            return Err(ExecutableFormatError::IllegalTypeId(id));
        }
        let type_operand = match read_operand(bytes, start + 3, id) {
            Some(op) => op,
            None => return Err(ExecutableFormatError::Truncated),
        };
        let len = 3 + crate::types::operand_width_of(id);
        Ok(FieldDef { name, type_flags, type_operand, len })
    }

    /// The constant index of the field's name.
    pub fn name(&self) -> (r: ConstantIndex)
        ensures
            r == self@.name,
    {
        self.name
    }

    /// The field's type byte.
    pub fn type_flags(&self) -> (r: TypeFlags)
        ensures
            r == self@.type_flags,
    {
        self.type_flags
    }

    /// The field's type operand as a type byte (the low byte of the operand).
    pub fn type_operand_flags(&self) -> (r: Option<TypeFlags>)
        ensures
            match self@.type_operand {
                Some(op) => r == Some(op as u8),
                None => r is None,
            },
    {
        match self.type_operand {
            Some(type_operand) => Some(type_operand as u8),
            None => None,
        }
    }

    /// The field's type operand, if its type has one.
    pub fn type_operand(&self) -> (r: Option<u16>)
        ensures
            r == self@.type_operand,
    {
        self.type_operand
    }

    /// The length of the encoded definition in bytes.
    pub fn len(&self) -> (r: usize)
        ensures
            r == self@.len,
    {
        self.len
    }

    /// Appends the bytes of this definition.
    pub fn emit(&self, out: &mut Vec<u8>)
        ensures
            final(out)@ == old(out)@ + encode_field_def(self@),
    {
        write_u16(out, self.name);
        out.push(self.type_flags);
        write_operand(out, self.type_flags % 16, self.type_operand);
        assert(out@ =~= old(out)@ + encode_field_def(self@));
    }
}

impl FieldTable {
    /// Parses the field table at `start`.
    pub fn parse(bytes: &[u8], start: usize) -> (r: Result<FieldTable, ExecutableFormatError>)
        ensures
            viewed(r) == parse_field_table(bytes@, start as int),
    {
        let mut fields: Vec<FieldDef> = Vec::new();
        let mut p: usize = start;
        loop
            invariant
                start <= p,
                match parse_field_table(bytes@, p as int) {
                    Ok(t) => parse_field_table(bytes@, start as int) == Ok::<
                        FieldTableView,
                        ExecutableFormatError,
                    >(
                        FieldTableView {
                            fields: fields@.map_values(|f: FieldDef| f@) + t.fields,
                            len: ((p - start) + t.len) as nat,
                        },
                    ),
                    Err(e) => parse_field_table(bytes@, start as int) == Err::<FieldTableView, ExecutableFormatError>(e),
                },
            decreases bytes.len() - p,
        {
            let ghost fv = fields@.map_values(|f: FieldDef| f@);
            match read_u16(bytes, p) {
                None => return Err(ExecutableFormatError::MissingTerminator),
                Some(t) => {
                    if t == FIELD_TABLE_TERMINATOR {
                        let r = FieldTable { fields, len: p - start + 2 };
                        assert(fv + Seq::<FieldDefView>::empty() =~= fv);
                        return Ok(r);
                    }
                },
            }
            match FieldDef::parse(bytes, p) {
                Err(e) => return Err(in_table_err(e)),
                Ok(f) => {
                    proof {
                        lemma_field_def_len(bytes@, p as int);
                    }
                    let l = f.len;
                    fields.push(f);
                    proof {
                        let t = parse_field_table(bytes@, p + l);
                        if t is Ok {
                            assert(fields@.map_values(|f: FieldDef| f@) + t->Ok_0.fields =~= fv + (
                            seq![f@] + t->Ok_0.fields));
                        }
                    }
                    p = p + l;
                },
            }
        }
    }

    /// The table's field definitions, in order.
    pub fn fields(&self) -> (r: &Vec<FieldDef>)
        ensures
            r@.map_values(|f: FieldDef| f@) == self@.fields,
    {
        &self.fields
    }

    /// The length of the encoded table in bytes, terminator included.
    pub fn len(&self) -> (r: usize)
        ensures
            r == self@.len,
    {
        self.len
    }

    /// The bytes of this table.
    pub fn emit(&self) -> (r: Vec<u8>)
        ensures
            r@ == encode_field_table(self@),
    {
        let mut out: Vec<u8> = Vec::new();
        self.emit_into(&mut out);
        out
    }

    /// Appends the bytes of this table.
    pub fn emit_into(&self, out: &mut Vec<u8>)
        ensures
            final(out)@ == old(out)@ + encode_field_table(self@),
    {
        let ghost fv = self.fields@.map_values(|f: FieldDef| f@);
        let mut i: usize = 0;
        while i < self.fields.len()
            invariant
                i <= self.fields.len(),
                fv == self.fields@.map_values(|f: FieldDef| f@),
                out@ == old(out)@ + encode_field_defs(fv.take(i as int)),
            decreases self.fields.len() - i,
        {
            self.fields[i].emit(out);
            proof {
                assert(fv[i as int] == self.fields@[i as int]@);
                assert(fv.take(i + 1).drop_last() =~= fv.take(i as int));
            }
            i = i + 1;
        }
        write_u16(out, FIELD_TABLE_TERMINATOR);
        assert(fv.take(i as int) =~= fv);
    }
}

/// The bytes of a parsed field definition are the bytes it was parsed from.
pub proof fn lemma_field_def_bytes(s: Seq<u8>, p: int)
    requires
        parse_field_def(s, p) is Ok,
    ensures
        encode_field_def(parse_field_def(s, p)->Ok_0) == s.subrange(
            p,
            p + parse_field_def(s, p)->Ok_0.len,
        ),
{
    let f = parse_field_def(s, p)->Ok_0;
    lemma_be16(0, s, p);
    let id = type_id(s[p + 2]);
    if operand_width(id) == 2 {
        lemma_be16(0, s, p + 3);
    }
    assert(encode_field_def(f) =~= s.subrange(p, p + f.len));
}

/// A field definition reads only its own bytes.
pub proof fn lemma_field_def_local(s1: Seq<u8>, p1: int, s2: Seq<u8>, p2: int)
    requires
        parse_field_def(s1, p1) is Ok,
        agree(s1, p1, s2, p2, parse_field_def(s1, p1)->Ok_0.len as int),
    ensures
        parse_field_def(s2, p2) == parse_field_def(s1, p1),
{
    let n = parse_field_def(s1, p1)->Ok_0.len as int;
    lemma_agree_reads(s1, p1, s2, p2, n, 0);
    lemma_agree_reads(s1, p1, s2, p2, n, 2);
    lemma_agree_reads(s1, p1, s2, p2, n, 3);
}

/// The bytes of a parsed field table are the bytes it was parsed from.
pub proof fn lemma_field_table_bytes(s: Seq<u8>, p: int)
    requires
        parse_field_table(s, p) is Ok,
    ensures
        encode_field_table(parse_field_table(s, p)->Ok_0) == s.subrange(
            p,
            p + parse_field_table(s, p)->Ok_0.len,
        ),
    decreases s.len() - p,
{
    let t = parse_field_table(s, p)->Ok_0;
    lemma_be16(0, s, p);
    lemma_field_table_fits(s, p);
    if be16(s, p) == FIELD_TABLE_TERMINATOR {
        assert(encode_field_table(t) =~= s.subrange(p, p + 2));
    } else {
        let f = parse_field_def(s, p)->Ok_0;
        lemma_field_def_len(s, p);
        lemma_field_def_bytes(s, p);
        lemma_field_table_bytes(s, p + f.len);
        let rest = parse_field_table(s, p + f.len)->Ok_0;
        lemma_field_defs_cons(f, rest.fields);
        assert(encode_field_table(t) =~= encode_field_def(f) + encode_field_table(rest));
        assert(s.subrange(p, p + t.len) =~= s.subrange(p, p + f.len) + s.subrange(
            p + f.len,
            p + t.len,
        ));
    }
}

/// A field table reads only its own bytes.
pub proof fn lemma_field_table_local(s1: Seq<u8>, p1: int, s2: Seq<u8>, p2: int)
    requires
        parse_field_table(s1, p1) is Ok,
        agree(s1, p1, s2, p2, parse_field_table(s1, p1)->Ok_0.len as int),
    ensures
        parse_field_table(s2, p2) == parse_field_table(s1, p1),
    decreases s1.len() - p1,
{
    let n = parse_field_table(s1, p1)->Ok_0.len as int;
    lemma_agree_reads(s1, p1, s2, p2, n, 0);
    if be16(s1, p1) != FIELD_TABLE_TERMINATOR {
        let f = parse_field_def(s1, p1)->Ok_0;
        lemma_field_def_len(s1, p1);
        lemma_agree_sub(s1, p1, s2, p2, n, 0, f.len as int);
        lemma_field_def_local(s1, p1, s2, p2);
        lemma_agree_sub(s1, p1, s2, p2, n, f.len as int, n - f.len);
        lemma_field_table_local(s1, p1 + f.len, s2, p2 + f.len);
    }
}

/// Parsing a field table, writing it out again and parsing the bytes written
/// gives the same table, and the bytes written are the bytes it was read from.
pub proof fn lemma_field_table_round_trip(s: Seq<u8>, p: int)
    requires
        parse_field_table(s, p) is Ok,
    ensures
        encode_field_table(parse_field_table(s, p)->Ok_0).len() == parse_field_table(
            s,
            p,
        )->Ok_0.len,
        parse_field_table(encode_field_table(parse_field_table(s, p)->Ok_0), 0) == parse_field_table(
            s,
            p,
        ),
{
    let t = parse_field_table(s, p)->Ok_0;
    lemma_field_table_bytes(s, p);
    lemma_field_table_fits(s, p);
    lemma_agree_window(s, p, t.len as int);
    lemma_field_table_local(s, p, encode_field_table(t), 0);
}

/// A parsed field table lies inside the bytes and its length runs from its
/// start to the end of its terminator; one with a field in it is at
/// least five bytes long.
pub proof fn lemma_field_table_fits(s: Seq<u8>, p: int)
    requires
        parse_field_table(s, p) is Ok,
    ensures
        parse_field_table(s, p)->Ok_0.len >= 2,
        fits(s, p, parse_field_table(s, p)->Ok_0.len as int),
        be16(s, p) != FIELD_TABLE_TERMINATOR ==> parse_field_table(s, p)->Ok_0.len >= 5,
        be16(s, p + parse_field_table(s, p)->Ok_0.len - 2) == FIELD_TABLE_TERMINATOR,
    decreases s.len() - p,
{
    if be16(s, p) != FIELD_TABLE_TERMINATOR {
        let f = parse_field_def(s, p)->Ok_0;
        lemma_field_def_len(s, p);
        lemma_field_table_fits(s, p + f.len);
    }
}

} // verus!
