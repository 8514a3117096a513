//! Class definitions and the class table.
use vstd::prelude::*;

use crate::decode::{
    agree, be16, be64, enc16, enc64, fits, lemma_agree_reads, lemma_agree_sub, lemma_agree_window,
    lemma_be16, lemma_be64, lemma_high_byte, read_u16, read_u64, write_u16, write_u64,
};
use crate::error::{in_table, in_table_err, viewed, ExecutableFormatError};
use crate::field::{
    encode_field_table, lemma_field_table_bytes, lemma_field_table_fits, lemma_field_table_local,
    parse_field_table, FieldTable, FieldTableView, FIELD_TABLE_TERMINATOR,
};
use crate::function::{
    encode_function_table, lemma_function_table_bytes, lemma_function_table_fits,
    lemma_function_table_local, parse_function_table, FunctionTable, FunctionTableView,
    FUNCTION_TABLE_TERMINATOR,
};
use crate::types::ConstantIndex;

verus! {

broadcast use vstd::seq_lib::group_seq_properties;

/// The value that ends a class definition.
pub const CLASS_TERMINATOR: u16 = 0xF10F;

/// The value that ends the class table.
pub const CLASS_TABLE_TERMINATOR: u16 = 0xFADE;

/// The value that stands where a class has no field table or no function table.
pub const ABSENT_TABLE: u64 = 0xDEADCAFEBABEFADE;

/// What a class definition holds.
pub struct ClassDefView {
    pub name: u16,
    pub super_name: u16,
    pub field_table: Option<FieldTableView>,
    pub function_table: Option<FunctionTableView>,
    pub len: nat,
}

/// What a class table holds: its classes, and its length in bytes with the
/// terminator.
pub struct ClassTableView {
    pub classes: Seq<ClassDefView>,
    pub len: nat,
}

/// Whether the marker of an absent table stands at `q`.
pub open spec fn absent_at(s: Seq<u8>, q: int) -> bool {
    fits(s, q, 8) && be64(s, q) == ABSENT_TABLE
}

/// The optional field table of a class at `q`, with the bytes it takes.
pub open spec fn parse_class_fields(s: Seq<u8>, q: int) -> Result<
    (Option<FieldTableView>, nat),
    ExecutableFormatError,
> {
    if absent_at(s, q) {
        Ok((None, 8))
    } else {
        match parse_field_table(s, q) {
            Ok(t) => Ok((Some(t), t.len)),
            Err(e) => Err(e),
        }
    }
}

/// The optional function table of a class at `q`, with the bytes it takes.
pub open spec fn parse_class_functions(s: Seq<u8>, q: int) -> Result<
    (Option<FunctionTableView>, nat),
    ExecutableFormatError,
> {
    if absent_at(s, q) {
        Ok((None, 8))
    } else {
        match parse_function_table(s, q) {
            Ok(t) => Ok((Some(t), t.len)),
            Err(e) => Err(e),
        }
    }
}

/// The class definition at `p`: `name:u16, super_name:u16, [field table |
/// marker], [function table | marker], 0xF10F`.
pub open spec fn parse_class_def(s: Seq<u8>, p: int) -> Result<ClassDefView, ExecutableFormatError> {
    if !fits(s, p, 4) {
        Err(ExecutableFormatError::Truncated)
    } else {
        match parse_class_fields(s, p + 4) {
            Err(e) => Err(e),
            Ok((ft, fl)) => match parse_class_functions(s, p + 4 + fl) {
                Err(e) => Err(e),
                Ok((gt, gl)) => {
                    let q = p + 4 + fl + gl;
                    if !fits(s, q, 2) {
                        Err(ExecutableFormatError::MissingTerminator)
                    } else if be16(s, q) != CLASS_TERMINATOR {
                        Err(ExecutableFormatError::InvalidTerminator(be16(s, q)))
                    } else {
                        Ok(
                            ClassDefView {
                                name: be16(s, p),
                                super_name: be16(s, p + 2),
                                field_table: ft,
                                function_table: gt,
                                len: 6 + fl + gl,
                            },
                        )
                    }
                },
            },
        }
    }
}

/// The parts of a parsed class definition lie inside the bytes in order.
pub proof fn lemma_class_def_len(s: Seq<u8>, p: int)
    requires
        parse_class_def(s, p) is Ok,
    ensures
        ({
            let (fl, gl) = (
                parse_class_fields(s, p + 4)->Ok_0.1,
                parse_class_functions(s, p + 4 + parse_class_fields(s, p + 4)->Ok_0.1)->Ok_0.1,
            );
            &&& fl >= 2
            &&& gl >= 2
            &&& fits(s, p + 4, fl as int)
            &&& fits(s, p + 4 + fl, gl as int)
            &&& parse_class_def(s, p)->Ok_0.len == 6 + fl + gl
        }),
        parse_class_def(s, p)->Ok_0.len >= 10,
        fits(s, p, parse_class_def(s, p)->Ok_0.len as int),
{
    let fl = parse_class_fields(s, p + 4)->Ok_0.1;
    if !absent_at(s, p + 4) {
        lemma_field_table_fits(s, p + 4);
    }
    if !absent_at(s, p + 4 + fl) {
        lemma_function_table_fits(s, p + 4 + fl);
    }
}

/// A parsed class definition's length runs from its start to the end of its
/// own terminator `0xF10F`.
pub proof fn lemma_class_def_ends(s: Seq<u8>, p: int)
    requires
        parse_class_def(s, p) is Ok,
    ensures
        fits(s, p, parse_class_def(s, p)->Ok_0.len as int),
        be16(s, p + parse_class_def(s, p)->Ok_0.len - 2) == CLASS_TERMINATOR,
{
    lemma_class_def_len(s, p);
}

/// The class table at `p`: class definitions up to the terminator `0xFADE`.
pub open spec fn parse_class_table(s: Seq<u8>, p: int) -> Result<
    ClassTableView,
    ExecutableFormatError,
>
    decreases s.len() - p,
{
    if !fits(s, p, 2) {
        Err(ExecutableFormatError::MissingTerminator)
    } else if be16(s, p) == CLASS_TABLE_TERMINATOR {
        Ok(ClassTableView { classes: Seq::empty(), len: 2 })
    } else {
        match parse_class_def(s, p) {
            Err(e) => Err(in_table(e)),
            Ok(c) => {
                proof {
                    lemma_class_def_len(s, p);
                }
                match parse_class_table(s, p + c.len) {
                    Err(e) => Err(e),
                    Ok(t) => Ok(ClassTableView { classes: seq![c] + t.classes, len: c.len + t.len }),
                }
            },
        }
    }
}

/// The bytes of an optional field table.
pub open spec fn encode_class_fields(t: Option<FieldTableView>) -> Seq<u8> {
    match t {
        Some(t) => encode_field_table(t),
        None => enc64(ABSENT_TABLE),
    }
}

/// The bytes of an optional function table.
pub open spec fn encode_class_functions(t: Option<FunctionTableView>) -> Seq<u8> {
    match t {
        Some(t) => encode_function_table(t),
        None => enc64(ABSENT_TABLE),
    }
}

/// The bytes of a class definition.
pub open spec fn encode_class_def(c: ClassDefView) -> Seq<u8> {
    enc16(c.name) + enc16(c.super_name) + encode_class_fields(c.field_table)
        + encode_class_functions(c.function_table) + enc16(CLASS_TERMINATOR)
}

/// The bytes of a run of class definitions.
pub open spec fn encode_class_defs(cs: Seq<ClassDefView>) -> Seq<u8>
    decreases cs.len(),
{
    if cs.len() == 0 {
        Seq::empty()
    } else {
        encode_class_defs(cs.drop_last()) + encode_class_def(cs.last())
    }
}

/// The bytes of a class table.
pub open spec fn encode_class_table(t: ClassTableView) -> Seq<u8> {
    encode_class_defs(t.classes) + enc16(CLASS_TABLE_TERMINATOR)
}

/// The bytes of a run that starts with `c`.
pub proof fn lemma_class_defs_cons(c: ClassDefView, rest: Seq<ClassDefView>)
    ensures
        encode_class_defs(seq![c] + rest) == encode_class_def(c) + encode_class_defs(rest),
    decreases rest.len(),
{
    if rest.len() == 0 {
        assert((seq![c] + rest).drop_last() =~= Seq::<ClassDefView>::empty());
        assert(encode_class_defs(seq![c] + rest) =~= encode_class_def(c) + encode_class_defs(rest));
    } else {
        assert((seq![c] + rest).drop_last() =~= seq![c] + rest.drop_last());
        lemma_class_defs_cons(c, rest.drop_last());
        assert(encode_class_defs(seq![c] + rest) =~= encode_class_def(c) + encode_class_defs(rest));
    }
}

/// A class definition.
#[derive(Debug)]
pub struct ClassDef {
    name: ConstantIndex,
    super_name: ConstantIndex,
    field_table: Option<FieldTable>,
    function_table: Option<FunctionTable>,
    len: usize,
}

/// A class table.
#[derive(Debug)]
pub struct ClassTable {
    classes: Vec<ClassDef>,
    len: usize,
}

impl View for ClassDef {
    type V = ClassDefView;

    closed spec fn view(&self) -> ClassDefView {
        ClassDefView {
            name: self.name,
            super_name: self.super_name,
            field_table: match self.field_table {
                Some(t) => Some(t@),
                None => None,
            },
            function_table: match self.function_table {
                Some(t) => Some(t@),
                None => None,
            },
            len: self.len as nat,
        }
    }
}

impl View for ClassTable {
    type V = ClassTableView;

    closed spec fn view(&self) -> ClassTableView {
        ClassTableView { classes: self.classes@.map_values(|c: ClassDef| c@), len: self.len as nat }
    }
}

/// Whether the marker of an absent table stands at `q`.
fn read_absent(bytes: &[u8], q: usize) -> (r: bool)
    ensures
        r == absent_at(bytes@, q as int),
{
    match read_u64(bytes, q) {
        Some(v) => v == ABSENT_TABLE,
        None => false,
    }
}

impl ClassDef {
    /// Parses the class definition at `start`.
    pub fn parse(bytes: &[u8], start: usize) -> (r: Result<ClassDef, ExecutableFormatError>)
        ensures
            viewed(r) == parse_class_def(bytes@, start as int),
    {
        if start > bytes.len() || bytes.len() - start < 4 {
            return Err(ExecutableFormatError::Truncated);
        }
        let name = read_u16(bytes, start).unwrap();
        let super_name = read_u16(bytes, start + 2).unwrap();
        let q = start + 4;
        let mut fl: usize = 8;
        let field_table = if read_absent(bytes, q) {
            None
        } else {
            match FieldTable::parse(bytes, q) {
                Ok(t) => {
                    proof {
                        lemma_field_table_fits(bytes@, q as int);
                    }
                    fl = t.len();
                    Some(t)
                },
                Err(e) => return Err(e),
            }
        };
        let q = q + fl;
        let mut gl: usize = 8;
        let function_table = if read_absent(bytes, q) {
            None
        } else {
            match FunctionTable::parse(bytes, q) {
                Ok(t) => {
                    proof {
                        lemma_function_table_fits(bytes@, q as int);
                    }
                    gl = t.len();
                    Some(t)
                },
                Err(e) => return Err(e),
            }
        };
        let q = q + gl;
        let t = match read_u16(bytes, q) {
            Some(t) => t,
            None => return Err(ExecutableFormatError::MissingTerminator),
        };
        if t != CLASS_TERMINATOR {
            return Err(ExecutableFormatError::InvalidTerminator(t));
        }
        Ok(ClassDef { name, super_name, field_table, function_table, len: q + 2 - start })
    }

    /// The constant index of the class's name.
    pub fn name(&self) -> (r: ConstantIndex)
        ensures
            r == self@.name,
    {
        self.name
    }

    /// The constant index of the superclass's name.
    pub fn super_name(&self) -> (r: ConstantIndex)
        ensures
            r == self@.super_name,
    {
        self.super_name
    }

    /// The class's field table, if it has one.
    pub fn field_table(&self) -> (r: Option<&FieldTable>)
        ensures
            match r {
                Some(t) => self@.field_table == Some(t@),
                None => self@.field_table is None,
            },
    {
        match &self.field_table {
            Some(t) => Some(t),
            None => None,
        }
    }

    /// The class's function table, if it has one.
    pub fn function_table(&self) -> (r: Option<&FunctionTable>)
        ensures
            match r {
                Some(t) => self@.function_table == Some(t@),
                None => self@.function_table is None,
            },
    {
        match &self.function_table {
            Some(t) => Some(t),
            None => None,
        }
    }

    /// The length of the encoded definition in bytes, terminator included.
    pub fn len(&self) -> (r: usize)
        ensures
            r == self@.len,
    {
        self.len
    }

    /// Appends the bytes of this definition.
    pub fn emit(&self, out: &mut Vec<u8>)
        ensures
            final(out)@ == old(out)@ + encode_class_def(self@),
    {
        write_u16(out, self.name);
        write_u16(out, self.super_name);
        match &self.field_table {
            Some(t) => t.emit_into(out),
            None => write_u64(out, ABSENT_TABLE),
        }
        match &self.function_table {
            Some(t) => t.emit_into(out),
            None => write_u64(out, ABSENT_TABLE),
        }
        write_u16(out, CLASS_TERMINATOR);
        assert(out@ =~= old(out)@ + encode_class_def(self@));
    }
}

impl ClassTable {
    /// Parses the class table at `start`.
    pub fn parse(bytes: &[u8], start: usize) -> (r: Result<ClassTable, ExecutableFormatError>)
        ensures
            viewed(r) == parse_class_table(bytes@, start as int),
    {
        let mut classes: Vec<ClassDef> = Vec::new();
        let mut p: usize = start;
        loop
            invariant
                start <= p,
                match parse_class_table(bytes@, p as int) {
                    Ok(t) => parse_class_table(bytes@, start as int) == Ok::<
                        ClassTableView,
                        ExecutableFormatError,
                    >(
                        ClassTableView {
                            classes: classes@.map_values(|c: ClassDef| c@) + t.classes,
                            len: ((p - start) + t.len) as nat,
                        },
                    ),
                    Err(e) => parse_class_table(bytes@, start as int) == Err::<
                        ClassTableView,
                        ExecutableFormatError,
                    >(e),
                },
            decreases bytes.len() - p,
        {
            let ghost cv = classes@.map_values(|c: ClassDef| c@);
            match read_u16(bytes, p) {
                None => return Err(ExecutableFormatError::MissingTerminator),
                Some(t) => {
                    if t == CLASS_TABLE_TERMINATOR {
                        let r = ClassTable { classes, len: p - start + 2 };
                        assert(cv + Seq::<ClassDefView>::empty() =~= cv);
                        return Ok(r);
                    }
                },
            }
            match ClassDef::parse(bytes, p) {
                Err(e) => return Err(in_table_err(e)),
                Ok(c) => {
                    proof {
                        lemma_class_def_len(bytes@, p as int);
                    }
                    let l = c.len;
                    classes.push(c);
                    proof {
                        let t = parse_class_table(bytes@, p + l);
                        if t is Ok {
                            assert(classes@.map_values(|c: ClassDef| c@) + t->Ok_0.classes =~= cv
                                + (seq![c@] + t->Ok_0.classes));
                        }
                    }
                    p = p + l;
                },
            }
        }
    }

    /// The table's classes, in order.
    pub fn classes(&self) -> (r: &Vec<ClassDef>)
        ensures
            r@.map_values(|c: ClassDef| c@) == self@.classes,
    {
        &self.classes
    }

    /// The length of the encoded table in bytes, terminator included.
    pub fn len(&self) -> (r: usize)
        ensures
            r == self@.len,
    {
        self.len
    }

    /// The bytes of this table.
    pub fn emit(&self) -> (r: Vec<u8>)
        ensures
            r@ == encode_class_table(self@),
    {
        let mut out: Vec<u8> = Vec::new();
        let ghost cv = self.classes@.map_values(|c: ClassDef| c@);
        let mut i: usize = 0;
        while i < self.classes.len()
            invariant
                i <= self.classes.len(),
                cv == self.classes@.map_values(|c: ClassDef| c@),
                out@ == encode_class_defs(cv.take(i as int)),
            decreases self.classes.len() - i,
        {
            self.classes[i].emit(&mut out);
            proof {
                assert(cv[i as int] == self.classes@[i as int]@);
                assert(cv.take(i + 1).drop_last() =~= cv.take(i as int));
            }
            i = i + 1;
        }
        write_u16(&mut out, CLASS_TABLE_TERMINATOR);
        assert(cv.take(i as int) =~= cv);
        out
    }
}

/// The marker of an absent table does not begin like a table terminator.
proof fn lemma_marker_first_byte(s: Seq<u8>, q: int)
    requires
        fits(s, q, 2),
        be16(s, q) == FIELD_TABLE_TERMINATOR || be16(s, q) == FUNCTION_TABLE_TERMINATOR,
    ensures
        !absent_at(s, q),
{
    lemma_high_byte(s, q);
    assert((FIELD_TABLE_TERMINATOR >> 8u16) == 0xBAu16) by (bit_vector);
    assert((FUNCTION_TABLE_TERMINATOR >> 8u16) == 0xFAu16) by (bit_vector);
    assert((ABSENT_TABLE >> 56u64) == 0xDEu64) by (bit_vector);
}

/// Whether a class's field table is there reads only the class's own bytes.
proof fn lemma_class_fields_local(s1: Seq<u8>, p1: int, s2: Seq<u8>, p2: int)
    requires
        parse_class_def(s1, p1) is Ok,
        agree(s1, p1, s2, p2, parse_class_def(s1, p1)->Ok_0.len as int),
    ensures
        parse_class_fields(s2, p2 + 4) == parse_class_fields(s1, p1 + 4),
{
    let n = parse_class_def(s1, p1)->Ok_0.len as int;
    lemma_class_def_len(s1, p1);
    let fl = parse_class_fields(s1, p1 + 4)->Ok_0.1 as int;
    if n - 4 >= 8 {
        lemma_agree_reads(s1, p1, s2, p2, n, 4);
    }
    if !absent_at(s1, p1 + 4) {
        lemma_field_table_fits(s1, p1 + 4);
        if n - 4 < 8 {
            lemma_agree_reads(s1, p1, s2, p2, n, 4);
            lemma_marker_first_byte(s2, p2 + 4);
        }
        lemma_agree_sub(s1, p1, s2, p2, n, 4, fl);
        lemma_field_table_local(s1, p1 + 4, s2, p2 + 4);
    }
}

/// Whether a class's function table is there reads only the class's own bytes.
proof fn lemma_class_functions_local(s1: Seq<u8>, p1: int, s2: Seq<u8>, p2: int)
    requires
        parse_class_def(s1, p1) is Ok,
        agree(s1, p1, s2, p2, parse_class_def(s1, p1)->Ok_0.len as int),
    ensures
        ({
            let fl = parse_class_fields(s1, p1 + 4)->Ok_0.1;
            parse_class_functions(s2, p2 + 4 + fl) == parse_class_functions(s1, p1 + 4 + fl)
        }),
{
    let n = parse_class_def(s1, p1)->Ok_0.len as int;
    lemma_class_def_len(s1, p1);
    let fl = parse_class_fields(s1, p1 + 4)->Ok_0.1 as int;
    let gl = parse_class_functions(s1, p1 + 4 + fl)->Ok_0.1 as int;
    if n - 4 - fl >= 8 {
        lemma_agree_reads(s1, p1, s2, p2, n, 4 + fl);
    }
    if !absent_at(s1, p1 + 4 + fl) {
        lemma_function_table_fits(s1, p1 + 4 + fl);
        if n - 4 - fl < 8 {
            lemma_agree_reads(s1, p1, s2, p2, n, 4 + fl);
            lemma_marker_first_byte(s2, p2 + 4 + fl);
        }
        lemma_agree_sub(s1, p1, s2, p2, n, 4 + fl, gl);
        lemma_function_table_local(s1, p1 + 4 + fl, s2, p2 + 4 + fl);
    }
}

/// A class definition reads only its own bytes.
pub proof fn lemma_class_def_local(s1: Seq<u8>, p1: int, s2: Seq<u8>, p2: int)
    requires
        parse_class_def(s1, p1) is Ok,
        agree(s1, p1, s2, p2, parse_class_def(s1, p1)->Ok_0.len as int),
    ensures
        parse_class_def(s2, p2) == parse_class_def(s1, p1),
{
    let n = parse_class_def(s1, p1)->Ok_0.len as int;
    lemma_class_def_len(s1, p1);
    let fl = parse_class_fields(s1, p1 + 4)->Ok_0.1 as int;
    let gl = parse_class_functions(s1, p1 + 4 + fl)->Ok_0.1 as int;
    lemma_agree_reads(s1, p1, s2, p2, n, 0);
    lemma_agree_reads(s1, p1, s2, p2, n, 2);
    lemma_class_fields_local(s1, p1, s2, p2);
    lemma_class_functions_local(s1, p1, s2, p2);
    lemma_agree_reads(s1, p1, s2, p2, n, 4 + fl + gl);
}

/// The bytes of a parsed class definition are the bytes it was parsed from.
pub proof fn lemma_class_def_bytes(s: Seq<u8>, p: int)
    requires
        parse_class_def(s, p) is Ok,
    ensures
        encode_class_def(parse_class_def(s, p)->Ok_0) == s.subrange(
            p,
            p + parse_class_def(s, p)->Ok_0.len,
        ),
{
    let c = parse_class_def(s, p)->Ok_0;
    lemma_class_def_len(s, p);
    let fl = parse_class_fields(s, p + 4)->Ok_0.1 as int;
    let gl = parse_class_functions(s, p + 4 + fl)->Ok_0.1 as int;
    let q = p + 4 + fl + gl;
    lemma_be16(0, s, p);
    lemma_be16(0, s, p + 2);
    lemma_be16(0, s, q);
    if absent_at(s, p + 4) {
        lemma_be64(0, s, p + 4);
    } else {
        lemma_field_table_bytes(s, p + 4);
    }
    if absent_at(s, p + 4 + fl) {
        lemma_be64(0, s, p + 4 + fl);
    } else {
        lemma_function_table_bytes(s, p + 4 + fl);
    }
    assert(encode_class_fields(c.field_table) == s.subrange(p + 4, p + 4 + fl));
    assert(encode_class_functions(c.function_table) == s.subrange(p + 4 + fl, q));
    assert(s.subrange(p, p + c.len) =~= s.subrange(p, p + 2) + s.subrange(p + 2, p + 4)
        + s.subrange(p + 4, p + 4 + fl) + s.subrange(p + 4 + fl, q) + s.subrange(q, q + 2));
}

/// A parsed class table lies inside the bytes and its length runs from its
/// start to the end of its terminator.
pub proof fn lemma_class_table_fits(s: Seq<u8>, p: int)
    requires
        parse_class_table(s, p) is Ok,
    ensures
        parse_class_table(s, p)->Ok_0.len >= 2,
        fits(s, p, parse_class_table(s, p)->Ok_0.len as int),
        be16(s, p + parse_class_table(s, p)->Ok_0.len - 2) == CLASS_TABLE_TERMINATOR,
    decreases s.len() - p,
{
    if be16(s, p) != CLASS_TABLE_TERMINATOR {
        let c = parse_class_def(s, p)->Ok_0;
        lemma_class_def_len(s, p);
        lemma_class_table_fits(s, p + c.len);
    }
}

/// The bytes of a parsed class table are the bytes it was parsed from.
#[verifier::rlimit(40)]
pub proof fn lemma_class_table_bytes(s: Seq<u8>, p: int)
    requires
        parse_class_table(s, p) is Ok,
    ensures
        encode_class_table(parse_class_table(s, p)->Ok_0) == s.subrange(
            p,
            p + parse_class_table(s, p)->Ok_0.len,
        ),
    decreases s.len() - p,
{
    let t = parse_class_table(s, p)->Ok_0;
    lemma_be16(0, s, p);
    lemma_class_table_fits(s, p);
    if be16(s, p) == CLASS_TABLE_TERMINATOR {
        assert(encode_class_table(t) =~= s.subrange(p, p + 2));
    } else {
        let c = parse_class_def(s, p)->Ok_0;
        lemma_class_def_len(s, p);
        lemma_class_def_bytes(s, p);
        lemma_class_table_bytes(s, p + c.len);
        lemma_class_table_fits(s, p + c.len);
        let rest = parse_class_table(s, p + c.len)->Ok_0;
        lemma_class_defs_cons(c, rest.classes);
        assert(encode_class_table(t) =~= encode_class_def(c) + encode_class_table(rest));
        assert(s.subrange(p, p + t.len) =~= s.subrange(p, p + c.len) + s.subrange(
            p + c.len,
            p + t.len,
        ));
    }
}

/// A class table reads only its own bytes.
pub proof fn lemma_class_table_local(s1: Seq<u8>, p1: int, s2: Seq<u8>, p2: int)
    requires
        parse_class_table(s1, p1) is Ok,
        agree(s1, p1, s2, p2, parse_class_table(s1, p1)->Ok_0.len as int),
    ensures
        parse_class_table(s2, p2) == parse_class_table(s1, p1),
    decreases s1.len() - p1,
{
    let n = parse_class_table(s1, p1)->Ok_0.len as int;
    lemma_agree_reads(s1, p1, s2, p2, n, 0);
    if be16(s1, p1) != CLASS_TABLE_TERMINATOR {
        let c = parse_class_def(s1, p1)->Ok_0;
        lemma_class_def_len(s1, p1);
        lemma_agree_sub(s1, p1, s2, p2, n, 0, c.len as int);
        lemma_class_def_local(s1, p1, s2, p2);
        lemma_agree_sub(s1, p1, s2, p2, n, c.len as int, n - c.len);
        lemma_class_table_local(s1, p1 + c.len, s2, p2 + c.len);
    }
}

/// Parsing a class table, writing it out again and parsing the bytes written
/// gives the same table.
pub proof fn lemma_class_table_round_trip(s: Seq<u8>, p: int)
    requires
        parse_class_table(s, p) is Ok,
    ensures
        encode_class_table(parse_class_table(s, p)->Ok_0).len() == parse_class_table(
            s,
            p,
        )->Ok_0.len,
        parse_class_table(encode_class_table(parse_class_table(s, p)->Ok_0), 0)
            == parse_class_table(s, p),
{
    let t = parse_class_table(s, p)->Ok_0;
    lemma_class_table_bytes(s, p);
    lemma_class_table_fits(s, p);
    lemma_agree_window(s, p, t.len as int);
    lemma_class_table_local(s, p, encode_class_table(t), 0);
}

} // verus!
