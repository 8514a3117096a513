//! Function definitions and the function table.
use vstd::prelude::*;

use crate::decode::{
    agree, be16, be64, copy_bytes, enc16, enc64, fits, lemma_agree_reads, lemma_agree_sub,
    lemma_agree_window, lemma_be16, lemma_be64, read_u16, read_u64, write_bytes, write_u16,
    write_u64,
};
use crate::error::{in_table, in_table_err, viewed, ExecutableFormatError};
use crate::types::{
    encode_operand, operand_at, operand_width, operand_width_of, read_operand, type_id,
    valid_type_id, write_operand, ConstantIndex, Type, TypeFlags,
};

verus! {

broadcast use vstd::seq_lib::group_seq_properties;

/// The value that ends a function table.
pub const FUNCTION_TABLE_TERMINATOR: u16 = 0xFADE;

/// What a function definition holds.
pub struct FunctionDefView {
    pub name: u16,
    pub return_type: u8,
    pub return_type_operand: Option<u16>,
    pub args_len: u16,
    pub args: Seq<u8>,
    pub code_len: u64,
    pub code: Seq<u8>,
    pub len: nat,
}

/// What a function table holds: its functions, and its length in bytes with
/// the terminator.
pub struct FunctionTableView {
    pub functions: Seq<FunctionDefView>,
    pub len: nat,
}

/// The function definition at `p`: `name:u16, return_type:u8, [operand],
/// args_len:u16, args:u8[args_len], code_len:u64, code:bytes[code_len]`.
pub open spec fn parse_function_def(s: Seq<u8>, p: int) -> Result<
    FunctionDefView,
    ExecutableFormatError,
> {
    if !fits(s, p, 3) {
        Err(ExecutableFormatError::Truncated)
    } else {
        let id = type_id(s[p + 2]);
        let q = p + 3 + operand_width(id);
        if !valid_type_id(id) {
            Err(ExecutableFormatError::IllegalTypeId(id))
        } else if !fits(s, p + 3, operand_width(id) as int) || !fits(s, q, 2) || !fits(
            s,
            q + 2,
            be16(s, q) as int,
        ) || !fits(s, q + 2 + be16(s, q), 8) || !fits(
            s,
            q + 10 + be16(s, q),
            be64(s, q + 2 + be16(s, q)) as int,
        ) {
            Err(ExecutableFormatError::Truncated)
        } else {
            let al = be16(s, q);
            let cl = be64(s, q + 2 + al);
            Ok(
                FunctionDefView {
                    name: be16(s, p),
                    return_type: s[p + 2],
                    return_type_operand: operand_at(s, p + 3, id),
                    args_len: al,
                    args: s.subrange(q + 2, q + 2 + al),
                    code_len: cl,
                    code: s.subrange(q + 10 + al, q + 10 + al + cl),
                    len: (13 + operand_width(id) + al + cl) as nat,
                },
            )
        }
    }
}

/// A parsed function definition lies inside the bytes and is at least 13
/// bytes long.
pub proof fn lemma_function_def_len(s: Seq<u8>, p: int)
    requires
        parse_function_def(s, p) is Ok,
    ensures
        parse_function_def(s, p)->Ok_0.len >= 13,
        fits(s, p, parse_function_def(s, p)->Ok_0.len as int),
{
}

/// The function table at `p`: function definitions up to the terminator
/// `0xFADE`.
pub open spec fn parse_function_table(s: Seq<u8>, p: int) -> Result<
    FunctionTableView,
    ExecutableFormatError,
>
    decreases s.len() - p,
{
    if !fits(s, p, 2) {
        Err(ExecutableFormatError::MissingTerminator)
    } else if be16(s, p) == FUNCTION_TABLE_TERMINATOR {
        Ok(FunctionTableView { functions: Seq::empty(), len: 2 })
    } else {
        match parse_function_def(s, p) {
            Err(e) => Err(in_table(e)),
            Ok(f) => {
                proof {
                    lemma_function_def_len(s, p);
                }
                match parse_function_table(s, p + f.len) {
                    Err(e) => Err(e),
                    Ok(t) => Ok(
                        FunctionTableView { functions: seq![f] + t.functions, len: f.len + t.len },
                    ),
                }
            },
        }
    }
}

/// The bytes of a function definition.
pub open spec fn encode_function_def(f: FunctionDefView) -> Seq<u8> {
    enc16(f.name) + seq![f.return_type] + encode_operand(
        type_id(f.return_type),
        f.return_type_operand,
    ) + enc16(f.args_len) + f.args + enc64(f.code_len) + f.code
}

/// The bytes of a run of function definitions.
pub open spec fn encode_function_defs(fs: Seq<FunctionDefView>) -> Seq<u8>
    decreases fs.len(),
{
    if fs.len() == 0 {
        Seq::empty()
    } else {
        encode_function_defs(fs.drop_last()) + encode_function_def(fs.last())
    }
}

/// The bytes of a function table.
pub open spec fn encode_function_table(t: FunctionTableView) -> Seq<u8> {
    encode_function_defs(t.functions) + enc16(FUNCTION_TABLE_TERMINATOR)
}

/// The bytes of a run that starts with `f`.
pub proof fn lemma_function_defs_cons(f: FunctionDefView, rest: Seq<FunctionDefView>)
    ensures
        encode_function_defs(seq![f] + rest) == encode_function_def(f) + encode_function_defs(rest),
    decreases rest.len(),
{
    if rest.len() == 0 {
        assert((seq![f] + rest).drop_last() =~= Seq::<FunctionDefView>::empty());
        assert(encode_function_defs(seq![f] + rest) =~= encode_function_def(f)
            + encode_function_defs(rest));
    } else {
        assert((seq![f] + rest).drop_last() =~= seq![f] + rest.drop_last());
        lemma_function_defs_cons(f, rest.drop_last());
        assert(encode_function_defs(seq![f] + rest) =~= encode_function_def(f)
            + encode_function_defs(rest));
    }
}

/// A function definition.
#[derive(Debug)]
pub struct FunctionDef {
    name: ConstantIndex,
    return_type: TypeFlags,
    return_type_operand: Option<u16>,
    args_len: u16,
    args: Vec<u8>,
    code_len: u64,
    code: Vec<u8>,
    len: usize,
}

/// A function table.
#[derive(Debug)]
pub struct FunctionTable {
    functions: Vec<FunctionDef>,
    len: usize,
}

impl View for FunctionDef {
    type V = FunctionDefView;

    closed spec fn view(&self) -> FunctionDefView {
        FunctionDefView {
            name: self.name,
            return_type: self.return_type,
            return_type_operand: self.return_type_operand,
            args_len: self.args_len,
            args: self.args@,
            code_len: self.code_len,
            code: self.code@,
            len: self.len as nat,
        }
    }
}

impl View for FunctionTable {
    type V = FunctionTableView;

    closed spec fn view(&self) -> FunctionTableView {
        FunctionTableView {
            functions: self.functions@.map_values(|f: FunctionDef| f@),
            len: self.len as nat,
        }
    }
}

impl FunctionDef {
    /// Parses the function definition at `start`.
    pub fn parse(bytes: &[u8], start: usize) -> (r: Result<FunctionDef, ExecutableFormatError>)
        ensures
            viewed(r) == parse_function_def(bytes@, start as int),
    {
        if start > bytes.len() || bytes.len() - start < 3 {
            return Err(ExecutableFormatError::Truncated);
        }
        let name = read_u16(bytes, start).unwrap();
        let return_type = bytes[start + 2];
        let id = return_type % 16;
        if Type::from_flags(return_type).is_none() {
            return Err(ExecutableFormatError::IllegalTypeId(id));
        }
        let return_type_operand = match read_operand(bytes, start + 3, id) {
            Some(op) => op,
            None => return Err(ExecutableFormatError::Truncated),
        };
        let q = start + 3 + operand_width_of(id);
        let args_len = match read_u16(bytes, q) {
            Some(v) => v,
            None => return Err(ExecutableFormatError::Truncated),
        };
        if bytes.len() - (q + 2) < args_len as usize {
            return Err(ExecutableFormatError::Truncated);
        }
        let args = copy_bytes(bytes, q + 2, args_len as usize);
        let r = q + 2 + args_len as usize;
        let code_len = match read_u64(bytes, r) {
            Some(v) => v,
            None => return Err(ExecutableFormatError::Truncated),
        };
        if ((bytes.len() - (r + 8)) as u64) < code_len {
            return Err(ExecutableFormatError::Truncated);
        }
        let code = copy_bytes(bytes, r + 8, code_len as usize);
        let len = r + 8 + code_len as usize - start;
        Ok(
            FunctionDef {
                name,
                return_type,
                return_type_operand,
                args_len,
                args,
                code_len,
                code,
                len,
            },
        )
    }

    /// The constant index of the function's name.
    pub fn name(&self) -> (r: ConstantIndex)
        ensures
            r == self@.name,
    {
        self.name
    }

    /// The type byte of the return value.
    pub fn return_type(&self) -> (r: TypeFlags)
        ensures
            r == self@.return_type,
    {
        self.return_type
    }

    /// The operand of the return type, if its type has one.
    pub fn return_type_operand(&self) -> (r: Option<u16>)
        ensures
            r == self@.return_type_operand,
    {
        self.return_type_operand
    }

    /// The number of arguments.
    pub fn args_len(&self) -> (r: u16)
        ensures
            r == self@.args_len,
    {
        self.args_len
    }

    /// The type bytes of the arguments.
    pub fn args(&self) -> (r: &Vec<u8>)
        ensures
            r@ == self@.args,
    {
        &self.args
    }

    /// The length of the bytecode.
    pub fn code_len(&self) -> (r: u64)
        ensures
            r == self@.code_len,
    {
        self.code_len
    }

    /// The bytecode.
    pub fn code(&self) -> (r: &Vec<u8>)
        ensures
            r@ == self@.code,
    {
        &self.code
    }

    /// The length of the encoded definition in bytes.
    pub fn len(&self) -> (r: usize)
        ensures
            r == self@.len,
    {
        self.len
    }

    /// Appends the bytes of this definition.
    pub fn emit(&self, out: &mut Vec<u8>)
        ensures
            final(out)@ == old(out)@ + encode_function_def(self@),
    {
        write_u16(out, self.name);
        out.push(self.return_type);
        write_operand(out, self.return_type % 16, self.return_type_operand);
        write_u16(out, self.args_len);
        write_bytes(out, self.args.as_slice());
        write_u64(out, self.code_len);
        write_bytes(out, self.code.as_slice());
        assert(out@ =~= old(out)@ + encode_function_def(self@));
    }
}

impl FunctionTable {
    /// Parses the function table at `start`.
    pub fn parse(bytes: &[u8], start: usize) -> (r: Result<FunctionTable, ExecutableFormatError>)
        ensures
            viewed(r) == parse_function_table(bytes@, start as int),
    {
        let mut functions: Vec<FunctionDef> = Vec::new();
        let mut p: usize = start;
        loop
            invariant
                start <= p,
                match parse_function_table(bytes@, p as int) {
                    Ok(t) => parse_function_table(bytes@, start as int) == Ok::<
                        FunctionTableView,
                        ExecutableFormatError,
                    >(
                        FunctionTableView {
                            functions: functions@.map_values(|f: FunctionDef| f@) + t.functions,
                            len: ((p - start) + t.len) as nat,
                        },
                    ),
                    Err(e) => parse_function_table(bytes@, start as int) == Err::<
                        FunctionTableView,
                        ExecutableFormatError,
                    >(e),
                },
            decreases bytes.len() - p,
        {
            let ghost fv = functions@.map_values(|f: FunctionDef| f@);
            match read_u16(bytes, p) {
                None => return Err(ExecutableFormatError::MissingTerminator),
                Some(t) => {
                    if t == FUNCTION_TABLE_TERMINATOR {
                        let r = FunctionTable { functions, len: p - start + 2 };
                        assert(fv + Seq::<FunctionDefView>::empty() =~= fv);
                        return Ok(r);
                    }
                },
            }
            match FunctionDef::parse(bytes, p) {
                Err(e) => return Err(in_table_err(e)),
                Ok(f) => {
                    proof {
                        lemma_function_def_len(bytes@, p as int);
                    }
                    let l = f.len;
                    functions.push(f);
                    proof {
                        let t = parse_function_table(bytes@, p + l);
                        if t is Ok {
                            assert(functions@.map_values(|f: FunctionDef| f@) + t->Ok_0.functions
                                =~= fv + (seq![f@] + t->Ok_0.functions));
                        }
                    }
                    p = p + l;
                },
            }
        }
    }

    /// The table's functions, in order.
    pub fn functions(&self) -> (r: &Vec<FunctionDef>)
        ensures
            r@.map_values(|f: FunctionDef| f@) == self@.functions,
    {
        &self.functions
    }

    /// The length of the encoded table in bytes, terminator included.
    pub fn len(&self) -> (r: usize)
        ensures
            r == self@.len,
    {
        self.len
    }

    /// The bytes of this table.
    pub fn emit(&self) -> (r: Vec<u8>)
        ensures
            r@ == encode_function_table(self@),
    {
        let mut out: Vec<u8> = Vec::new();
        self.emit_into(&mut out);
        out
    }

    /// Appends the bytes of this table.
    pub fn emit_into(&self, out: &mut Vec<u8>)
        ensures
            final(out)@ == old(out)@ + encode_function_table(self@),
    {
        let ghost fv = self.functions@.map_values(|f: FunctionDef| f@);
        let mut i: usize = 0;
        while i < self.functions.len()
            invariant
                i <= self.functions.len(),
                fv == self.functions@.map_values(|f: FunctionDef| f@),
                out@ == old(out)@ + encode_function_defs(fv.take(i as int)),
            decreases self.functions.len() - i,
        {
            self.functions[i].emit(out);
            proof {
                assert(fv[i as int] == self.functions@[i as int]@);
                assert(fv.take(i + 1).drop_last() =~= fv.take(i as int));
            }
            i = i + 1;
        }
        write_u16(out, FUNCTION_TABLE_TERMINATOR);
        assert(fv.take(i as int) =~= fv);
    }
}

/// The bytes of a parsed function definition are the bytes it was parsed from.
pub proof fn lemma_function_def_bytes(s: Seq<u8>, p: int)
    requires
        parse_function_def(s, p) is Ok,
    ensures
        encode_function_def(parse_function_def(s, p)->Ok_0) == s.subrange(
            p,
            p + parse_function_def(s, p)->Ok_0.len,
        ),
{
    let f = parse_function_def(s, p)->Ok_0;
    let id = type_id(s[p + 2]);
    let q = p + 3 + operand_width(id);
    lemma_be16(0, s, p);
    if operand_width(id) == 2 {
        lemma_be16(0, s, p + 3);
    }
    lemma_be16(0, s, q);
    lemma_be64(0, s, q + 2 + f.args_len);
    assert(encode_function_def(f) =~= s.subrange(p, p + f.len));
}

/// A function definition reads only its own bytes.
pub proof fn lemma_function_def_local(s1: Seq<u8>, p1: int, s2: Seq<u8>, p2: int)
    requires
        parse_function_def(s1, p1) is Ok,
        agree(s1, p1, s2, p2, parse_function_def(s1, p1)->Ok_0.len as int),
    ensures
        parse_function_def(s2, p2) == parse_function_def(s1, p1),
{
    let f = parse_function_def(s1, p1)->Ok_0;
    let n = f.len as int;
    let w = operand_width(type_id(s1[p1 + 2])) as int;
    let al = f.args_len as int;
    let cl = f.code_len as int;
    lemma_agree_reads(s1, p1, s2, p2, n, 0);
    lemma_agree_reads(s1, p1, s2, p2, n, 2);
    lemma_agree_reads(s1, p1, s2, p2, n, 3);
    lemma_agree_reads(s1, p1, s2, p2, n, 3 + w);
    lemma_agree_reads(s1, p1, s2, p2, n, 5 + w + al);
    lemma_agree_sub(s1, p1, s2, p2, n, 5 + w, al);
    lemma_agree_sub(s1, p1, s2, p2, n, 13 + w + al, cl);
}

/// A parsed function table lies inside the bytes and its length runs from its
/// start to the end of its terminator; one with a function in it
/// is at least 15 bytes long.
pub proof fn lemma_function_table_fits(s: Seq<u8>, p: int)
    requires
        parse_function_table(s, p) is Ok,
    ensures
        parse_function_table(s, p)->Ok_0.len >= 2,
        fits(s, p, parse_function_table(s, p)->Ok_0.len as int),
        be16(s, p) != FUNCTION_TABLE_TERMINATOR ==> parse_function_table(s, p)->Ok_0.len >= 15,
        be16(s, p + parse_function_table(s, p)->Ok_0.len - 2) == FUNCTION_TABLE_TERMINATOR,
    decreases s.len() - p,
{
    if be16(s, p) != FUNCTION_TABLE_TERMINATOR {
        let f = parse_function_def(s, p)->Ok_0;
        lemma_function_def_len(s, p);
        lemma_function_table_fits(s, p + f.len);
    }
}

/// The bytes of a parsed function table are the bytes it was parsed from.
pub proof fn lemma_function_table_bytes(s: Seq<u8>, p: int)
    requires
        parse_function_table(s, p) is Ok,
    ensures
        encode_function_table(parse_function_table(s, p)->Ok_0) == s.subrange(
            p,
            p + parse_function_table(s, p)->Ok_0.len,
        ),
    decreases s.len() - p,
{
    let t = parse_function_table(s, p)->Ok_0;
    lemma_be16(0, s, p);
    lemma_function_table_fits(s, p);
    if be16(s, p) == FUNCTION_TABLE_TERMINATOR {
        assert(encode_function_table(t) =~= s.subrange(p, p + 2));
    } else {
        let f = parse_function_def(s, p)->Ok_0;
        lemma_function_def_len(s, p);
        lemma_function_def_bytes(s, p);
        lemma_function_table_bytes(s, p + f.len);
        lemma_function_table_fits(s, p + f.len);
        let rest = parse_function_table(s, p + f.len)->Ok_0;
        lemma_function_defs_cons(f, rest.functions);
        assert(encode_function_table(t) =~= encode_function_def(f) + encode_function_table(rest));
        assert(s.subrange(p, p + t.len) =~= s.subrange(p, p + f.len) + s.subrange(
            p + f.len,
            p + t.len,
        ));
    }
}

/// A function table reads only its own bytes.
pub proof fn lemma_function_table_local(s1: Seq<u8>, p1: int, s2: Seq<u8>, p2: int)
    requires
        parse_function_table(s1, p1) is Ok,
        agree(s1, p1, s2, p2, parse_function_table(s1, p1)->Ok_0.len as int),
    ensures
        parse_function_table(s2, p2) == parse_function_table(s1, p1),
    decreases s1.len() - p1,
{
    let n = parse_function_table(s1, p1)->Ok_0.len as int;
    lemma_agree_reads(s1, p1, s2, p2, n, 0);
    if be16(s1, p1) != FUNCTION_TABLE_TERMINATOR {
        let f = parse_function_def(s1, p1)->Ok_0;
        lemma_function_def_len(s1, p1);
        lemma_agree_sub(s1, p1, s2, p2, n, 0, f.len as int);
        lemma_function_def_local(s1, p1, s2, p2);
        lemma_agree_sub(s1, p1, s2, p2, n, f.len as int, n - f.len);
        lemma_function_table_local(s1, p1 + f.len, s2, p2 + f.len);
    }
}

/// Parsing a function table, writing it out again and parsing the bytes
/// written gives the same table.
pub proof fn lemma_function_table_round_trip(s: Seq<u8>, p: int)
    requires
        parse_function_table(s, p) is Ok,
    ensures
        encode_function_table(parse_function_table(s, p)->Ok_0).len() == parse_function_table(
            s,
            p,
        )->Ok_0.len,
        parse_function_table(encode_function_table(parse_function_table(s, p)->Ok_0), 0)
            == parse_function_table(s, p),
{
    let t = parse_function_table(s, p)->Ok_0;
    lemma_function_table_bytes(s, p);
    lemma_function_table_fits(s, p);
    lemma_agree_window(s, p, t.len as int);
    lemma_function_table_local(s, p, encode_function_table(t), 0);
}

} // verus!
