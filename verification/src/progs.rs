//! Loading compiled QuakeC programs (`progs.dat`, version 6).
use vstd::prelude::*;
use crate::bytes::{u16_at, u32_at, read_u16_at, read_u32_at};
use crate::msg::{zero_from, lemma_zero_from_bounds};
use crate::text::{str_from_utf8, chars_of, eq_ignore_ascii_case, seq_eq_ignore_ascii_case};

verus! {

pub const PROG_VERSION: i32 = 6;

#[derive(Debug, Clone, Copy, PartialEq, Eq)]
pub enum ProgsError {
    BufferTooSmall,
    UnsupportedVersion(i32),
    InvalidLump(&'static str),
    InvalidStringOffset(i32),
    InvalidUtf8,
}

#[derive(Debug, Clone, Copy, PartialEq, Eq)]
pub struct Statement {
    pub op: u16,
    pub a: i16,
    pub b: i16,
    pub c: i16,
}

#[derive(Debug, Clone, Copy, PartialEq, Eq)]
pub enum QcType {
    Void,
    String,
    Float,
    Vector,
    Entity,
    Field,
    Function,
    Pointer,
    Integer,
    Unknown(i16),
}

#[derive(Debug, Clone, PartialEq, Eq)]
pub struct Definition {
    pub ty: QcType,
    pub offset: i16,
    pub name: String,
    pub save_global: bool,
}

#[derive(Debug, Clone, PartialEq, Eq)]
pub struct Function {
    pub first_statement: i32,
    pub parm_start: i32,
    pub locals: i32,
    pub profile: i32,
    pub name: String,
    pub file: String,
    pub num_params: i32,
    pub param_sizes: [u8; 8],
}

#[derive(Debug, Clone, PartialEq, Eq)]
pub struct ProgsDat {
    pub version: i32,
    pub crc: i32,
    pub statements: Vec<Statement>,
    pub global_defs: Vec<Definition>,
    pub field_defs: Vec<Definition>,
    pub functions: Vec<Function>,
    pub strings: Vec<u8>,
    pub globals: Vec<u32>,
    pub entity_fields: i32,
}

pub struct DefinitionView {
    pub ty: QcType,
    pub offset: i16,
    pub name: Seq<char>,
    pub save_global: bool,
}

pub struct FunctionView {
    pub first_statement: i32,
    pub parm_start: i32,
    pub locals: i32,
    pub profile: i32,
    pub name: Seq<char>,
    pub file: Seq<char>,
    pub num_params: i32,
    pub param_sizes: Seq<u8>,
}

pub struct ProgsView {
    pub version: i32,
    pub crc: i32,
    pub statements: Seq<Statement>,
    pub global_defs: Seq<DefinitionView>,
    pub field_defs: Seq<DefinitionView>,
    pub functions: Seq<FunctionView>,
    pub strings: Seq<u8>,
    pub globals: Seq<u32>,
    pub entity_fields: i32,
}

impl View for Definition {
    type V = DefinitionView;

    open spec fn view(&self) -> DefinitionView {
        DefinitionView { ty: self.ty, offset: self.offset, name: self.name@, save_global: self.save_global }
    }
}

impl View for Function {
    type V = FunctionView;

    open spec fn view(&self) -> FunctionView {
        FunctionView {
            first_statement: self.first_statement,
            parm_start: self.parm_start,
            locals: self.locals,
            profile: self.profile,
            name: self.name@,
            file: self.file@,
            num_params: self.num_params,
            param_sizes: self.param_sizes@,
        }
    }
}

pub open spec fn def_views(v: Seq<Definition>) -> Seq<DefinitionView> {
    Seq::new(v.len(), |i: int| v[i]@)
}

pub open spec fn function_views(v: Seq<Function>) -> Seq<FunctionView> {
    Seq::new(v.len(), |i: int| v[i]@)
}

impl View for ProgsDat {
    type V = ProgsView;

    open spec fn view(&self) -> ProgsView {
        ProgsView {
            version: self.version,
            crc: self.crc,
            statements: self.statements@,
            global_defs: def_views(self.global_defs@),
            field_defs: def_views(self.field_defs@),
            functions: function_views(self.functions@),
            strings: self.strings@,
            globals: self.globals@,
            entity_fields: self.entity_fields,
        }
    }
}

pub open spec fn i32_at(b: Seq<u8>, at: int) -> i32 {
    u32_at(b, at) as i32
}

/// The text at `offset` in the string table: empty for a non-positive
/// offset, else the bytes up to the next zero, which must be UTF-8.
pub open spec fn spec_cstring(strings: Seq<u8>, offset: i32) -> Result<Seq<char>, ProgsError> {
    if offset <= 0 {
        Ok(Seq::empty())
    } else if offset >= strings.len() {
        Err(ProgsError::InvalidStringOffset(offset))
    } else {
        let b = strings.subrange(offset as int, zero_from(strings, offset as int));
        if vstd::utf8::valid_utf8(b) {
            Ok(vstd::utf8::decode_utf8(b))
        } else {
            Err(ProgsError::InvalidUtf8)
        }
    }
}

/// The bytes of a lump of `count` records of `elem` bytes at `offset`.
pub open spec fn spec_lump_bytes(bytes: Seq<u8>, offset: i32, count: i32, elem: int, name: &'static str) -> Result<Seq<u8>, ProgsError> {
    if count < 0 || offset < 0 || offset + count * elem > bytes.len() {
        Err(ProgsError::InvalidLump(name))
    } else {
        Ok(bytes.subrange(offset as int, offset + count * elem))
    }
}

pub open spec fn spec_statement(d: Seq<u8>, i: int) -> Statement {
    Statement {
        op: u16_at(d, 8 * i),
        a: u16_at(d, 8 * i + 2) as i16,
        b: u16_at(d, 8 * i + 4) as i16,
        c: u16_at(d, 8 * i + 6) as i16,
    }
}

pub open spec fn spec_qc_type(raw: i16) -> QcType {
    if raw == 0 {
        QcType::Void
    } else if raw == 1 {
        QcType::String
    } else if raw == 2 {
        QcType::Float
    } else if raw == 3 {
        QcType::Vector
    } else if raw == 4 {
        QcType::Entity
    } else if raw == 5 {
        QcType::Field
    } else if raw == 6 {
        QcType::Function
    } else if raw == 7 {
        QcType::Pointer
    } else if raw == 8 {
        QcType::Integer
    } else {
        QcType::Unknown(raw)
    }
}

/// The definitions from record `i` on, or the error of the first whose
/// name cannot be read.
pub open spec fn spec_defs_from(d: Seq<u8>, strings: Seq<u8>, i: int, count: int) -> Result<Seq<DefinitionView>, ProgsError>
    decreases count - i,
{
    if i >= count {
        Ok(Seq::empty())
    } else {
        let raw = u16_at(d, 8 * i) as i16;
        match spec_cstring(strings, i32_at(d, 8 * i + 4)) {
            Err(e) => Err(e),
            Ok(name) => match spec_defs_from(d, strings, i + 1, count) {
                Err(e) => Err(e),
                Ok(rest) => Ok(seq![DefinitionView {
                    ty: spec_qc_type(((raw as u16) & 0x7fff) as i16),
                    offset: u16_at(d, 8 * i + 2) as i16,
                    name,
                    save_global: (raw as u16) & 0x8000 != 0,
                }] + rest),
            },
        }
    }
}

pub open spec fn spec_functions_from(d: Seq<u8>, strings: Seq<u8>, i: int, count: int) -> Result<Seq<FunctionView>, ProgsError>
    decreases count - i,
{
    if i >= count {
        Ok(Seq::empty())
    } else {
        let base = 36 * i;
        match spec_cstring(strings, i32_at(d, base + 16)) {
            Err(e) => Err(e),
            Ok(name) => match spec_cstring(strings, i32_at(d, base + 20)) {
                Err(e) => Err(e),
                Ok(file) => match spec_functions_from(d, strings, i + 1, count) {
                    Err(e) => Err(e),
                    Ok(rest) => Ok(seq![FunctionView {
                        first_statement: i32_at(d, base),
                        parm_start: i32_at(d, base + 4),
                        locals: i32_at(d, base + 8),
                        profile: i32_at(d, base + 12),
                        name,
                        file,
                        num_params: i32_at(d, base + 24),
                        param_sizes: d.subrange(base + 28, base + 36),
                    }] + rest),
                },
            },
        }
    }
}

/// The program that `bytes` holds, or the first error found reading it:
/// the header, then the string table, statements, global and field
/// definitions, functions and globals, in that order.
pub open spec fn spec_progs(bytes: Seq<u8>) -> Result<ProgsView, ProgsError> {
    if bytes.len() < 60 {
        Err(ProgsError::BufferTooSmall)
    } else if i32_at(bytes, 0) != PROG_VERSION {
        Err(ProgsError::UnsupportedVersion(i32_at(bytes, 0)))
    } else {
        match spec_lump_bytes(bytes, i32_at(bytes, 40), i32_at(bytes, 44), 1, "strings") {
            Err(e) => Err(e),
            Ok(strings) => match spec_lump_bytes(bytes, i32_at(bytes, 8), i32_at(bytes, 12), 8, "statements") {
                Err(e) => Err(e),
                Ok(sd) => match spec_lump_bytes(bytes, i32_at(bytes, 16), i32_at(bytes, 20), 8, "defs") {
                    Err(e) => Err(e),
                    Ok(gd) => match spec_defs_from(gd, strings, 0, i32_at(bytes, 20) as int) {
                        Err(e) => Err(e),
                        Ok(global_defs) => match spec_lump_bytes(bytes, i32_at(bytes, 24), i32_at(bytes, 28), 8, "defs") {
                            Err(e) => Err(e),
                            Ok(fd) => match spec_defs_from(fd, strings, 0, i32_at(bytes, 28) as int) {
                                Err(e) => Err(e),
                                Ok(field_defs) => match spec_lump_bytes(bytes, i32_at(bytes, 32), i32_at(bytes, 36), 36, "functions") {
                                    Err(e) => Err(e),
                                    Ok(fnd) => match spec_functions_from(fnd, strings, 0, i32_at(bytes, 36) as int) {
                                        Err(e) => Err(e),
                                        Ok(functions) => match spec_lump_bytes(bytes, i32_at(bytes, 48), i32_at(bytes, 52), 4, "globals") {
                                            Err(e) => Err(e),
                                            Ok(gl) => Ok(ProgsView {
                                                version: i32_at(bytes, 0),
                                                crc: i32_at(bytes, 4),
                                                statements: Seq::new(i32_at(bytes, 12) as nat, |i: int| spec_statement(sd, i)),
                                                global_defs,
                                                field_defs,
                                                functions,
                                                strings,
                                                globals: Seq::new(i32_at(bytes, 52) as nat, |i: int| u32_at(gl, 4 * i)),
                                                entity_fields: i32_at(bytes, 56),
                                            }),
                                        },
                                    },
                                },
                            },
                        },
                    },
                },
            },
        }
    }
}

fn read_i32(bytes: &[u8], offset: usize) -> (r: i32)
    requires
        offset + 4 <= bytes.len(),
    ensures
        r == i32_at(bytes@, offset as int),
{
    read_u32_at(bytes, offset) as i32
}

/// The text at `offset` in a string table.
pub fn read_cstring(bytes: &[u8], offset: i32) -> (r: Result<String, ProgsError>)
    ensures
        match r {
            Ok(s) => spec_cstring(bytes@, offset) == Ok::<Seq<char>, ProgsError>(s@),
            Err(e) => spec_cstring(bytes@, offset) == Err::<Seq<char>, ProgsError>(e),
        },
{
    if offset <= 0 {
        return Ok(String::new());
    }
    let start = offset as usize;
    if start >= bytes.len() {
        return Err(ProgsError::InvalidStringOffset(offset));
    }
    proof {
        lemma_zero_from_bounds(bytes@, start as int);
    }
    let mut end = start;
    while end < bytes.len() && bytes[end] != 0
        invariant
            start <= end <= bytes@.len(),
            zero_from(bytes@, end as int) == zero_from(bytes@, start as int),
        decreases bytes@.len() - end,
    {
        end = end + 1;
    }
    match str_from_utf8(&bytes[start..end]) {
        Some(s) => Ok(s),
        None => Err(ProgsError::InvalidUtf8),
    }
}

/// The bytes of a lump of `count` records of `elem` bytes.
fn read_lump_bytes(bytes: &[u8], offset: i32, count: i32, elem: usize, name: &'static str) -> (r: Result<Vec<u8>, ProgsError>)
    requires
        1 <= elem <= 36,
    ensures
        match r {
            Ok(v) => spec_lump_bytes(bytes@, offset, count, elem as int, name) == Ok::<Seq<u8>, ProgsError>(v@),
            Err(e) => spec_lump_bytes(bytes@, offset, count, elem as int, name) == Err::<Seq<u8>, ProgsError>(e),
        },
{
    if count < 0 || offset < 0 {
        return Err(ProgsError::InvalidLump(name));
    }
    let c64 = count as u64;
    let e64 = elem as u64;
    assert(c64 * e64 <= 0x7fff_ffff * 36) by (nonlinear_arith)
        requires
            c64 <= 0x7fff_ffff,
            e64 <= 36,
    ;
    let size = c64 * e64;
    let start = offset as u64;
    if size > (bytes.len() as u64) || start > (bytes.len() as u64) - size {
        return Err(ProgsError::InvalidLump(name));
    }
    let s = start as usize;
    let n = size as usize;
    let mut out: Vec<u8> = Vec::new();
    let mut i: usize = 0;
    while i < n
        invariant
            s + n <= bytes.len(),
            i <= n,
            out@ == bytes@.subrange(s as int, s + i),
        decreases n - i,
    {
        out.push(bytes[s + i]);
        assert(out@ =~= bytes@.subrange(s as int, s + i + 1));
        i = i + 1;
    }
    Ok(out)
}

fn qc_type(raw: i16) -> (t: QcType)
    ensures
        t == spec_qc_type(raw),
{
    match raw {
        0 => QcType::Void,
        1 => QcType::String,
        2 => QcType::Float,
        3 => QcType::Vector,
        4 => QcType::Entity,
        5 => QcType::Field,
        6 => QcType::Function,
        7 => QcType::Pointer,
        8 => QcType::Integer,
        other => QcType::Unknown(other),
    }
}

fn read_statements(data: &[u8], count: usize) -> (r: Vec<Statement>)
    requires
        data.len() == 8 * count,
    ensures
        r@ == Seq::new(count as nat, |i: int| spec_statement(data@, i)),
{
    let mut out: Vec<Statement> = Vec::new();
    let mut i: usize = 0;
    while i < count
        invariant
            data.len() == 8 * count,
            i <= count,
            out@ == Seq::new(i as nat, |j: int| spec_statement(data@, j)),
        decreases count - i,
    {
        let base = 8 * i;
        let st = Statement {
            op: read_u16_at(data, base),
            a: read_u16_at(data, base + 2) as i16,
            b: read_u16_at(data, base + 4) as i16,
            c: read_u16_at(data, base + 6) as i16,
        };
        out.push(st);
        assert(out@ =~= Seq::new((i + 1) as nat, |j: int| spec_statement(data@, j)));
        i = i + 1;
    }
    out
}

fn read_globals(data: &[u8], count: usize) -> (r: Vec<u32>)
    requires
        data.len() == 4 * count,
    ensures
        r@ == Seq::new(count as nat, |i: int| u32_at(data@, 4 * i)),
{
    let mut out: Vec<u32> = Vec::new();
    let mut i: usize = 0;
    while i < count
        invariant
            data.len() == 4 * count,
            i <= count,
            out@ == Seq::new(i as nat, |j: int| u32_at(data@, 4 * j)),
        decreases count - i,
    {
        out.push(read_u32_at(data, 4 * i));
        assert(out@ =~= Seq::new((i + 1) as nat, |j: int| u32_at(data@, 4 * j)));
        i = i + 1;
    }
    out
}

/// A result with `p` put in front of its records.
pub open spec fn prepend<T>(p: Seq<T>, r: Result<Seq<T>, ProgsError>) -> Result<Seq<T>, ProgsError> {
    match r {
        Ok(x) => Ok(p + x),
        Err(e) => Err(e),
    }
}

fn read_defs(data: &[u8], count: usize, strings: &[u8]) -> (r: Result<Vec<Definition>, ProgsError>)
    requires
        data.len() == 8 * count,
    ensures
        match r {
            Ok(v) => spec_defs_from(data@, strings@, 0, count as int) == Ok::<Seq<DefinitionView>, ProgsError>(def_views(v@)),
            Err(e) => spec_defs_from(data@, strings@, 0, count as int) == Err::<Seq<DefinitionView>, ProgsError>(e),
        },
{
    let mut out: Vec<Definition> = Vec::new();
    let mut i: usize = 0;
    assert(def_views(out@) =~= Seq::<DefinitionView>::empty());
    assert(prepend(Seq::<DefinitionView>::empty(), spec_defs_from(data@, strings@, 0, count as int)) =~= spec_defs_from(data@, strings@, 0, count as int)) by {
        match spec_defs_from(data@, strings@, 0, count as int) {
            Ok(x) => { assert(Seq::<DefinitionView>::empty() + x =~= x); },
            Err(_) => {},
        }
    }
    while i < count
        invariant
            data.len() == 8 * count,
            i <= count,
            spec_defs_from(data@, strings@, 0, count as int) == prepend(def_views(out@), spec_defs_from(data@, strings@, i as int, count as int)),
        decreases count - i,
    {
        let base = 8 * i;
        let raw_type = read_u16_at(data, base) as i16;
        let offset = read_u16_at(data, base + 2) as i16;
        let name_offset = read_i32(data, base + 4);
        let name = read_cstring(strings, name_offset)?;
        let save_global = (raw_type as u16) & 0x8000 != 0;
        let ty = qc_type(((raw_type as u16) & 0x7fff) as i16);
        let ghost before = def_views(out@);
        let d = Definition { ty, offset, name, save_global };
        let ghost dv = d@;
        out.push(d);
        proof {
            assert(def_views(out@) =~= before.push(dv));
            match spec_defs_from(data@, strings@, i + 1, count as int) {
                Ok(x) => {
                    assert(before + (seq![dv] + x) =~= before.push(dv) + x);
                },
                Err(_) => {},
            }
        }
        i = i + 1;
    }
    proof {
        assert(def_views(out@) + Seq::<DefinitionView>::empty() =~= def_views(out@));
    }
    Ok(out)
}

fn read_functions(data: &[u8], count: usize, strings: &[u8]) -> (r: Result<Vec<Function>, ProgsError>)
    requires
        data.len() == 36 * count,
    ensures
        match r {
            Ok(v) => spec_functions_from(data@, strings@, 0, count as int) == Ok::<Seq<FunctionView>, ProgsError>(function_views(v@)),
            Err(e) => spec_functions_from(data@, strings@, 0, count as int) == Err::<Seq<FunctionView>, ProgsError>(e),
        },
{
    let mut out: Vec<Function> = Vec::new();
    let mut i: usize = 0;
    assert(function_views(out@) =~= Seq::<FunctionView>::empty());
    assert(prepend(Seq::<FunctionView>::empty(), spec_functions_from(data@, strings@, 0, count as int)) =~= spec_functions_from(data@, strings@, 0, count as int)) by {
        match spec_functions_from(data@, strings@, 0, count as int) {
            Ok(x) => { assert(Seq::<FunctionView>::empty() + x =~= x); },
            Err(_) => {},
        }
    }
    while i < count
        invariant
            data.len() == 36 * count,
            i <= count,
            spec_functions_from(data@, strings@, 0, count as int) == prepend(function_views(out@), spec_functions_from(data@, strings@, i as int, count as int)),
        decreases count - i,
    {
        let base = 36 * i;
        let first_statement = read_i32(data, base);
        let parm_start = read_i32(data, base + 4);
        let locals = read_i32(data, base + 8);
        let profile = read_i32(data, base + 12);
        let name_offset = read_i32(data, base + 16);
        let file_offset = read_i32(data, base + 20);
        let num_params = read_i32(data, base + 24);
        let param_sizes: [u8; 8] = [
            data[base + 28], data[base + 29], data[base + 30], data[base + 31],
            data[base + 32], data[base + 33], data[base + 34], data[base + 35],
        ];
        assert(param_sizes@ =~= data@.subrange(base + 28, base + 36));
        let name = read_cstring(strings, name_offset)?;
        let file = read_cstring(strings, file_offset)?;
        let ghost before = function_views(out@);
        let f = Function { first_statement, parm_start, locals, profile, name, file, num_params, param_sizes };
        let ghost fv = f@;
        out.push(f);
        proof {
            assert(function_views(out@) =~= before.push(fv));
            match spec_functions_from(data@, strings@, i + 1, count as int) {
                Ok(x) => {
                    assert(before + (seq![fv] + x) =~= before.push(fv) + x);
                },
                Err(_) => {},
            }
        }
        i = i + 1;
    }
    proof {
        assert(function_views(out@) + Seq::<FunctionView>::empty() =~= function_views(out@));
    }
    Ok(out)
}

/// The first index from `i` on whose name equals `name` up to ASCII case.
pub open spec fn first_named_from<T>(names: Seq<Seq<char>>, name: Seq<char>, i: int) -> Option<int>
    decreases names.len() - i,
{
    if i >= names.len() || i < 0 {
        None
    } else if seq_eq_ignore_ascii_case(names[i], name) {
        Some(i)
    } else {
        first_named_from::<T>(names, name, i + 1)
    }
}

pub open spec fn def_names(d: Seq<DefinitionView>) -> Seq<Seq<char>> {
    Seq::new(d.len(), |i: int| d[i].name)
}

pub open spec fn function_names(f: Seq<FunctionView>) -> Seq<Seq<char>> {
    Seq::new(f.len(), |i: int| f[i].name)
}

/// Index of the first definition named `name`.
fn find_def(defs: &Vec<Definition>, name: &[char]) -> (r: Option<usize>)
    ensures
        match r {
            Some(i) => first_named_from::<()>(def_names(def_views(defs@)), name@, 0) == Some(i as int) && i < defs@.len(),
            None => first_named_from::<()>(def_names(def_views(defs@)), name@, 0) is None,
        },
{
    let ghost names = def_names(def_views(defs@));
    let mut i: usize = 0;
    while i < defs.len()
        invariant
            i <= defs@.len(),
            names == def_names(def_views(defs@)),
            first_named_from::<()>(names, name@, i as int) == first_named_from::<()>(names, name@, 0),
        decreases defs@.len() - i,
    {
        let n = chars_of(defs[i].name.as_str());
        assert(names[i as int] == n@);
        if eq_ignore_ascii_case(&n, name) {
            return Some(i);
        }
        i = i + 1;
    }
    None
}

impl ProgsDat {
    pub fn from_bytes(bytes: &[u8]) -> (r: Result<Self, ProgsError>)
        ensures
            match r {
                Ok(p) => spec_progs(bytes@) == Ok::<ProgsView, ProgsError>(p@),
                Err(e) => spec_progs(bytes@) == Err::<ProgsView, ProgsError>(e),
            },
    {
        if bytes.len() < 60 {
            return Err(ProgsError::BufferTooSmall);
        }
        let version = read_i32(bytes, 0);
        if version != PROG_VERSION {
            return Err(ProgsError::UnsupportedVersion(version));
        }
        let crc = read_i32(bytes, 4);
        let st_ofs = read_i32(bytes, 8);
        let st_count = read_i32(bytes, 12);
        let gd_ofs = read_i32(bytes, 16);
        let gd_count = read_i32(bytes, 20);
        let fd_ofs = read_i32(bytes, 24);
        let fd_count = read_i32(bytes, 28);
        let fn_ofs = read_i32(bytes, 32);
        let fn_count = read_i32(bytes, 36);
        let str_ofs = read_i32(bytes, 40);
        let str_count = read_i32(bytes, 44);
        let gl_ofs = read_i32(bytes, 48);
        let gl_count = read_i32(bytes, 52);
        let entity_fields = read_i32(bytes, 56);

        let strings = read_lump_bytes(bytes, str_ofs, str_count, 1, "strings")?;
        let sd = read_lump_bytes(bytes, st_ofs, st_count, 8, "statements")?;
        let statements = read_statements(&sd, st_count as usize);
        let gd = read_lump_bytes(bytes, gd_ofs, gd_count, 8, "defs")?;
        let global_defs = read_defs(&gd, gd_count as usize, &strings)?;
        let fd = read_lump_bytes(bytes, fd_ofs, fd_count, 8, "defs")?;
        let field_defs = read_defs(&fd, fd_count as usize, &strings)?;
        let fnd = read_lump_bytes(bytes, fn_ofs, fn_count, 36, "functions")?;
        let functions = read_functions(&fnd, fn_count as usize, &strings)?;
        let gl = read_lump_bytes(bytes, gl_ofs, gl_count, 4, "globals")?;
        let globals = read_globals(&gl, gl_count as usize);
        let p = ProgsDat { version, crc, statements, global_defs, field_defs, functions, strings, globals, entity_fields };
        assert(p@ =~= spec_progs(bytes@)->Ok_0);
        Ok(p)
    }

    /// Index of the first function named `name`, ignoring ASCII case.
    pub fn function_index(&self, name: &str) -> (r: Option<usize>)
        ensures
            match r {
                Some(i) => first_named_from::<()>(function_names(self@.functions), name@, 0) == Some(i as int),
                None => first_named_from::<()>(function_names(self@.functions), name@, 0) is None,
            },
    {
        let key = chars_of(name);
        let ghost names = function_names(self@.functions);
        let mut i: usize = 0;
        while i < self.functions.len()
            invariant
                i <= self.functions@.len(),
                names == function_names(self@.functions),
                first_named_from::<()>(names, name@, i as int) == first_named_from::<()>(names, name@, 0),
                key@ == name@,
            decreases self.functions@.len() - i,
        {
            let n = chars_of(self.functions[i].name.as_str());
            assert(names[i as int] == n@);
            if eq_ignore_ascii_case(&n, &key) {
                return Some(i);
            }
            i = i + 1;
        }
        None
    }

    /// The first global definition named `name`, ignoring ASCII case.
    pub fn global_def(&self, name: &str) -> (r: Option<&Definition>)
        ensures
            match first_named_from::<()>(def_names(self@.global_defs), name@, 0) {
                Some(i) => r is Some && r->0@ == self@.global_defs[i],
                None => r is None,
            },
    {
        let key = chars_of(name);
        match find_def(&self.global_defs, &key) {
            Some(i) => Some(&self.global_defs[i]),
            None => None,
        }
    }

    /// The first field definition named `name`, ignoring ASCII case.
    pub fn field_def(&self, name: &str) -> (r: Option<&Definition>)
        ensures
            match first_named_from::<()>(def_names(self@.field_defs), name@, 0) {
                Some(i) => r is Some && r->0@ == self@.field_defs[i],
                None => r is None,
            },
    {
        let key = chars_of(name);
        match find_def(&self.field_defs, &key) {
            Some(i) => Some(&self.field_defs[i]),
            None => None,
        }
    }

    /// The text at `offset` in the string table.
    pub fn string_at(&self, offset: i32) -> (r: Result<String, ProgsError>)
        ensures
            match r {
                Ok(s) => spec_cstring(self@.strings, offset) == Ok::<Seq<char>, ProgsError>(s@),
                Err(e) => spec_cstring(self@.strings, offset) == Err::<Seq<char>, ProgsError>(e),
            },
    {
        read_cstring(self.strings.as_slice(), offset)
    }
}

} // verus!
