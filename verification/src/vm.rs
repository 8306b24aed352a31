//! The QuakeC virtual machine: globals, entity fields, call frames and the
//! bytecode interpreter.
//!
//! Values are 32-bit words. Comparisons, tests and entity numbers read
//! words as IEEE single-precision numbers by their bits. Arithmetic on
//! those numbers, and the builtins, are work that the host performs: the
//! interpreter stops at such a statement and says so, and the host resumes
//! it afterwards.
use vstd::prelude::*;
use crate::progs::{ProgsDat, ProgsView, Statement, Definition, FunctionView, first_named_from, function_names, def_names};

verus! {

#[derive(Debug, Clone, Copy, PartialEq, Eq)]
pub enum VmError {
    BadGlobal(i16),
    BadStatement(i32),
    BadFunction(i32),
    BadEdict(i32),
    BadField(i32),
    UnsupportedOpcode(u16),
    BuiltinNotRegistered(i32),
    StepLimit,
}

/// One active function call.
#[derive(Debug, Clone, Copy, PartialEq, Eq)]
pub struct CallFrame {
    pub function_index: usize,
    pub statement_index: i32,
    pub local_base: usize,
    pub locals: usize,
    pub return_statement: Option<i32>,
}

/// Why the interpreter stopped.
#[derive(Debug, Clone, Copy, PartialEq, Eq)]
pub enum Pause {
    /// No call is active any more.
    Finished,
    /// The builtin whose function has this (negative) first statement is
    /// to be called now.
    Builtin(i32),
    /// The statement, a floating-point arithmetic or bitwise operation, is
    /// to be performed now; the statement index has not moved yet.
    Arithmetic(Statement),
}

/// How a run ended and how many statements it executed.
#[derive(Debug, Clone, Copy, PartialEq, Eq)]
pub struct Run {
    pub pause: Pause,
    pub steps: usize,
}

pub const OP_DONE: u16 = 0;
pub const OP_MUL_F: u16 = 1;
pub const OP_MUL_V: u16 = 2;
pub const OP_MUL_FV: u16 = 3;
pub const OP_MUL_VF: u16 = 4;
pub const OP_DIV_F: u16 = 5;
pub const OP_ADD_F: u16 = 6;
pub const OP_ADD_V: u16 = 7;
pub const OP_SUB_F: u16 = 8;
pub const OP_SUB_V: u16 = 9;
pub const OP_EQ_F: u16 = 10;
pub const OP_EQ_V: u16 = 11;
pub const OP_EQ_S: u16 = 12;
pub const OP_EQ_E: u16 = 13;
pub const OP_EQ_FNC: u16 = 14;
pub const OP_NE_F: u16 = 15;
pub const OP_NE_V: u16 = 16;
pub const OP_NE_S: u16 = 17;
pub const OP_NE_E: u16 = 18;
pub const OP_NE_FNC: u16 = 19;
pub const OP_LE: u16 = 20;
pub const OP_GE: u16 = 21;
pub const OP_LT: u16 = 22;
pub const OP_GT: u16 = 23;
pub const OP_LOAD_F: u16 = 24;
pub const OP_LOAD_V: u16 = 25;
pub const OP_LOAD_S: u16 = 26;
pub const OP_LOAD_ENT: u16 = 27;
pub const OP_LOAD_FLD: u16 = 28;
pub const OP_LOAD_FNC: u16 = 29;
pub const OP_ADDRESS: u16 = 30;
pub const OP_STORE_F: u16 = 31;
pub const OP_STORE_V: u16 = 32;
pub const OP_STORE_S: u16 = 33;
pub const OP_STORE_ENT: u16 = 34;
pub const OP_STORE_FLD: u16 = 35;
pub const OP_STORE_FNC: u16 = 36;
pub const OP_STOREP_F: u16 = 37;
pub const OP_STOREP_V: u16 = 38;
pub const OP_STOREP_S: u16 = 39;
pub const OP_STOREP_ENT: u16 = 40;
pub const OP_STOREP_FLD: u16 = 41;
pub const OP_STOREP_FNC: u16 = 42;
pub const OP_RETURN: u16 = 43;
pub const OP_NOT_F: u16 = 44;
pub const OP_NOT_V: u16 = 45;
pub const OP_NOT_S: u16 = 46;
pub const OP_NOT_ENT: u16 = 47;
pub const OP_NOT_FNC: u16 = 48;
pub const OP_IF: u16 = 49;
pub const OP_IFNOT: u16 = 50;
pub const OP_CALL0: u16 = 51;
pub const OP_CALL8: u16 = 59;
pub const OP_GOTO: u16 = 61;
pub const OP_AND: u16 = 62;
pub const OP_OR: u16 = 63;
pub const OP_BITAND: u16 = 64;
pub const OP_BITOR: u16 = 65;

pub const OFS_RETURN: usize = 0;
pub const OFS_PARM0: usize = 4;

// ---- single-precision numbers by their bits ----

pub open spec fn f32_is_zero(b: u32) -> bool {
    b & 0x7fff_ffff == 0
}

pub open spec fn f32_is_nan(b: u32) -> bool {
    b & 0x7f80_0000 == 0x7f80_0000 && b & 0x007f_ffff != 0
}

/// An integer that orders non-NaN numbers as their values do, with both
/// zeros equal.
pub open spec fn f32_key(b: u32) -> int {
    if b & 0x8000_0000 != 0 {
        -((b & 0x7fff_ffff) as int)
    } else {
        (b & 0x7fff_ffff) as int
    }
}

pub open spec fn f32_eq(a: u32, b: u32) -> bool {
    !f32_is_nan(a) && !f32_is_nan(b) && f32_key(a) == f32_key(b)
}

pub open spec fn f32_lt(a: u32, b: u32) -> bool {
    !f32_is_nan(a) && !f32_is_nan(b) && f32_key(a) < f32_key(b)
}

pub open spec fn f32_le(a: u32, b: u32) -> bool {
    !f32_is_nan(a) && !f32_is_nan(b) && f32_key(a) <= f32_key(b)
}

/// The bits of 1.0 for true, of 0.0 for false.
pub open spec fn f32_bool(b: bool) -> u32 {
    if b { 0x3f80_0000 } else { 0 }
}

/// A number converted to a 32-bit integer as `as i32` does: toward zero,
/// saturating, NaN to zero.
pub open spec fn f32_trunc_i32(b: u32) -> i32 {
    let exp = (b >> 23) & 0xff;
    let m: u64 = ((b & 0x7f_ffff) | 0x80_0000) as u64;
    let neg = b & 0x8000_0000 != 0;
    if f32_is_nan(b) {
        0
    } else if exp < 127 {
        0
    } else if exp >= 158 {
        if neg { i32::MIN } else { i32::MAX }
    } else {
        let mag: u64 = if exp >= 150 { m << ((exp - 150) as u64) } else { m >> ((150 - exp) as u64) };
        if neg { (-(mag as int)) as i32 } else { mag as i32 }
    }
}

pub fn f32_bits_is_zero(b: u32) -> (r: bool)
    ensures
        r == f32_is_zero(b),
{
    b & 0x7fff_ffff == 0
}

fn f32_bits_is_nan(b: u32) -> (r: bool)
    ensures
        r == f32_is_nan(b),
{
    b & 0x7f80_0000 == 0x7f80_0000 && b & 0x007f_ffff != 0
}

fn f32_bits_key(b: u32) -> (r: i64)
    ensures
        r == f32_key(b),
{
    let m = (b & 0x7fff_ffff) as i64;
    if b & 0x8000_0000 != 0 { -m } else { m }
}

pub fn f32_bits_eq(a: u32, b: u32) -> (r: bool)
    ensures
        r == f32_eq(a, b),
{
    !f32_bits_is_nan(a) && !f32_bits_is_nan(b) && f32_bits_key(a) == f32_bits_key(b)
}

pub fn f32_bits_lt(a: u32, b: u32) -> (r: bool)
    ensures
        r == f32_lt(a, b),
{
    !f32_bits_is_nan(a) && !f32_bits_is_nan(b) && f32_bits_key(a) < f32_bits_key(b)
}

pub fn f32_bits_le(a: u32, b: u32) -> (r: bool)
    ensures
        r == f32_le(a, b),
{
    !f32_bits_is_nan(a) && !f32_bits_is_nan(b) && f32_bits_key(a) <= f32_bits_key(b)
}

fn f32_bits_bool(b: bool) -> (r: u32)
    ensures
        r == f32_bool(b),
{
    if b { 0x3f80_0000 } else { 0 }
}

pub fn f32_bits_trunc_i32(b: u32) -> (r: i32)
    ensures
        r == f32_trunc_i32(b),
{
    let exp = (b >> 23) & 0xff;
    let m: u64 = ((b & 0x7f_ffff) | 0x80_0000) as u64;
    assert(((b & 0x7f_ffff) | 0x80_0000) < 0x100_0000) by (bit_vector);
    let neg = b & 0x8000_0000 != 0;
    if f32_bits_is_nan(b) {
        0
    } else if exp < 127 {
        0
    } else if exp >= 158 {
        if neg { i32::MIN } else { i32::MAX }
    } else {
        let mag: u64 = if exp >= 150 { m << ((exp - 150) as u64) } else { m >> ((150 - exp) as u64) };
        assert(mag < 0x8000_0000) by (bit_vector)
            requires
                m < 0x100_0000,
                127 <= exp < 158,
                mag == if exp >= 150 { m << ((exp - 150) as u64) } else { m >> ((150 - exp) as u64) },
        ;
        if neg { (-(mag as i64)) as i32 } else { mag as i32 }
    }
}

// ---- the machine's state ----

pub struct VmView {
    pub progs: ProgsView,
    pub globals: Seq<u32>,
    pub locals: Seq<u32>,
    pub frames: Seq<CallFrame>,
    pub edicts: Seq<Seq<u32>>,
    pub builtins: Seq<bool>,
}

/// The frames' locals lie on the local stack in call order, and each frame
/// names a function of the program.
pub open spec fn frames_ok(v: VmView) -> bool {
    forall|i: int| 0 <= i < v.frames.len() ==> {
        &&& (#[trigger] v.frames[i]).function_index < v.progs.functions.len()
        &&& v.frames[i].local_base + v.frames[i].locals <= (if i + 1 < v.frames.len() { v.frames[i + 1].local_base as int } else { v.locals.len() as int })
    }
}

pub open spec fn vm_ok(v: VmView) -> bool {
    frames_ok(v) && edicts_sized(v)
}

pub open spec fn spec_global_index(v: VmView, ofs: i16) -> Result<int, VmError> {
    if ofs < 0 || ofs >= v.globals.len() {
        Err(VmError::BadGlobal(ofs))
    } else {
        Ok(ofs as int)
    }
}

pub open spec fn spec_read_raw(v: VmView, ofs: i16) -> Result<u32, VmError> {
    match spec_global_index(v, ofs) {
        Ok(i) => Ok(v.globals[i]),
        Err(e) => Err(e),
    }
}

pub open spec fn spec_write_raw(v: VmView, ofs: i16, value: u32) -> (VmView, Result<(), VmError>) {
    match spec_global_index(v, ofs) {
        Ok(i) => (VmView { globals: v.globals.update(i, value), ..v }, Ok(())),
        Err(e) => (v, Err(e)),
    }
}

/// The entity number held at `ofs`.
pub open spec fn spec_read_ent(v: VmView, ofs: i16) -> Result<int, VmError> {
    match spec_read_raw(v, ofs) {
        Err(e) => Err(e),
        Ok(raw) => {
            let idx = f32_trunc_i32(raw);
            if idx < 0 || idx >= v.edicts.len() {
                Err(VmError::BadEdict(idx))
            } else {
                Ok(idx as int)
            }
        },
    }
}

pub open spec fn spec_edict_field(v: VmView, entity: int, field: int, size: int) -> Result<Seq<u32>, VmError> {
    if entity >= v.edicts.len() {
        Err(VmError::BadEdict(entity as i32))
    } else if field + size > v.edicts[entity].len() {
        Err(VmError::BadField(field as i32))
    } else {
        Ok(v.edicts[entity].subrange(field, field + size))
    }
}

/// Every entity has as many fields as the program declares.
pub open spec fn edicts_sized(v: VmView) -> bool {
    forall|i: int| 0 <= i < v.edicts.len() ==> (#[trigger] v.edicts[i]).len() == nonneg(v.progs.entity_fields)
}

/// Two machines whose entities have the same number of fields each.
pub open spec fn same_shape(a: VmView, b: VmView) -> bool {
    &&& a.progs == b.progs
    &&& a.edicts.len() == b.edicts.len()
    &&& forall|i: int| 0 <= i < a.edicts.len() ==> (#[trigger] a.edicts[i]).len() == b.edicts[i].len()
}

/// Writing `values` into entity `entity` from field `field`: refused for a
/// missing entity or a range past its fields, else the fields replaced.
pub open spec fn spec_write_edict(v: VmView, entity: int, field: int, values: Seq<u32>) -> (VmView, Result<(), VmError>) {
    if entity >= v.edicts.len() {
        (v, Err(VmError::BadEdict(entity as i32)))
    } else if field + values.len() > v.edicts[entity].len() {
        (v, Err(VmError::BadField(field as i32)))
    } else {
        (VmView { edicts: v.edicts.update(entity, copy_words(v.edicts[entity], values, 0, field, values.len() as int)), ..v }, Ok(()))
    }
}

/// `s` with `count` words written at `dst` from `src`, a copy taken first.
pub open spec fn copy_words(s: Seq<u32>, src: Seq<u32>, src_at: int, dst: int, count: int) -> Seq<u32> {
    Seq::new(s.len(), |k: int| if dst <= k < dst + count { src[src_at + k - dst] } else { s[k] })
}

pub open spec fn spec_copy_global(v: VmView, src: i16, dst: int, count: int) -> (VmView, Result<(), VmError>) {
    if count == 0 {
        (v, Ok(()))
    } else {
        match spec_global_index(v, src) {
            Err(e) => (v, Err(e)),
            Ok(s) => if s + count > v.globals.len() || dst + count > v.globals.len() {
                (v, Err(VmError::BadGlobal(s as i16)))
            } else {
                (VmView { globals: copy_words(v.globals, v.globals, s, dst, count), ..v }, Ok(()))
            },
        }
    }
}

pub open spec fn spec_store_pointer(v: VmView, ptr: u32, src: i16, count: int) -> (VmView, Result<(), VmError>) {
    let entity = (ptr >> 16) as int;
    let field = (ptr & 0xffff) as int;
    if count == 0 {
        (v, Ok(()))
    } else {
        match spec_global_index(v, src) {
            Err(e) => (v, Err(e)),
            Ok(s) => if entity >= v.edicts.len() {
                (v, Err(VmError::BadEdict(entity as i32)))
            } else if s + count > v.globals.len() || field + count > v.edicts[entity].len() {
                (v, Err(VmError::BadField(field as i32)))
            } else {
                (VmView { edicts: v.edicts.update(entity, copy_words(v.edicts[entity], v.globals, s, field, count)), ..v }, Ok(()))
            },
        }
    }
}

pub open spec fn nonneg(x: i32) -> int {
    if x < 0 { 0 } else { x as int }
}

/// Whether the builtin that a function with this first statement names is
/// registered.
pub open spec fn builtin_registered(v: VmView, first_statement: i32) -> bool {
    first_statement != i32::MIN && -first_statement < v.builtins.len() && v.builtins[-first_statement]
}

/// Copies the parameters `i` to `n` into a function's locals from `dst` on.
pub open spec fn spec_copy_params(v: VmView, sizes: Seq<u8>, i: int, n: int, dst: int) -> (VmView, Result<(), VmError>)
    decreases n - i,
{
    if i >= n {
        (v, Ok(()))
    } else {
        let r = spec_copy_global(v, (OFS_PARM0 + i * 3) as i16, dst, sizes[i] as int);
        match r.1 {
            Err(e) => (r.0, Err(e)),
            Ok(_) => spec_copy_params(r.0, sizes, i + 1, n, dst + sizes[i]),
        }
    }
}

/// What entering a function led to.
#[derive(Debug, Clone, Copy, PartialEq, Eq)]
pub enum Entered {
    Pushed,
    Builtin(i32),
}

/// Entering function `index`: a builtin is reported, provided it is
/// registered; otherwise the function's locals are saved on the local stack,
/// the parameters copied into them and a frame pushed.
pub open spec fn spec_enter(v: VmView, index: int, ret: Option<i32>) -> (VmView, Result<Entered, VmError>) {
    if index >= v.progs.functions.len() {
        (v, Err(VmError::BadFunction(index as i32)))
    } else {
        let f = v.progs.functions[index];
        if f.first_statement < 0 {
            if builtin_registered(v, f.first_statement) {
                (v, Ok(Entered::Builtin(f.first_statement)))
            } else {
                (v, Err(VmError::BuiltinNotRegistered(f.first_statement)))
            }
        } else {
            let ps = nonneg(f.parm_start);
            let nl = nonneg(f.locals);
            if ps + nl > v.globals.len() {
                (v, Err(VmError::BadGlobal(f.parm_start as i16)))
            } else {
                let v1 = VmView { locals: v.locals + v.globals.subrange(ps, ps + nl), ..v };
                let n = if nonneg(f.num_params) < 8 { nonneg(f.num_params) } else { 8 };
                let r = spec_copy_params(v1, f.param_sizes, 0, n, ps);
                match r.1 {
                    Err(e) => (r.0, Err(e)),
                    Ok(_) => (VmView {
                        frames: r.0.frames.push(CallFrame {
                            function_index: index as usize,
                            statement_index: f.first_statement,
                            local_base: v.locals.len() as usize,
                            locals: nl as usize,
                            return_statement: ret,
                        }),
                        ..r.0
                    }, Ok(Entered::Pushed)),
                }
            }
        }
    }
}

/// Leaving the innermost call: its locals are restored from the local
/// stack, the stack is cut back, and the caller goes on at the return
/// statement.
pub open spec fn spec_leave(v: VmView) -> VmView {
    if v.frames.len() == 0 {
        v
    } else {
        let fr = v.frames.last();
        let frames1 = v.frames.drop_last();
        if fr.function_index >= v.progs.functions.len() {
            VmView { frames: frames1, ..v }
        } else {
            let ps = nonneg(v.progs.functions[fr.function_index as int].parm_start);
            let g = if ps + fr.locals <= v.globals.len() {
                copy_words(v.globals, v.locals, fr.local_base as int, ps, fr.locals as int)
            } else {
                v.globals
            };
            let frames2 = match fr.return_statement {
                Some(rs) => if frames1.len() > 0 {
                    frames1.update(frames1.len() - 1, CallFrame { statement_index: rs, ..frames1.last() })
                } else {
                    frames1
                },
                None => frames1,
            };
            VmView { globals: g, locals: v.locals.take(fr.local_base as int), frames: frames2, ..v }
        }
    }
}

/// The innermost frame moved to statement `next`.
pub open spec fn advance(v: VmView, next: i32) -> VmView {
    let fi = v.frames.len() - 1;
    VmView { frames: v.frames.update(fi, CallFrame { statement_index: next, ..v.frames[fi] }), ..v }
}

/// An operation that the host performs.
pub open spec fn is_arithmetic(op: u16) -> bool {
    op == OP_MUL_F || op == OP_MUL_V || op == OP_MUL_FV || op == OP_MUL_VF || op == OP_DIV_F
        || op == OP_ADD_F || op == OP_ADD_V || op == OP_SUB_F || op == OP_SUB_V
        || op == OP_BITAND || op == OP_BITOR
}

/// Writes the truth value `b` at `c` and moves on.
pub open spec fn write_bool_next(v: VmView, c: i16, b: bool, next: i32) -> (VmView, Result<Option<Pause>, VmError>) {
    let w = spec_write_raw(v, c, f32_bool(b));
    match w.1 {
        Err(e) => (w.0, Err(e)),
        Ok(_) => (advance(w.0, next), Ok(None)),
    }
}

/// Moves on after an operation with result `r`.
pub open spec fn then_next(r: (VmView, Result<(), VmError>), next: i32) -> (VmView, Result<Option<Pause>, VmError>) {
    match r.1 {
        Err(e) => (r.0, Err(e)),
        Ok(_) => (advance(r.0, next), Ok(None)),
    }
}

/// The offset `k` words past `o`; past the 16-bit range the statement at
/// `si` cannot go on.
pub open spec fn spec_offset(si: i32, o: i16, k: int) -> Result<i16, VmError> {
    if o + k > i16::MAX {
        Err(VmError::BadStatement(si))
    } else {
        Ok((o + k) as i16)
    }
}

/// Reads the three words of a vector at `o`, in order, for the statement
/// at `si`.
pub open spec fn spec_read_vec(v: VmView, si: i32, o: i16) -> Result<Seq<u32>, VmError> {
    match spec_read_raw(v, o) {
        Err(e) => Err(e),
        Ok(x) => match spec_offset(si, o, 1) {
            Err(e) => Err(e),
            Ok(o1) => match spec_read_raw(v, o1) {
                Err(e) => Err(e),
                Ok(y) => match spec_offset(si, o, 2) {
                    Err(e) => Err(e),
                    Ok(o2) => match spec_read_raw(v, o2) {
                        Err(e) => Err(e),
                        Ok(z) => Ok(seq![x, y, z]),
                    },
                },
            },
        },
    }
}

/// One statement of the innermost call. `Ok(None)` is a statement done;
/// `Ok(Some(p))` a stop for the host.
pub open spec fn spec_step(v: VmView) -> (VmView, Result<Option<Pause>, VmError>) {
    let fi = v.frames.len() - 1;
    let si = v.frames[fi].statement_index;
    if si < 0 || si >= v.progs.statements.len() {
        (v, Err(VmError::BadStatement(si)))
    } else {
        let st = v.progs.statements[si as int];
        let op = st.op;
        let next1 = (si + 1) as i32;
        if op == OP_DONE {
            (spec_leave(v), Ok(None))
        } else if op == OP_RETURN {
            let r = spec_copy_global(v, st.a, OFS_RETURN as int, 3);
            match r.1 {
                Err(e) => (r.0, Err(e)),
                Ok(_) => (spec_leave(r.0), Ok(None)),
            }
        } else if op == OP_GOTO {
            (advance(v, (si + st.a) as i32), Ok(None))
        } else if op == OP_IF || op == OP_IFNOT {
            match spec_read_raw(v, st.a) {
                Err(e) => (v, Err(e)),
                Ok(c) => {
                    let jump = if op == OP_IF { !f32_is_zero(c) } else { f32_is_zero(c) };
                    (advance(v, if jump { (si + st.b) as i32 } else { next1 }), Ok(None))
                },
            }
        } else if OP_CALL0 <= op <= OP_CALL8 {
            if st.a < 0 {
                (v, Err(VmError::BadFunction(st.a as i32)))
            } else {
                let r = spec_enter(v, st.a as int, Some(next1));
                match r.1 {
                    Err(e) => (r.0, Err(e)),
                    Ok(Entered::Pushed) => (r.0, Ok(None)),
                    Ok(Entered::Builtin(fs)) => (r.0, Ok(Some(Pause::Builtin(fs)))),
                }
            }
        } else if OP_STORE_F <= op <= OP_STORE_FNC {
            let count: int = if op == OP_STORE_V { 3 } else { 1 };
            if st.b < 0 {
                // a destination below zero lies past the end of the globals,
                // unless it wraps round to the start
                if spec_global_index(v, st.a) is Ok && st.b + count >= 0 {
                    (v, Err(VmError::BadStatement(si)))
                } else {
                    (v, Err(VmError::BadGlobal(st.a)))
                }
            } else {
                then_next(spec_copy_global(v, st.a, st.b as int, count), next1)
            }
        } else if OP_STOREP_F <= op <= OP_STOREP_FNC {
            match spec_read_raw(v, st.a) {
                Err(e) => (v, Err(e)),
                Ok(ptr) => then_next(spec_store_pointer(v, ptr, st.b, if op == OP_STOREP_V { 3 } else { 1 }), next1),
            }
        } else if op == OP_ADDRESS {
            match spec_read_ent(v, st.a) {
                Err(e) => (v, Err(e)),
                Ok(e) => then_next(spec_write_raw(v, st.c, ((e as u32) << 16u32) | ((st.b as u16) as u32)), next1),
            }
        } else if OP_LOAD_F <= op <= OP_LOAD_FNC {
            match spec_read_ent(v, st.a) {
                Err(e) => (v, Err(e)),
                Ok(e) => if st.b < 0 {
                    (v, Err(VmError::BadField(st.b as i32)))
                } else if op == OP_LOAD_V {
                    match spec_edict_field(v, e, st.b as int, 3) {
                        Err(x) => (v, Err(x)),
                        Ok(vals) => {
                            let w0 = spec_write_raw(v, st.c, vals[0]);
                            match w0.1 {
                                Err(x) => (w0.0, Err(x)),
                                Ok(_) => match spec_offset(si, st.c, 1) {
                                    Err(x) => (w0.0, Err(x)),
                                    Ok(c1) => {
                                        let w1 = spec_write_raw(w0.0, c1, vals[1]);
                                        match w1.1 {
                                            Err(x) => (w1.0, Err(x)),
                                            Ok(_) => match spec_offset(si, st.c, 2) {
                                                Err(x) => (w1.0, Err(x)),
                                                Ok(c2) => then_next(spec_write_raw(w1.0, c2, vals[2]), next1),
                                            },
                                        }
                                    },
                                },
                            }
                        },
                    }
                } else {
                    match spec_edict_field(v, e, st.b as int, 1) {
                        Err(x) => (v, Err(x)),
                        Ok(vals) => then_next(spec_write_raw(v, st.c, vals[0]), next1),
                    }
                },
            }
        } else if is_arithmetic(op) {
            (v, Ok(Some(Pause::Arithmetic(st))))
        } else if op == OP_EQ_F || op == OP_NE_F || op == OP_LT || op == OP_GT || op == OP_LE || op == OP_GE
            || op == OP_EQ_S || op == OP_NE_S || op == OP_EQ_E || op == OP_NE_E || op == OP_EQ_FNC || op == OP_NE_FNC
            || op == OP_AND || op == OP_OR {
            match spec_read_raw(v, st.a) {
                Err(e) => (v, Err(e)),
                Ok(a) => match spec_read_raw(v, st.b) {
                    Err(e) => (v, Err(e)),
                    Ok(b) => {
                        let result = if op == OP_EQ_F {
                            f32_eq(a, b)
                        } else if op == OP_NE_F {
                            !f32_eq(a, b)
                        } else if op == OP_LT {
                            f32_lt(a, b)
                        } else if op == OP_GT {
                            f32_lt(b, a)
                        } else if op == OP_LE {
                            f32_le(a, b)
                        } else if op == OP_GE {
                            f32_le(b, a)
                        } else if op == OP_AND {
                            !f32_is_zero(a) && !f32_is_zero(b)
                        } else if op == OP_OR {
                            !f32_is_zero(a) || !f32_is_zero(b)
                        } else if op == OP_EQ_S || op == OP_EQ_E || op == OP_EQ_FNC {
                            a == b
                        } else {
                            a != b
                        };
                        write_bool_next(v, st.c, result, next1)
                    },
                },
            }
        } else if op == OP_EQ_V || op == OP_NE_V {
            match spec_read_vec(v, si, st.a) {
                Err(e) => (v, Err(e)),
                Ok(x) => match spec_read_vec(v, si, st.b) {
                    Err(e) => (v, Err(e)),
                    Ok(y) => {
                        let same = f32_eq(x[0], y[0]) && f32_eq(x[1], y[1]) && f32_eq(x[2], y[2]);
                        write_bool_next(v, st.c, if op == OP_NE_V { !same } else { same }, next1)
                    },
                },
            }
        } else if op == OP_NOT_F || op == OP_NOT_S || op == OP_NOT_ENT || op == OP_NOT_FNC {
            match spec_read_raw(v, st.a) {
                Err(e) => (v, Err(e)),
                Ok(a) => write_bool_next(v, st.c, a == 0, next1),
            }
        } else if op == OP_NOT_V {
            match spec_read_vec(v, si, st.a) {
                Err(e) => (v, Err(e)),
                Ok(x) => write_bool_next(v, st.c, f32_is_zero(x[0]) && f32_is_zero(x[1]) && f32_is_zero(x[2]), next1),
            }
        } else {
            (v, Err(VmError::UnsupportedOpcode(op)))
        }
    }
}

/// Runs statements until no call is active, a stop for the host, an
/// error, or `fuel` statements have run.
pub open spec fn spec_run(v: VmView, fuel: nat) -> (VmView, Result<Run, VmError>)
    decreases fuel,
{
    if v.frames.len() == 0 {
        (v, Ok(Run { pause: Pause::Finished, steps: 0 }))
    } else if fuel == 0 {
        (v, Err(VmError::StepLimit))
    } else {
        let s = spec_step(v);
        match s.1 {
            Err(e) => (s.0, Err(e)),
            Ok(Some(p)) => (s.0, Ok(Run { pause: p, steps: 1 })),
            Ok(None) => {
                let r = spec_run(s.0, (fuel - 1) as nat);
                match r.1 {
                    Err(e) => (r.0, Err(e)),
                    Ok(run) => (r.0, Ok(Run { pause: run.pause, steps: (run.steps + 1) as usize })),
                }
            },
        }
    }
}


// ---- invariant lemmas ----

pub proof fn lemma_leave_ok(v: VmView)
    requires
        frames_ok(v),
    ensures
        frames_ok(spec_leave(v)),
        spec_leave(v).progs == v.progs,
        spec_leave(v).edicts == v.edicts,
        spec_leave(v).builtins == v.builtins,
        spec_leave(v).globals.len() == v.globals.len(),
{
    if v.frames.len() > 0 {
        let n = v.frames.len();
        let fr = v.frames.last();
        assert(v.frames[n - 1] == fr);
        let w = spec_leave(v);
        assert forall|i: int| 0 <= i < w.frames.len() implies {
            &&& (#[trigger] w.frames[i]).function_index < w.progs.functions.len()
            &&& w.frames[i].local_base + w.frames[i].locals <= (if i + 1 < w.frames.len() { w.frames[i + 1].local_base as int } else { w.locals.len() as int })
        } by {
            assert(v.frames[i].function_index < v.progs.functions.len());
            assert(w.frames[i].function_index == v.frames[i].function_index);
            assert(w.frames[i].local_base == v.frames[i].local_base);
            assert(w.frames[i].locals == v.frames[i].locals);
            if i + 1 < w.frames.len() {
                assert(w.frames[i + 1].local_base == v.frames[i + 1].local_base);
            } else {
                assert(v.frames[i].local_base + v.frames[i].locals <= v.frames[i + 1].local_base);
            }
        }
    }
}

pub proof fn lemma_copy_params_keeps(v: VmView, sizes: Seq<u8>, i: int, n: int, dst: int)
    ensures
        spec_copy_params(v, sizes, i, n, dst).0.frames == v.frames,
        spec_copy_params(v, sizes, i, n, dst).0.locals == v.locals,
        spec_copy_params(v, sizes, i, n, dst).0.progs == v.progs,
        spec_copy_params(v, sizes, i, n, dst).0.edicts == v.edicts,
        spec_copy_params(v, sizes, i, n, dst).0.builtins == v.builtins,
        spec_copy_params(v, sizes, i, n, dst).0.globals.len() == v.globals.len(),
    decreases n - i,
{
    if i < n {
        let r = spec_copy_global(v, (OFS_PARM0 + i * 3) as i16, dst, sizes[i] as int);
        if r.1 is Ok {
            lemma_copy_params_keeps(r.0, sizes, i + 1, n, dst + sizes[i]);
        }
    }
}

#[verifier::rlimit(80)]
pub proof fn lemma_enter_ok(v: VmView, index: int, ret: Option<i32>)
    requires
        frames_ok(v),
        0 <= index <= usize::MAX,
        v.locals.len() <= usize::MAX,
    ensures
        frames_ok(spec_enter(v, index, ret).0),
        spec_enter(v, index, ret).0.progs == v.progs,
        spec_enter(v, index, ret).0.edicts == v.edicts,
        spec_enter(v, index, ret).0.builtins == v.builtins,
        spec_enter(v, index, ret).0.globals.len() == v.globals.len(),
{
    if index < v.progs.functions.len() {
        let f = v.progs.functions[index];
        if f.first_statement >= 0 {
            let ps = nonneg(f.parm_start);
            let nl = nonneg(f.locals);
            if ps + nl <= v.globals.len() {
                let v1 = VmView { locals: v.locals + v.globals.subrange(ps, ps + nl), ..v };
                let n = if nonneg(f.num_params) < 8 { nonneg(f.num_params) } else { 8 };
                lemma_copy_params_keeps(v1, f.param_sizes, 0, n, ps);
                let r = spec_copy_params(v1, f.param_sizes, 0, n, ps);
                let fr = CallFrame {
                    function_index: index as usize,
                    statement_index: f.first_statement,
                    local_base: v.locals.len() as usize,
                    locals: nl as usize,
                    return_statement: ret,
                };
                if r.1 is Ok {
                    let w = VmView { frames: r.0.frames.push(fr), ..r.0 };
                    assert(spec_enter(v, index, ret).0 == w);
                    assert(w.locals.len() == v.locals.len() + nl);
                    assert forall|i: int| 0 <= i < w.frames.len() implies {
                        &&& (#[trigger] w.frames[i]).function_index < w.progs.functions.len()
                        &&& w.frames[i].local_base + w.frames[i].locals <= (if i + 1 < w.frames.len() { w.frames[i + 1].local_base as int } else { w.locals.len() as int })
                    } by {
                        if i < v.frames.len() {
                            assert(w.frames[i] == v.frames[i]);
                            assert(v.frames[i].function_index < v.progs.functions.len());
                            if i + 1 == v.frames.len() {
                                assert(w.frames[i + 1] == fr);
                            } else {
                                assert(w.frames[i + 1] == v.frames[i + 1]);
                            }
                        } else {
                            assert(w.frames[i] == fr);
                        }
                    }
                } else {
                    assert(spec_enter(v, index, ret).0 == r.0);
                    let w = r.0;
                    assert forall|i: int| 0 <= i < w.frames.len() implies {
                        &&& (#[trigger] w.frames[i]).function_index < w.progs.functions.len()
                        &&& w.frames[i].local_base + w.frames[i].locals <= (if i + 1 < w.frames.len() { w.frames[i + 1].local_base as int } else { w.locals.len() as int })
                    } by {
                        assert(w.frames[i] == v.frames[i]);
                        assert(v.frames[i].function_index < v.progs.functions.len());
                    }
                }
            }
        }
    }
}

pub proof fn lemma_advance_ok(v: VmView, next: i32)
    requires
        frames_ok(v),
        v.frames.len() > 0,
    ensures
        frames_ok(advance(v, next)),
{
    let w = advance(v, next);
    assert forall|i: int| 0 <= i < w.frames.len() implies {
        &&& (#[trigger] w.frames[i]).function_index < w.progs.functions.len()
        &&& w.frames[i].local_base + w.frames[i].locals <= (if i + 1 < w.frames.len() { w.frames[i + 1].local_base as int } else { w.locals.len() as int })
    } by {
        assert(v.frames[i].function_index < v.progs.functions.len());
    }
}

// ---- the machine ----

pub struct Vm {
    progs: ProgsDat,
    globals: Vec<u32>,
    local_stack: Vec<u32>,
    call_stack: Vec<CallFrame>,
    edicts: Vec<Vec<u32>>,
    builtins: Vec<bool>,
}

pub open spec fn edict_views(e: Seq<Vec<u32>>) -> Seq<Seq<u32>> {
    Seq::new(e.len(), |i: int| e[i]@)
}

impl View for Vm {
    type V = VmView;

    closed spec fn view(&self) -> VmView {
        VmView {
            progs: self.progs@,
            globals: self.globals@,
            locals: self.local_stack@,
            frames: self.call_stack@,
            edicts: edict_views(self.edicts@),
            builtins: self.builtins@,
        }
    }
}

/// Whether `index` may be used as a builtin number.
pub open spec fn spec_register(builtins: Seq<bool>, index: int) -> Seq<bool> {
    let grown = if builtins.len() <= index {
        builtins + Seq::new((index + 1 - builtins.len()) as nat, |i: int| false)
    } else {
        builtins
    };
    grown.update(index, true)
}

impl Vm {
    pub open spec fn wf(&self) -> bool {
        vm_ok(self@)
    }

    /// A machine for `progs`, with the world entity allocated.
    pub fn new(progs: ProgsDat) -> (vm: Self)
        ensures
            vm.wf(),
            vm@.progs == progs@,
            vm@.globals == progs@.globals,
            vm@.locals.len() == 0,
            vm@.frames.len() == 0,
            vm@.edicts == seq![Seq::new(nonneg(progs@.entity_fields) as nat, |i: int| 0u32)],
            edicts_sized(vm@),
            vm@.builtins.len() == 0,
    {
        let globals = progs.globals.clone();
        let field_count: usize = if progs.entity_fields < 0 { 0 } else { progs.entity_fields as usize };
        let mut edicts: Vec<Vec<u32>> = Vec::new();
        edicts.push(vec![0u32; field_count]);
        let vm = Vm { progs, globals, local_stack: Vec::new(), call_stack: Vec::new(), edicts, builtins: Vec::new() };
        assert(vm@.edicts =~~= seq![Seq::new(nonneg(vm@.progs.entity_fields) as nat, |i: int| 0u32)]);
        vm
    }

    pub fn progs(&self) -> (r: &ProgsDat)
        ensures
            r@ == self@.progs,
    {
        &self.progs
    }

    /// Marks builtin number `index` as available.
    pub fn register_builtin(&mut self, index: usize)
        requires
            old(self).wf(),
            index < usize::MAX,
        ensures
            final(self).wf(),
            final(self)@ == (VmView { builtins: spec_register(old(self)@.builtins, index as int), ..old(self)@ }),
    {
        while self.builtins.len() <= index
            invariant
                self.progs == old(self).progs,
                self.globals == old(self).globals,
                self.local_stack == old(self).local_stack,
                self.call_stack == old(self).call_stack,
                self.edicts == old(self).edicts,
                old(self).builtins@.len() <= self.builtins@.len(),
                self.builtins@.len() <= index + 1 || self.builtins@ == old(self).builtins@,
                old(self).builtins@.len() <= index ==> self.builtins@ == old(self).builtins@ + Seq::new((self.builtins@.len() - old(self).builtins@.len()) as nat, |i: int| false),
                old(self).builtins@.len() > index ==> self.builtins@ == old(self).builtins@,
            decreases index + 1 - self.builtins@.len(),
        {
            self.builtins.push(false);
            assert(self.builtins@ =~= old(self).builtins@ + Seq::new((self.builtins@.len() - old(self).builtins@.len()) as nat, |i: int| false));
        }
        self.builtins.set(index, true);
        assert(self.builtins@ =~= spec_register(old(self)@.builtins, index as int));
    }

    pub fn global_def(&self, name: &str) -> (r: Option<&Definition>)
        ensures
            match first_named_from::<()>(def_names(self@.progs.global_defs), name@, 0) {
                Some(i) => r is Some && r->0@ == self@.progs.global_defs[i],
                None => r is None,
            },
    {
        self.progs.global_def(name)
    }

    pub fn field_def(&self, name: &str) -> (r: Option<&Definition>)
        ensures
            match first_named_from::<()>(def_names(self@.progs.field_defs), name@, 0) {
                Some(i) => r is Some && r->0@ == self@.progs.field_defs[i],
                None => r is None,
            },
    {
        self.progs.field_def(name)
    }

    /// The number of words of each entity.
    pub fn edict_field_count(&self) -> (n: usize)
        ensures
            n == nonneg(self@.progs.entity_fields),
    {
        if self.progs.entity_fields < 0 { 0 } else { self.progs.entity_fields as usize }
    }

    pub fn edict_count(&self) -> (n: usize)
        ensures
            n == self@.edicts.len(),
    {
        self.edicts.len()
    }

    /// Adds an entity with every field zero and gives its number.
    pub fn alloc_edict(&mut self) -> (index: usize)
        requires
            old(self).wf(),
        ensures
            final(self).wf(),
            index == old(self)@.edicts.len(),
            final(self)@ == (VmView {
                edicts: old(self)@.edicts.push(Seq::new(nonneg(old(self)@.progs.entity_fields) as nat, |i: int| 0u32)),
                ..old(self)@
            }),
    {
        let index = self.edicts.len();
        let field_count = self.edict_field_count();
        self.edicts.push(vec![0u32; field_count]);
        assert(edict_views(self.edicts@) =~~= old(self)@.edicts.push(Seq::new(nonneg(old(self)@.progs.entity_fields) as nat, |i: int| 0u32)));
        index
    }

    fn global_index(&self, ofs: i16) -> (r: Result<usize, VmError>)
        ensures
            match r {
                Ok(i) => spec_global_index(self@, ofs) == Ok::<int, VmError>(i as int),
                Err(e) => spec_global_index(self@, ofs) == Err::<int, VmError>(e),
            },
    {
        if ofs < 0 {
            return Err(VmError::BadGlobal(ofs));
        }
        let index = ofs as usize;
        if index >= self.globals.len() {
            return Err(VmError::BadGlobal(ofs));
        }
        Ok(index)
    }

    fn read_raw(&self, ofs: i16) -> (r: Result<u32, VmError>)
        ensures
            r == spec_read_raw(self@, ofs),
    {
        let index = self.global_index(ofs)?;
        Ok(self.globals[index])
    }

    fn write_raw(&mut self, ofs: i16, value: u32) -> (r: Result<(), VmError>)
        ensures
            (final(self)@, r) == spec_write_raw(old(self)@, ofs, value),
    {
        let index = self.global_index(ofs)?;
        self.globals.set(index, value);
        Ok(())
    }

    pub fn read_global_raw(&self, ofs: i16) -> (r: Result<u32, VmError>)
        ensures
            r == spec_read_raw(self@, ofs),
    {
        self.read_raw(ofs)
    }

    pub fn write_global_raw(&mut self, ofs: i16, value: u32) -> (r: Result<(), VmError>)
        requires
            old(self).wf(),
        ensures
            final(self).wf(),
            (final(self)@, r) == spec_write_raw(old(self)@, ofs, value),
    {
        self.write_raw(ofs, value)
    }

    fn read_ent(&self, ofs: i16) -> (r: Result<usize, VmError>)
        ensures
            match r {
                Ok(i) => spec_read_ent(self@, ofs) == Ok::<int, VmError>(i as int),
                Err(e) => spec_read_ent(self@, ofs) == Err::<int, VmError>(e),
            },
    {
        let raw = self.read_raw(ofs)?;
        let index = f32_bits_trunc_i32(raw);
        if index < 0 || index as usize >= self.edicts.len() {
            return Err(VmError::BadEdict(index));
        }
        Ok(index as usize)
    }

    fn edict_field(&self, entity: usize, field: usize, size: usize) -> (r: Result<Vec<u32>, VmError>)
        requires
            field + size <= usize::MAX,
        ensures
            match r {
                Ok(v) => spec_edict_field(self@, entity as int, field as int, size as int) == Ok::<Seq<u32>, VmError>(v@),
                Err(e) => spec_edict_field(self@, entity as int, field as int, size as int) == Err::<Seq<u32>, VmError>(e),
            },
    {
        if entity >= self.edicts.len() {
            return Err(VmError::BadEdict(entity as i32));
        }
        let end = field + size;
        if end > self.edicts[entity].len() {
            return Err(VmError::BadField(field as i32));
        }
        let ghost fields = self.edicts@[entity as int]@;
        let mut out: Vec<u32> = Vec::new();
        let mut i: usize = field;
        while i < end
            invariant
                field <= i <= end,
                end <= fields.len(),
                fields == self.edicts@[entity as int]@,
                entity < self.edicts@.len(),
                out@ == fields.subrange(field as int, i as int),
            decreases end - i,
        {
            out.push(self.edicts[entity][i]);
            assert(out@ =~= fields.subrange(field as int, i + 1));
            i = i + 1;
        }
        Ok(out)
    }

    /// Reads `count` words of an entity from `field` on.
    pub fn read_edict_field_raw(&self, entity: usize, field: usize, count: usize) -> (r: Result<Vec<u32>, VmError>)
        requires
            field + count <= usize::MAX,
        ensures
            match r {
                Ok(v) => spec_edict_field(self@, entity as int, field as int, count as int) == Ok::<Seq<u32>, VmError>(v@),
                Err(e) => spec_edict_field(self@, entity as int, field as int, count as int) == Err::<Seq<u32>, VmError>(e),
            },
    {
        self.edict_field(entity, field, count)
    }

    /// Writes `values` into an entity from `field` on.
    pub fn write_edict_field_raw(&mut self, entity: usize, field: usize, values: &[u32]) -> (r: Result<(), VmError>)
        requires
            old(self).wf(),
            field + values.len() <= usize::MAX,
        ensures
            final(self).wf(),
            (final(self)@, r) == spec_write_edict(old(self)@, entity as int, field as int, values@),
            r == Err::<(), VmError>(VmError::BadEdict(entity as i32)) <==> entity >= old(self)@.edicts.len(),
            r == Err::<(), VmError>(VmError::BadField(field as i32)) <==> entity < old(self)@.edicts.len()
                && field + values.len() > nonneg(old(self)@.progs.entity_fields),
            r is Err ==> final(self)@ == old(self)@,
            r is Ok ==> spec_edict_field(final(self)@, entity as int, field as int, values@.len() as int)
                == Ok::<Seq<u32>, VmError>(values@),
            r is Ok ==> forall|e: int, k: int|
                0 <= e < final(self)@.edicts.len() && 0 <= k < final(self)@.edicts[e].len()
                    && !(e == entity && field <= k < field + values.len())
                    ==> #[trigger] final(self)@.edicts[e][k] == old(self)@.edicts[e][k],
    {
        if entity >= self.edicts.len() {
            return Err(VmError::BadEdict(entity as i32));
        }
        let end = field + values.len();
        if end > self.edicts[entity].len() {
            return Err(VmError::BadField(field as i32));
        }
        let mut fields = self.edicts[entity].clone();
        let ghost before = fields@;
        let mut i: usize = 0;
        while i < values.len()
            invariant
                field + values.len() <= fields.len(),
                fields@.len() == before.len(),
                i <= values@.len(),
                forall|k: int| 0 <= k < fields@.len() ==> #[trigger] fields@[k] == if field <= k < field + i { values@[k - field] } else { before[k] },
            decreases values@.len() - i,
        {
            fields.set(field + i, values[i]);
            i = i + 1;
        }
        assert(fields@ =~= copy_words(before, values@, 0, field as int, values@.len() as int));
        assert(fields@.subrange(field as int, field + values@.len()) =~= values@);
        self.edicts.set(entity, fields);
        assert(edict_views(self.edicts@) =~~= old(self)@.edicts.update(entity as int, copy_words(before, values@, 0, field as int, values@.len() as int)));
        Ok(())
    }

    fn copy_global(&mut self, src: i16, dst: usize, count: usize) -> (r: Result<(), VmError>)
        requires
            dst + count <= usize::MAX,
            count <= 255,
        ensures
            (final(self)@, r) == spec_copy_global(old(self)@, src, dst as int, count as int),
    {
        if count == 0 {
            return Ok(());
        }
        let s = self.global_index(src)?;
        if s + count > self.globals.len() || dst + count > self.globals.len() {
            return Err(VmError::BadGlobal(s as i16));
        }
        let ghost g = self.globals@;
        let mut values: Vec<u32> = Vec::new();
        let mut i: usize = 0;
        while i < count
            invariant
                s + count <= self.globals.len(),
                g == self.globals@,
                i <= count,
                values@ == g.subrange(s as int, s + i),
            decreases count - i,
        {
            values.push(self.globals[s + i]);
            assert(values@ =~= g.subrange(s as int, s + i + 1));
            i = i + 1;
        }
        let mut j: usize = 0;
        while j < count
            invariant
                dst + count <= self.globals.len(),
                s + count <= g.len(),
                values@.len() == count,
                self.globals@.len() == g.len(),
                values@ == g.subrange(s as int, s + count),
                j <= count,
                self.progs == old(self).progs,
                self.local_stack == old(self).local_stack,
                self.call_stack == old(self).call_stack,
                self.edicts == old(self).edicts,
                self.builtins == old(self).builtins,
                g == old(self).globals@,
                forall|k: int| 0 <= k < g.len() ==> #[trigger] self.globals@[k] == if dst <= k < dst + j { g[s + k - dst] } else { g[k] },
            decreases count - j,
        {
            let ghost before = self.globals@;
            self.globals.set(dst + j, values[j]);
            assert forall|k: int| 0 <= k < g.len() implies #[trigger] self.globals@[k] == if dst <= k < dst + j + 1 { g[s + k - dst] } else { g[k] } by {
                if k != dst + j {
                    assert(self.globals@[k] == before[k]);
                }
            }
            j = j + 1;
        }
        assert(self.globals@ =~= copy_words(g, g, s as int, dst as int, count as int));
        Ok(())
    }

    fn store_pointer(&mut self, ptr: u32, src: i16, count: usize) -> (r: Result<(), VmError>)
        requires
            count <= 3,
        ensures
            (final(self)@, r) == spec_store_pointer(old(self)@, ptr, src, count as int),
    {
        if count == 0 {
            return Ok(());
        }
        let entity = (ptr >> 16) as usize;
        assert((ptr & 0xffff) <= 0xffff) by (bit_vector);
        let field = (ptr & 0xffff) as usize;
        let s = self.global_index(src)?;
        if entity >= self.edicts.len() {
            return Err(VmError::BadEdict(entity as i32));
        }
        if s + count > self.globals.len() || field + count > self.edicts[entity].len() {
            return Err(VmError::BadField(field as i32));
        }
        let mut fields = self.edicts[entity].clone();
        let ghost before = fields@;
        let ghost g = self.globals@;
        let mut i: usize = 0;
        while i < count
            invariant
                field + count <= fields.len(),
                s + count <= self.globals.len(),
                g == self.globals@,
                fields@.len() == before.len(),
                i <= count,
                forall|k: int| 0 <= k < fields@.len() ==> #[trigger] fields@[k] == if field <= k < field + i { g[s + k - field] } else { before[k] },
            decreases count - i,
        {
            fields.set(field + i, self.globals[s + i]);
            i = i + 1;
        }
        assert(fields@ =~= copy_words(before, g, s as int, field as int, count as int));
        self.edicts.set(entity, fields);
        assert(edict_views(self.edicts@) =~~= old(self)@.edicts.update(entity as int, copy_words(before, g, s as int, field as int, count as int)));
        Ok(())
    }

    fn enter_function(&mut self, index: usize, ret: Option<i32>) -> (r: Result<Entered, VmError>)
        requires
            old(self).wf(),
        ensures
            final(self).wf(),
            (final(self)@, r) == spec_enter(old(self)@, index as int, ret),
    {
        if index >= self.progs.functions.len() {
            return Err(VmError::BadFunction(index as i32));
        }
        let first_statement = self.progs.functions[index].first_statement;
        let parm_start_raw = self.progs.functions[index].parm_start;
        let parm_start: usize = if parm_start_raw < 0 { 0 } else { parm_start_raw as usize };
        let locals: usize = if self.progs.functions[index].locals < 0 { 0 } else { self.progs.functions[index].locals as usize };
        let num_params: usize = if self.progs.functions[index].num_params < 0 { 0 } else { self.progs.functions[index].num_params as usize };
        let param_sizes = self.progs.functions[index].param_sizes;
        let ghost fv = old(self)@.progs.functions[index as int];
        assert(fv == self.progs.functions@[index as int]@);
        if first_statement < 0 {
            if first_statement == i32::MIN {
                return Err(VmError::BuiltinNotRegistered(first_statement));
            }
            let b = (-first_statement) as usize;
            if b < self.builtins.len() && self.builtins[b] {
                return Ok(Entered::Builtin(first_statement));
            }
            return Err(VmError::BuiltinNotRegistered(first_statement));
        }
        if parm_start + locals > self.globals.len() {
            return Err(VmError::BadGlobal(parm_start_raw as i16));
        }
        let local_base = self.local_stack.len();
        let ghost g = self.globals@;
        let mut i: usize = 0;
        while i < locals
            invariant
                parm_start + locals <= self.globals.len(),
                g == self.globals@,
                i <= locals,
                self.local_stack@ == old(self).local_stack@ + g.subrange(parm_start as int, parm_start + i),
                self.progs == old(self).progs,
                self.call_stack == old(self).call_stack,
                self.edicts == old(self).edicts,
                self.builtins == old(self).builtins,
            decreases locals - i,
        {
            self.local_stack.push(self.globals[parm_start + i]);
            assert(self.local_stack@ =~= old(self).local_stack@ + g.subrange(parm_start as int, parm_start + i + 1));
            i = i + 1;
        }
        let n: usize = if num_params < 8 { num_params } else { 8 };
        let ghost v1 = self@;
        assert(v1 == VmView { locals: old(self)@.locals + old(self)@.globals.subrange(parm_start as int, parm_start + locals), ..old(self)@ });
        let mut dst = parm_start;
        let mut p: usize = 0;
        while p < n
            invariant
                n <= 8,
                p <= n,
                dst <= parm_start + 255 * p,
                parm_start <= 0x7fff_ffff,
                index < old(self)@.progs.functions.len(),
                param_sizes@ == old(self)@.progs.functions[index as int].param_sizes,
                spec_copy_params(self@, param_sizes@, p as int, n as int, dst as int) == spec_copy_params(v1, param_sizes@, 0, n as int, parm_start as int),
                fv == old(self)@.progs.functions[index as int],
                fv.first_statement >= 0,
                parm_start == nonneg(fv.parm_start),
                locals == nonneg(fv.locals),
                n == (if nonneg(fv.num_params) < 8 { nonneg(fv.num_params) } else { 8 }),
                parm_start + locals <= old(self)@.globals.len(),
                v1 == (VmView { locals: old(self)@.locals + old(self)@.globals.subrange(parm_start as int, parm_start + locals), ..old(self)@ }),
                old(self)@.locals.len() <= usize::MAX,
                old(self).wf(),
                first_statement == fv.first_statement,
                local_base == old(self)@.locals.len(),
            decreases n - p,
        {
            let size = param_sizes[p] as usize;
            let src = (OFS_PARM0 + p * 3) as i16;
            let r = self.copy_global(src, dst, size);
            match r {
                Err(e) => {
                    assert(spec_copy_params(v1, param_sizes@, 0, n as int, parm_start as int) == (self@, Err::<(), VmError>(e)));
                    assert(spec_enter(old(self)@, index as int, ret) == (self@, Err::<Entered, VmError>(e)));
                    proof {
                        lemma_enter_ok(old(self)@, index as int, ret);
                    }
                    return Err(e);
                },
                Ok(()) => {},
            }
            dst = dst + size;
            p = p + 1;
        }
        self.call_stack.push(CallFrame {
            function_index: index,
            statement_index: first_statement,
            local_base,
            locals,
            return_statement: ret,
        });
        proof {
            lemma_enter_ok(old(self)@, index as int, ret);
        }
        Ok(Entered::Pushed)
    }
}

pub open spec fn add_steps(r: (VmView, Result<Run, VmError>), k: nat) -> (VmView, Result<Run, VmError>) {
    (r.0, match r.1 {
        Ok(run) => Ok(Run { pause: run.pause, steps: (run.steps + k) as usize }),
        Err(e) => Err(e),
    })
}

pub proof fn lemma_run_steps(v: VmView, fuel: nat)
    requires
        fuel <= usize::MAX,
    ensures
        spec_run(v, fuel).1 matches Ok(run) ==> run.steps <= fuel,
    decreases fuel,
{
    if v.frames.len() > 0 && fuel > 0 {
        let s = spec_step(v);
        if s.1 == Ok::<Option<Pause>, VmError>(None) {
            lemma_run_steps(s.0, (fuel - 1) as nat);
        }
    }
}

/// Calling function `index` and running it.
pub open spec fn spec_call(v: VmView, index: int, max_steps: nat) -> (VmView, Result<Run, VmError>) {
    let e = spec_enter(v, index, None);
    match e.1 {
        Err(x) => (e.0, Err(x)),
        Ok(Entered::Builtin(fs)) => (e.0, Ok(Run { pause: Pause::Builtin(fs), steps: 0 })),
        Ok(Entered::Pushed) => spec_run(e.0, max_steps),
    }
}

impl Vm {
    fn leave_function(&mut self)
        requires
            old(self).wf(),
        ensures
            final(self).wf(),
            final(self)@ == spec_leave(old(self)@),
    {
        proof {
            lemma_leave_ok(old(self)@);
        }
        let n = self.call_stack.len();
        if n == 0 {
            return;
        }
        let frame = self.call_stack[n - 1];
        self.call_stack.pop();
        assert(frame == old(self)@.frames.last());
        assert(self.call_stack@ =~= old(self)@.frames.drop_last());
        if frame.function_index >= self.progs.functions.len() {
            return;
        }
        let ps_raw = self.progs.functions[frame.function_index].parm_start;
        assert(ps_raw == old(self)@.progs.functions[frame.function_index as int].parm_start);
        let ps: usize = if ps_raw < 0 { 0 } else { ps_raw as usize };
        assert(frame.local_base + frame.locals <= self.local_stack@.len()) by {
            assert(old(self)@.frames[n - 1] == frame);
        }
        if frame.locals <= self.globals.len() && ps <= self.globals.len() - frame.locals {
            let ghost g = self.globals@;
            let ghost l = self.local_stack@;
            let mut k: usize = 0;
            while k < frame.locals
                invariant
                    k <= frame.locals,
                    ps + frame.locals <= self.globals.len(),
                    frame.local_base + frame.locals <= self.local_stack.len(),
                    l == self.local_stack@,
                    self.globals@.len() == g.len(),
                    forall|q: int| 0 <= q < g.len() ==> #[trigger] self.globals@[q] == if ps <= q < ps + k { l[frame.local_base + q - ps] } else { g[q] },
                    self.call_stack@ == old(self)@.frames.drop_last(),
                    self.progs == old(self).progs,
                    self.edicts == old(self).edicts,
                    self.builtins == old(self).builtins,
                    g == old(self).globals@,
                    l == old(self).local_stack@,
                decreases frame.locals - k,
            {
                let ghost before = self.globals@;
                let w = self.local_stack[frame.local_base + k];
                self.globals.set(ps + k, w);
                assert forall|q: int| 0 <= q < g.len() implies #[trigger] self.globals@[q] == if ps <= q < ps + k + 1 { l[frame.local_base + q - ps] } else { g[q] } by {
                    if q != ps + k {
                        assert(self.globals@[q] == before[q]);
                    }
                }
                k = k + 1;
            }
            assert(self.globals@ =~= copy_words(g, l, frame.local_base as int, ps as int, frame.locals as int));
        }
        self.local_stack.truncate(frame.local_base);
        match frame.return_statement {
            Some(rs) => {
                let m = self.call_stack.len();
                if m > 0 {
                    let mut last = self.call_stack[m - 1];
                    last.statement_index = rs;
                    self.call_stack.set(m - 1, last);
                }
            },
            None => {},
        }
        assert(self@ =~= spec_leave(old(self)@));
    }

    fn advance_to(&mut self, next: i32)
        requires
            old(self).wf(),
            old(self)@.frames.len() > 0,
        ensures
            final(self).wf(),
            final(self)@ == advance(old(self)@, next),
    {
        proof {
            lemma_advance_ok(old(self)@, next);
        }
        let fi = self.call_stack.len() - 1;
        let mut fr = self.call_stack[fi];
        fr.statement_index = next;
        self.call_stack.set(fi, fr);
    }

    fn then_next_exec(&mut self, r: Result<(), VmError>, next: i32) -> (out: Result<Option<Pause>, VmError>)
        requires
            old(self).wf(),
            old(self)@.frames.len() > 0,
        ensures
            final(self).wf(),
            (final(self)@, out) == then_next((old(self)@, r), next),
    {
        match r {
            Err(e) => Err(e),
            Ok(()) => {
                self.advance_to(next);
                Ok(None)
            },
        }
    }

    fn offset(si: i32, o: i16, k: i16) -> (r: Result<i16, VmError>)
        requires
            0 <= k,
        ensures
            r == spec_offset(si, o, k as int),
    {
        if o > i16::MAX - k {
            Err(VmError::BadStatement(si))
        } else {
            Ok(o + k)
        }
    }

    fn read_vec(&self, si: i32, o: i16) -> (r: Result<[u32; 3], VmError>)
        ensures
            match r {
                Ok(x) => spec_read_vec(self@, si, o) == Ok::<Seq<u32>, VmError>(x@),
                Err(e) => spec_read_vec(self@, si, o) == Err::<Seq<u32>, VmError>(e),
            },
    {
        let x = self.read_raw(o)?;
        let y = self.read_raw(Self::offset(si, o, 1)?)?;
        let z = self.read_raw(Self::offset(si, o, 2)?)?;
        let out = [x, y, z];
        assert(out@ =~= seq![x, y, z]);
        Ok(out)
    }

    /// Executes one statement of the innermost call.
    #[verifier::rlimit(100)]
    fn step(&mut self) -> (r: Result<Option<Pause>, VmError>)
        requires
            old(self).wf(),
            old(self)@.frames.len() > 0,
        ensures
            final(self).wf(),
            (final(self)@, r) == spec_step(old(self)@),
    {
        let fi = self.call_stack.len() - 1;
        let si = self.call_stack[fi].statement_index;
        if si < 0 || si as usize >= self.progs.statements.len() {
            return Err(VmError::BadStatement(si));
        }
        let st = self.progs.statements[si as usize];
        let op = st.op;
        let next1 = ((si as i64) + 1) as i32;
        if op == OP_DONE {
            self.leave_function();
            Ok(None)
        } else if op == OP_RETURN {
            let r = self.copy_global(st.a, OFS_RETURN, 3);
            match r {
                Err(e) => Err(e),
                Ok(()) => {
                    self.leave_function();
                    Ok(None)
                },
            }
        } else if op == OP_GOTO {
            self.advance_to(((si as i64) + (st.a as i64)) as i32);
            Ok(None)
        } else if op == OP_IF || op == OP_IFNOT {
            let c = self.read_raw(st.a)?;
            let jump = if op == OP_IF { !f32_bits_is_zero(c) } else { f32_bits_is_zero(c) };
            let next = if jump { ((si as i64) + (st.b as i64)) as i32 } else { next1 };
            self.advance_to(next);
            Ok(None)
        } else if OP_CALL0 <= op && op <= OP_CALL8 {
            if st.a < 0 {
                return Err(VmError::BadFunction(st.a as i32));
            }
            match self.enter_function(st.a as usize, Some(next1))? {
                Entered::Pushed => Ok(None),
                Entered::Builtin(fs) => Ok(Some(Pause::Builtin(fs))),
            }
        } else if OP_STORE_F <= op && op <= OP_STORE_FNC {
            let count: usize = if op == OP_STORE_V { 3 } else { 1 };
            if st.b < 0 {
                if self.global_index(st.a).is_ok() && st.b as i32 + count as i32 >= 0 {
                    return Err(VmError::BadStatement(si));
                }
                return Err(VmError::BadGlobal(st.a));
            }
            let r = self.copy_global(st.a, st.b as usize, count);
            self.then_next_exec(r, next1)
        } else if OP_STOREP_F <= op && op <= OP_STOREP_FNC {
            let ptr = self.read_raw(st.a)?;
            let count: usize = if op == OP_STOREP_V { 3 } else { 1 };
            let r = self.store_pointer(ptr, st.b, count);
            self.then_next_exec(r, next1)
        } else if op == OP_ADDRESS {
            let e = self.read_ent(st.a)?;
            let ptr = ((e as u32) << 16u32) | ((st.b as u16) as u32);
            let r = self.write_raw(st.c, ptr);
            self.then_next_exec(r, next1)
        } else if OP_LOAD_F <= op && op <= OP_LOAD_FNC {
            let e = self.read_ent(st.a)?;
            if st.b < 0 {
                return Err(VmError::BadField(st.b as i32));
            }
            if op == OP_LOAD_V {
                let vals = self.edict_field(e, st.b as usize, 3)?;
                self.write_raw(st.c, vals[0])?;
                self.write_raw(Self::offset(si, st.c, 1)?, vals[1])?;
                let r = self.write_raw(Self::offset(si, st.c, 2)?, vals[2]);
                self.then_next_exec(r, next1)
            } else {
                let vals = self.edict_field(e, st.b as usize, 1)?;
                let r = self.write_raw(st.c, vals[0]);
                self.then_next_exec(r, next1)
            }
        } else if op == OP_MUL_F || op == OP_MUL_V || op == OP_MUL_FV || op == OP_MUL_VF || op == OP_DIV_F
            || op == OP_ADD_F || op == OP_ADD_V || op == OP_SUB_F || op == OP_SUB_V
            || op == OP_BITAND || op == OP_BITOR {
            Ok(Some(Pause::Arithmetic(st)))
        } else if op == OP_EQ_F || op == OP_NE_F || op == OP_LT || op == OP_GT || op == OP_LE || op == OP_GE
            || op == OP_EQ_S || op == OP_NE_S || op == OP_EQ_E || op == OP_NE_E || op == OP_EQ_FNC || op == OP_NE_FNC
            || op == OP_AND || op == OP_OR {
            let a = self.read_raw(st.a)?;
            let b = self.read_raw(st.b)?;
            let result = if op == OP_EQ_F {
                f32_bits_eq(a, b)
            } else if op == OP_NE_F {
                !f32_bits_eq(a, b)
            } else if op == OP_LT {
                f32_bits_lt(a, b)
            } else if op == OP_GT {
                f32_bits_lt(b, a)
            } else if op == OP_LE {
                f32_bits_le(a, b)
            } else if op == OP_GE {
                f32_bits_le(b, a)
            } else if op == OP_AND {
                !f32_bits_is_zero(a) && !f32_bits_is_zero(b)
            } else if op == OP_OR {
                !f32_bits_is_zero(a) || !f32_bits_is_zero(b)
            } else if op == OP_EQ_S || op == OP_EQ_E || op == OP_EQ_FNC {
                a == b
            } else {
                a != b
            };
            let r = self.write_raw(st.c, f32_bits_bool(result));
            self.then_next_exec(r, next1)
        } else if op == OP_EQ_V || op == OP_NE_V {
            let x = self.read_vec(si, st.a)?;
            let y = self.read_vec(si, st.b)?;
            let same = f32_bits_eq(x[0], y[0]) && f32_bits_eq(x[1], y[1]) && f32_bits_eq(x[2], y[2]);
            let result = if op == OP_NE_V { !same } else { same };
            let r = self.write_raw(st.c, f32_bits_bool(result));
            self.then_next_exec(r, next1)
        } else if op == OP_NOT_F || op == OP_NOT_S || op == OP_NOT_ENT || op == OP_NOT_FNC {
            let a = self.read_raw(st.a)?;
            let r = self.write_raw(st.c, f32_bits_bool(a == 0));
            self.then_next_exec(r, next1)
        } else if op == OP_NOT_V {
            let x = self.read_vec(si, st.a)?;
            let result = f32_bits_is_zero(x[0]) && f32_bits_is_zero(x[1]) && f32_bits_is_zero(x[2]);
            let r = self.write_raw(st.c, f32_bits_bool(result));
            self.then_next_exec(r, next1)
        } else {
            Err(VmError::UnsupportedOpcode(op))
        }
    }

    /// Runs statements until no call is active, a stop for the host, an
    /// error, or `max_steps` statements.
    pub fn execute(&mut self, max_steps: usize) -> (r: Result<Run, VmError>)
        requires
            old(self).wf(),
        ensures
            final(self).wf(),
            (final(self)@, r) == spec_run(old(self)@, max_steps as nat),
    {
        let mut steps: usize = 0;
        proof {
            lemma_run_steps(old(self)@, max_steps as nat);
        }
        loop
            invariant
                self.wf(),
                steps <= max_steps,
                spec_run(old(self)@, max_steps as nat) == add_steps(spec_run(self@, (max_steps - steps) as nat), steps as nat),
            decreases max_steps - steps,
        {
            if self.call_stack.len() == 0 {
                return Ok(Run { pause: Pause::Finished, steps });
            }
            if steps >= max_steps {
                return Err(VmError::StepLimit);
            }
            let ghost before = self@;
            let ghost fuel = (max_steps - steps) as nat;
            proof {
                lemma_run_steps(before, fuel);
            }
            let s = self.step();
            steps = steps + 1;
            match s {
                Err(e) => {
                    return Err(e);
                },
                Ok(Some(p)) => {
                    return Ok(Run { pause: p, steps });
                },
                Ok(None) => {
                    proof {
                        lemma_run_steps(self@, (fuel - 1) as nat);
                    }
                },
            }
        }
    }

    /// Calls function `index` and runs it.
    pub fn call_function(&mut self, index: usize, max_steps: usize) -> (r: Result<Run, VmError>)
        requires
            old(self).wf(),
        ensures
            final(self).wf(),
            (final(self)@, r) == spec_call(old(self)@, index as int, max_steps as nat),
    {
        match self.enter_function(index, None)? {
            Entered::Builtin(fs) => Ok(Run { pause: Pause::Builtin(fs), steps: 0 }),
            Entered::Pushed => self.execute(max_steps),
        }
    }

    /// Calls the first function named `name` (ignoring ASCII case).
    pub fn call_by_name(&mut self, name: &str, max_steps: usize) -> (r: Result<Run, VmError>)
        requires
            old(self).wf(),
        ensures
            final(self).wf(),
            match first_named_from::<()>(function_names(old(self)@.progs.functions), name@, 0) {
                Some(i) => (final(self)@, r) == spec_call(old(self)@, i, max_steps as nat),
                None => r == Err::<Run, VmError>(VmError::BadFunction(-1i32)) && final(self)@ == old(self)@,
            },
    {
        match self.progs.function_index(name) {
            Some(i) => self.call_function(i, max_steps),
            None => Err(VmError::BadFunction(-1)),
        }
    }

    /// Goes on after the host has performed an arithmetic statement: the
    /// innermost call moves to the next statement and runs.
    pub fn finish_arithmetic(&mut self, max_steps: usize) -> (r: Result<Run, VmError>)
        requires
            old(self).wf(),
        ensures
            final(self).wf(),
            old(self)@.frames.len() > 0 ==> (final(self)@, r) == spec_run(
                advance(old(self)@, (old(self)@.frames.last().statement_index + 1) as i32), max_steps as nat),
            old(self)@.frames.len() == 0 ==> (final(self)@, r) == spec_run(old(self)@, max_steps as nat),
    {
        let n = self.call_stack.len();
        if n > 0 {
            let si = self.call_stack[n - 1].statement_index;
            self.advance_to(((si as i64) + 1) as i32);
        }
        self.execute(max_steps)
    }

    /// Goes on after the host has called a builtin.
    pub fn resume(&mut self, max_steps: usize) -> (r: Result<Run, VmError>)
        requires
            old(self).wf(),
        ensures
            final(self).wf(),
            (final(self)@, r) == spec_run(old(self)@, max_steps as nat),
    {
        self.execute(max_steps)
    }
}


/// The number of fields of each entity, in order.
pub open spec fn shape(v: VmView) -> Seq<nat> {
    Seq::new(v.edicts.len(), |i: int| v.edicts[i].len())
}

pub broadcast proof fn lemma_copy_params_edicts(v: VmView, sizes: Seq<u8>, i: int, n: int, dst: int)
    ensures
        (#[trigger] spec_copy_params(v, sizes, i, n, dst)).0.edicts == v.edicts,
        spec_copy_params(v, sizes, i, n, dst).0.progs == v.progs,
    decreases n - i,
{
    if i < n {
        let r = spec_copy_global(v, (OFS_PARM0 + i * 3) as i16, dst, sizes[i] as int);
        lemma_copy_params_edicts(r.0, sizes, i + 1, n, dst + sizes[i]);
    }
}

pub broadcast proof fn lemma_store_pointer_shape(v: VmView, ptr: u32, src: i16, count: int)
    ensures
        shape((#[trigger] spec_store_pointer(v, ptr, src, count)).0) == shape(v),
        spec_store_pointer(v, ptr, src, count).0.progs == v.progs,
{
    let w = spec_store_pointer(v, ptr, src, count).0;
    assert(shape(w) =~= shape(v));
}

/// A step, and so a run, changes no entity's number of fields: its only
/// entity writes are stores through pointers, which keep the length.
#[verifier::rlimit(60)]
pub proof fn lemma_step_same_shape(v: VmView)
    requires
        v.frames.len() > 0,
    ensures
        same_shape(spec_step(v).0, v),
{
    broadcast use lemma_copy_params_edicts, lemma_store_pointer_shape;
    let w = spec_step(v).0;
    assert(shape(w) == shape(v));
    assert forall|i: int| 0 <= i < w.edicts.len() implies (#[trigger] w.edicts[i]).len() == v.edicts[i].len() by {
        assert(shape(w)[i] == shape(v)[i]);
    }
}

pub proof fn lemma_run_same_shape(v: VmView, fuel: nat)
    ensures
        same_shape(spec_run(v, fuel).0, v),
    decreases fuel,
{
    if v.frames.len() > 0 && fuel > 0 {
        lemma_step_same_shape(v);
        let s = spec_step(v);
        if s.1 == Ok::<Option<Pause>, VmError>(None) {
            lemma_run_same_shape(s.0, (fuel - 1) as nat);
        }
    }
}

/// Entities keep the program's field count: a new machine has it (its one
/// entity has that many fields), allocation adds an entity with that many,
/// and writes and runs keep every entity's length.
pub proof fn law_edicts_keep_field_count(v: VmView, entity: int, field: int, values: Seq<u32>, fuel: nat)
    requires
        edicts_sized(v),
        0 <= entity,
        0 <= field,
    ensures
        edicts_sized(VmView { edicts: v.edicts.push(Seq::new(nonneg(v.progs.entity_fields) as nat, |i: int| 0u32)), ..v }),
        edicts_sized(spec_write_edict(v, entity, field, values).0),
        edicts_sized(spec_run(v, fuel).0),
{
    lemma_run_same_shape(v, fuel);
    let w = spec_write_edict(v, entity, field, values).0;
    assert forall|i: int| 0 <= i < w.edicts.len() implies (#[trigger] w.edicts[i]).len() == nonneg(w.progs.entity_fields) by {
        if entity < v.edicts.len() && field + values.len() <= v.edicts[entity].len() && i == entity {
        } else if entity < v.edicts.len() && field + values.len() <= v.edicts[entity].len() {
            assert(w.edicts[i] == v.edicts[i]);
        }
    }
    let r = spec_run(v, fuel).0;
    assert forall|i: int| 0 <= i < r.edicts.len() implies (#[trigger] r.edicts[i]).len() == nonneg(r.progs.entity_fields) by {
        assert(r.edicts[i].len() == v.edicts[i].len());
    }
    let a = VmView { edicts: v.edicts.push(Seq::new(nonneg(v.progs.entity_fields) as nat, |i: int| 0u32)), ..v };
    assert forall|i: int| 0 <= i < a.edicts.len() implies (#[trigger] a.edicts[i]).len() == nonneg(a.progs.entity_fields) by {
        if i < v.edicts.len() {
            assert(a.edicts[i] == v.edicts[i]);
        }
    }
}

/// What a write gives back: on a machine whose entities have the
/// program's field count `n` (as every well-formed machine's do), a write
/// is refused for a missing entity, then
/// for a range past `n`, and changes nothing; otherwise reading the range
/// back gives the values written, and every other field of every entity is
/// as it was.
pub proof fn law_edict_write_then_read(v: VmView, entity: int, field: int, values: Seq<u32>)
    requires
        edicts_sized(v),
        0 <= entity,
        0 <= field,
    ensures
        ({
            let (w, r) = spec_write_edict(v, entity, field, values);
            let n = nonneg(v.progs.entity_fields);
            &&& (entity >= v.edicts.len()) ==> r == Err::<(), VmError>(VmError::BadEdict(entity as i32)) && w == v
            &&& (entity < v.edicts.len() && field + values.len() > n) ==> r == Err::<(), VmError>(VmError::BadField(field as i32)) && w == v
            &&& (entity < v.edicts.len() && field + values.len() <= n) ==> {
                &&& r is Ok
                &&& spec_edict_field(w, entity, field, values.len() as int) == Ok::<Seq<u32>, VmError>(values)
                &&& w.edicts.len() == v.edicts.len()
                &&& forall|e: int, k: int| 0 <= e < v.edicts.len() && 0 <= k < v.edicts[e].len()
                    && !(e == entity && field <= k < field + values.len()) ==> #[trigger] w.edicts[e][k] == v.edicts[e][k]
            }
        }),
{
    let (w, r) = spec_write_edict(v, entity, field, values);
    if entity < v.edicts.len() && field + values.len() <= nonneg(v.progs.entity_fields) {
        assert(v.edicts[entity].len() == nonneg(v.progs.entity_fields));
        assert(w.edicts[entity].subrange(field, field + values.len()) =~= values);
        assert forall|e: int, k: int| 0 <= e < v.edicts.len() && 0 <= k < v.edicts[e].len()
            && !(e == entity && field <= k < field + values.len()) implies #[trigger] w.edicts[e][k] == v.edicts[e][k] by {
            if e != entity {
                assert(w.edicts[e] == v.edicts[e]);
            }
        }
    } else if entity < v.edicts.len() {
        assert(v.edicts[entity].len() == nonneg(v.progs.entity_fields));
    }
}

/// The statement that the innermost call runs next.
pub open spec fn current_statement(v: VmView) -> Statement {
    v.progs.statements[v.frames[v.frames.len() - 1].statement_index as int]
}

/// The float comparisons: with its operands and result slot among the
/// globals, each stores 1.0 at `c` exactly when the numbers at `a` and `b`
/// stand in its order (a NaN stands in no order and equals nothing), 0.0
/// otherwise, and the call goes on with the next statement. So `OP_GE`
/// holds of equal numbers, and `OP_GE` and `OP_LT` give opposite answers
/// on numbers that are not NaN.
pub proof fn law_float_comparisons(v: VmView)
    requires
        v.frames.len() > 0,
        0 <= v.frames[v.frames.len() - 1].statement_index < v.progs.statements.len(),
        0 <= current_statement(v).a < v.globals.len(),
        0 <= current_statement(v).b < v.globals.len(),
        0 <= current_statement(v).c < v.globals.len(),
    ensures
        ({
            let st = current_statement(v);
            let x = v.globals[st.a as int];
            let y = v.globals[st.b as int];
            let ordered = !f32_is_nan(x) && !f32_is_nan(y);
            let out = spec_step(v).0.globals[st.c as int];
            let si = v.frames[v.frames.len() - 1].statement_index;
            let stored = |holds: bool| {
                &&& spec_step(v).1 == Ok::<Option<Pause>, VmError>(None)
                &&& out == (if holds { 0x3f80_0000u32 } else { 0u32 })
                &&& spec_step(v).0.frames[v.frames.len() - 1].statement_index == (si + 1) as i32
            };
            &&& st.op == OP_LT ==> stored(ordered && f32_key(x) < f32_key(y))
            &&& st.op == OP_LE ==> stored(ordered && f32_key(x) <= f32_key(y))
            &&& st.op == OP_GT ==> stored(ordered && f32_key(x) > f32_key(y))
            &&& st.op == OP_GE ==> stored(ordered && f32_key(x) >= f32_key(y))
            &&& st.op == OP_EQ_F ==> stored(ordered && f32_key(x) == f32_key(y))
            &&& st.op == OP_NE_F ==> stored(!(ordered && f32_key(x) == f32_key(y)))
        }),
{
    let st = current_statement(v);
    let si = v.frames[v.frames.len() - 1].statement_index;
    assert(st == v.progs.statements[si as int]);
    assert(spec_read_raw(v, st.a) == Ok::<u32, VmError>(v.globals[st.a as int]));
    assert(spec_read_raw(v, st.b) == Ok::<u32, VmError>(v.globals[st.b as int]));
}

/// The other truth-valued statements: `OP_AND` and `OP_OR` on whether
/// each number is nonzero (either zero counting as zero), the equalities of
/// strings, entities and functions on the raw words, and `OP_NOT_F`,
/// `OP_NOT_S`, `OP_NOT_ENT` and `OP_NOT_FNC` on whether the word at `a` is
/// all zero bits; each stores 1.0 or 0.0 at `c` and goes on.
pub proof fn law_logic_statements(v: VmView)
    requires
        v.frames.len() > 0,
        0 <= v.frames[v.frames.len() - 1].statement_index < v.progs.statements.len(),
        0 <= current_statement(v).a < v.globals.len(),
        0 <= current_statement(v).b < v.globals.len(),
        0 <= current_statement(v).c < v.globals.len(),
    ensures
        ({
            let st = current_statement(v);
            let x = v.globals[st.a as int];
            let y = v.globals[st.b as int];
            let out = spec_step(v).0.globals[st.c as int];
            let stored = |holds: bool| {
                &&& spec_step(v).1 == Ok::<Option<Pause>, VmError>(None)
                &&& out == (if holds { 0x3f80_0000u32 } else { 0u32 })
            };
            &&& st.op == OP_AND ==> stored(x & 0x7fff_ffff != 0 && y & 0x7fff_ffff != 0)
            &&& st.op == OP_OR ==> stored(x & 0x7fff_ffff != 0 || y & 0x7fff_ffff != 0)
            &&& (st.op == OP_EQ_S || st.op == OP_EQ_E || st.op == OP_EQ_FNC) ==> stored(x == y)
            &&& (st.op == OP_NE_S || st.op == OP_NE_E || st.op == OP_NE_FNC) ==> stored(x != y)
            &&& (st.op == OP_NOT_F || st.op == OP_NOT_S || st.op == OP_NOT_ENT || st.op == OP_NOT_FNC) ==> stored(x == 0)
        }),
{
    let st = current_statement(v);
    let si = v.frames[v.frames.len() - 1].statement_index;
    assert(st == v.progs.statements[si as int]);
    assert(spec_read_raw(v, st.a) == Ok::<u32, VmError>(v.globals[st.a as int]));
    assert(spec_read_raw(v, st.b) == Ok::<u32, VmError>(v.globals[st.b as int]));
}

} // verus!
