//! The stack machine: runs one exported function of a module.
//!
//! Execution is a straight fold over the body: there are no branches and no
//! calls, so a body of `n` instructions takes `n` steps. Values are 32-bit
//! integers whatever their declared type; `I32Add` wraps around on overflow.

use crate::ast::{exports_view, EDesc, Export, ExportView, Func, Instr, Module, ModuleView};
use crate::runtime::error::RuntimeError;
use vstd::prelude::*;
use vstd::utf8::{encode_utf8, encode_utf8_decode_utf8};

verus! {

/// The index of the first export called `name` among those from `from` on.
pub open spec fn find_export(exports: Seq<ExportView>, name: Seq<char>, from: int) -> Option<int>
    decreases exports.len() - from,
{
    if from < 0 || from >= exports.len() {
        None
    } else if exports[from].name == name {
        Some(from)
    } else {
        find_export(exports, name, from + 1)
    }
}

/// The frame of a call: the arguments in order, then one zero for each
/// declared local.
pub open spec fn initial_frame(args: Seq<i32>, locals: nat) -> Seq<i32> {
    args + Seq::new(locals, |i: int| 0i32)
}

/// The sum of two values, wrapped around to 32 bits in two's complement.
pub open spec fn wrapping_sum(a: i32, b: i32) -> i32 {
    if a + b > i32::MAX {
        (a + b - 0x1_0000_0000) as i32
    } else if a + b < i32::MIN {
        (a + b + 0x1_0000_0000) as i32
    } else {
        (a + b) as i32
    }
}

/// The operand stack after one instruction. `LocalGet` pushes the value of a
/// slot of the frame; `I32Add` replaces the two topmost values by their sum.
pub open spec fn step(i: Instr, frame: Seq<i32>, stack: Seq<i32>) -> Result<
    Seq<i32>,
    RuntimeError,
> {
    match i {
        Instr::LocalGet(k) => if k < frame.len() {
            Ok(stack.push(frame[k as int]))
        } else {
            Err(RuntimeError::LocalIndexOutOfRange)
        },
        Instr::I32Add => if stack.len() < 2 {
            Err(RuntimeError::StackUnderflow)
        } else {
            Ok(
                stack.take(stack.len() - 2).push(
                    wrapping_sum(stack[stack.len() - 2], stack[stack.len() - 1]),
                ),
            )
        },
    }
}

/// The operand stack after the instructions from `pc` on, or the error of the
/// first instruction that fails.
pub open spec fn run(body: Seq<Instr>, pc: int, frame: Seq<i32>, stack: Seq<i32>) -> Result<
    Seq<i32>,
    RuntimeError,
>
    decreases body.len() - pc,
{
    if pc < 0 || pc >= body.len() {
        Ok(stack)
    } else {
        match step(body[pc], frame, stack) {
            Err(e) => Err(e),
            Ok(next) => run(body, pc + 1, frame, next),
        }
    }
}

/// The result of calling the function with index `index` on `args`.
///
/// The index must point into the function table and the function's type
/// index into the type table, else the module is rejected with
/// `InvalidModule`. The number of arguments must be the number of parameters
/// of the signature. The body must leave exactly one value, the result.
pub open spec fn call(m: ModuleView, index: int, args: Seq<i32>) -> Result<i32, RuntimeError> {
    if !(0 <= index < m.funcs.len()) {
        Err(RuntimeError::InvalidModule)
    } else {
        let f = m.funcs[index];
        if !(0 <= f.f_type < m.types.len()) {
            Err(RuntimeError::InvalidModule)
        } else if args.len() != m.types[f.f_type as int].params.len() {
            Err(RuntimeError::ArgumentCountMismatch)
        } else {
            match run(f.body, 0, initial_frame(args, f.locals.len()), Seq::empty()) {
                Err(e) => Err(e),
                Ok(stack) => if stack.len() == 1 {
                    Ok(stack[0])
                } else {
                    Err(RuntimeError::ResultArityMismatch)
                },
            }
        }
    }
}

/// The result of calling the export `name` on `args`: `ExportNotFound` where
/// no export has that name, else the result of the function that the first
/// such export names.
pub open spec fn invoke(m: ModuleView, name: Seq<char>, args: Seq<i32>) -> Result<
    i32,
    RuntimeError,
> {
    match find_export(m.exports, name, 0) {
        None => Err(RuntimeError::ExportNotFound),
        Some(i) => match m.exports[i].e_desc {
            EDesc::FuncExport(index) => call(m, index as int, args),
        },
    }
}

/// A module whose indices point into its tables and whose exports have
/// pairwise different names.
pub open spec fn well_formed(m: ModuleView) -> bool {
    &&& forall|i: int|
        0 <= i < m.funcs.len() ==> 0 <= (#[trigger] m.funcs[i]).f_type < m.types.len()
    &&& forall|i: int|
        0 <= i < m.exports.len() ==> match (#[trigger] m.exports[i]).e_desc {
            EDesc::FuncExport(index) => index < m.funcs.len(),
        }
    &&& forall|i: int, j: int|
        0 <= i < j < m.exports.len() ==> (#[trigger] m.exports[i]).name != (
        #[trigger] m.exports[j]).name
}

/// The export that a search finds is the first one of that name, if there is
/// one at all.
pub proof fn lemma_find_export(exports: Seq<ExportView>, name: Seq<char>, from: int)
    requires
        0 <= from,
    ensures
        match find_export(exports, name, from) {
            Some(i) => {
                &&& from <= i < exports.len()
                &&& exports[i].name == name
                &&& forall|j: int| from <= j < i ==> (#[trigger] exports[j]).name != name
            },
            None => forall|j: int|
                from <= j < exports.len() ==> (#[trigger] exports[j]).name != name,
        },
    decreases exports.len() - from,
{
    if from < exports.len() && exports[from].name != name {
        lemma_find_export(exports, name, from + 1);
    }
}

/// A body fails, if at all, for want of operands or for a local index beyond
/// the frame.
pub proof fn lemma_run_errors(body: Seq<Instr>, pc: int, frame: Seq<i32>, stack: Seq<i32>)
    ensures
        run(body, pc, frame, stack) matches Err(e) ==> e == RuntimeError::StackUnderflow || e
            == RuntimeError::LocalIndexOutOfRange,
    decreases body.len() - pc,
{
    if 0 <= pc < body.len() {
        match step(body[pc], frame, stack) {
            Ok(next) => lemma_run_errors(body, pc + 1, frame, next),
            Err(_) => {},
        }
    }
}

/// In a well-formed module every export can be called by its name, and the
/// call reaches the function that the export names; it is never turned down
/// as an invalid module.
pub proof fn lemma_invoke_well_formed(m: ModuleView, i: int, args: Seq<i32>)
    requires
        well_formed(m),
        0 <= i < m.exports.len(),
    ensures
        invoke(m, m.exports[i].name, args) == call(
            m,
            m.exports[i].e_desc->FuncExport_0 as int,
            args,
        ),
        invoke(m, m.exports[i].name, args) != Err::<i32, RuntimeError>(
            RuntimeError::InvalidModule,
        ),
{
    let name = m.exports[i].name;
    lemma_find_export(m.exports, name, 0);
    let found = find_export(m.exports, name, 0)->Some_0;
    assert(found == i);
    let index = m.exports[i].e_desc->FuncExport_0 as int;
    assert(0 <= index < m.funcs.len());
    assert(0 <= m.funcs[index].f_type < m.types.len());
    let f = m.funcs[index];
    lemma_run_errors(f.body, 0, initial_frame(args, f.locals.len()), Seq::empty());
}

/// Two strings hold the same characters.
fn same_name(a: &str, b: &str) -> (r: bool)
    ensures
        r == (a@ == b@),
{
    let x = a.as_bytes();
    let y = b.as_bytes();
    proof {
        encode_utf8_decode_utf8(a@);
        encode_utf8_decode_utf8(b@);
    }
    if x.len() != y.len() {
        return false;
    }
    let mut i: usize = 0;
    while i < x.len()
        invariant
            i <= x.len(),
            x.len() == y.len(),
            x@ == encode_utf8(a@),
            y@ == encode_utf8(b@),
            forall|j: int| 0 <= j < i ==> x@[j] == y@[j],
        decreases x.len() - i,
    {
        if x[i] != y[i] {
            return false;
        }
        i = i + 1;
    }
    proof {
        assert(x@ =~= y@);
    }
    true
}

/// Finds the first export called `name`.
fn lookup(exports: &Vec<Export>, name: &str) -> (r: Option<usize>)
    ensures
        match find_export(exports_view(exports@), name@, 0) {
            Some(i) => r == Some(i as usize) && 0 <= i < exports.len(),
            None => r is None,
        },
{
    let mut i: usize = 0;
    while i < exports.len()
        invariant
            i <= exports.len(),
            find_export(exports_view(exports@), name@, 0) == find_export(
                exports_view(exports@),
                name@,
                i as int,
            ),
        decreases exports.len() - i,
    {
        proof {
            assert(exports_view(exports@)[i as int] == exports@[i as int]@);
        }
        if same_name(exports[i].name.as_str(), name) {
            return Some(i);
        }
        i = i + 1;
    }
    None
}

/// Runs `body` on `frame` and returns the operand stack it leaves.
fn run_body(body: &Vec<Instr>, frame: &Vec<i32>) -> (r: Result<Vec<i32>, RuntimeError>)
    ensures
        match run(body@, 0, frame@, Seq::empty()) {
            Ok(stack) => r matches Ok(out) && out@ == stack,
            Err(e) => r matches Err(x) && x == e,
        },
{
    let mut stack: Vec<i32> = Vec::new();
    let mut pc: usize = 0;
    while pc < body.len()
        invariant
            pc <= body.len(),
            run(body@, 0, frame@, Seq::empty()) == run(body@, pc as int, frame@, stack@),
        decreases body.len() - pc,
    {
        match body[pc] {
            Instr::LocalGet(k) => {
                if k >= frame.len() {
                    return Err(RuntimeError::LocalIndexOutOfRange);
                }
                stack.push(frame[k]);
            },
            Instr::I32Add => {
                if stack.len() < 2 {
                    return Err(RuntimeError::StackUnderflow);
                }
                let ghost before = stack@;
                let b: i32 = stack[stack.len() - 1];
                let a: i32 = stack[stack.len() - 2];
                stack.truncate(stack.len() - 2);
                stack.push(a.wrapping_add(b));
                proof {
                    assert(stack@ =~= before.take(before.len() - 2).push(wrapping_sum(a, b)));
                }
            },
        }
        pc = pc + 1;
    }
    Ok(stack)
}

/// Calls the export `name` of `module` on `args`.
///
/// The export is looked up by name, the first one winning. The frame holds the
/// arguments followed by a zero for each declared local. The types of the
/// arguments are not compared with the signature, only their number.
pub fn execute(module: &Module, name: &str, args: &[i32]) -> (r: Result<i32, RuntimeError>)
    ensures
        r == invoke(module@, name@, args@),
{
    let at: usize = match lookup(&module.exports, name) {
        Some(at) => at,
        None => return Err(RuntimeError::ExportNotFound),
    };
    proof {
        assert(module@.exports[at as int] == module.exports@[at as int]@);
    }
    let index: usize = match module.exports[at].e_desc {
        EDesc::FuncExport(index) => index,
    };
    if index >= module.funcs.len() {
        return Err(RuntimeError::InvalidModule);
    }
    let f: &Func = &module.funcs[index];
    proof {
        assert(module@.funcs[index as int] == f@);
    }
    if f.f_type < 0 || f.f_type as usize >= module.types.len() {
        return Err(RuntimeError::InvalidModule);
    }
    let signature = &module.types[f.f_type as usize];
    proof {
        assert(module@.types[f.f_type as int] == crate::ast::signature_view(*signature));
    }
    if args.len() != signature.0.len() {
        return Err(RuntimeError::ArgumentCountMismatch);
    }
    let mut frame: Vec<i32> = Vec::new();
    let mut i: usize = 0;
    while i < args.len()
        invariant
            i <= args.len(),
            frame@ == args@.take(i as int),
        decreases args.len() - i,
    {
        frame.push(args[i]);
        proof {
            assert(args@.take(i + 1) =~= args@.take(i as int).push(args@[i as int]));
        }
        i = i + 1;
    }
    let mut i: usize = 0;
    while i < f.locals.len()
        invariant
            i <= f.locals.len(),
            frame@ == initial_frame(args@, i as nat),
        decreases f.locals.len() - i,
    {
        frame.push(0);
        proof {
            assert(frame@ =~= initial_frame(args@, (i + 1) as nat));
        }
        i = i + 1;
    }
    let stack: Vec<i32> = match run_body(&f.body, &frame) {
        Ok(stack) => stack,
        Err(e) => return Err(e),
    };
    if stack.len() != 1 {
        return Err(RuntimeError::ResultArityMismatch);
    }
    Ok(stack[0])
}

} // verus!
