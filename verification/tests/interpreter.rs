use zodvm::ast::{EDesc, Export, Func, Instr, Module, ValueType};
use zodvm::compiler::compile;
use zodvm::runtime::error::RuntimeError;
use zodvm::runtime::interpreter::execute;
use zodvm::runtime::invoke_function;

fn add_module() -> Module {
    Module {
        types: vec![(vec![ValueType::I32, ValueType::I32], vec![ValueType::I32])],
        funcs: vec![Func {
            f_type: 0,
            locals: vec![],
            body: vec![Instr::LocalGet(0), Instr::LocalGet(1), Instr::I32Add],
        }],
        exports: vec![Export {
            name: "add".to_string(),
            e_desc: EDesc::FuncExport(0),
        }],
    }
}

fn module_with_body(params: usize, locals: usize, body: Vec<Instr>) -> Module {
    Module {
        types: vec![(vec![ValueType::I32; params], vec![ValueType::I32])],
        funcs: vec![Func {
            f_type: 0,
            locals: vec![ValueType::I32; locals],
            body,
        }],
        exports: vec![Export {
            name: "f".to_string(),
            e_desc: EDesc::FuncExport(0),
        }],
    }
}

#[test]
fn add_three_and_four() {
    assert_eq!(execute(&add_module(), "add", &[3, 4]), Ok(7));
}

#[test]
fn add_minus_one_and_one() {
    assert_eq!(execute(&add_module(), "add", &[-1, 1]), Ok(0));
}

#[test]
fn add_through_the_binary() {
    let binary = compile(&add_module());
    assert_eq!(invoke_function(binary.clone(), "add", &[3, 4]), Ok(7));
    assert_eq!(invoke_function(binary, "add", &[-1, 1]), Ok(0));
}

#[test]
fn add_with_one_argument_is_an_arity_mismatch() {
    assert_eq!(
        execute(&add_module(), "add", &[3]),
        Err(RuntimeError::ArgumentCountMismatch)
    );
    assert_eq!(
        execute(&add_module(), "add", &[1, 2, 3]),
        Err(RuntimeError::ArgumentCountMismatch)
    );
    let binary = compile(&add_module());
    assert_eq!(
        invoke_function(binary, "add", &[3]),
        Err(RuntimeError::ArgumentCountMismatch)
    );
}

#[test]
fn lone_add_underflows_the_stack() {
    let module = module_with_body(0, 0, vec![Instr::I32Add]);
    assert_eq!(execute(&module, "f", &[]), Err(RuntimeError::StackUnderflow));
    let binary = compile(&module);
    assert_eq!(
        invoke_function(binary, "f", &[]),
        Err(RuntimeError::StackUnderflow)
    );
}

#[test]
fn add_on_one_operand_underflows_the_stack() {
    let module = module_with_body(1, 0, vec![Instr::LocalGet(0), Instr::I32Add]);
    assert_eq!(
        execute(&module, "f", &[5]),
        Err(RuntimeError::StackUnderflow)
    );
}

#[test]
fn unknown_export_is_not_found() {
    assert_eq!(
        execute(&add_module(), "sub", &[3, 4]),
        Err(RuntimeError::ExportNotFound)
    );
    assert_eq!(
        execute(&add_module(), "ad", &[3, 4]),
        Err(RuntimeError::ExportNotFound)
    );
    assert_eq!(
        execute(&add_module(), "addd", &[3, 4]),
        Err(RuntimeError::ExportNotFound)
    );
    assert_eq!(
        execute(&add_module(), "", &[3, 4]),
        Err(RuntimeError::ExportNotFound)
    );
}

#[test]
fn local_index_beyond_the_frame() {
    let module = module_with_body(2, 1, vec![Instr::LocalGet(3)]);
    assert_eq!(
        execute(&module, "f", &[1, 2]),
        Err(RuntimeError::LocalIndexOutOfRange)
    );
    let module = module_with_body(2, 1, vec![Instr::LocalGet(2)]);
    assert_eq!(execute(&module, "f", &[1, 2]), Ok(0));
}

#[test]
fn declared_locals_start_at_zero_behind_the_arguments() {
    let module = module_with_body(
        2,
        2,
        vec![
            Instr::LocalGet(1),
            Instr::LocalGet(2),
            Instr::I32Add,
            Instr::LocalGet(3),
            Instr::I32Add,
        ],
    );
    assert_eq!(execute(&module, "f", &[10, 20]), Ok(20));
}

#[test]
fn the_stack_must_end_with_one_value() {
    let module = module_with_body(0, 0, vec![]);
    assert_eq!(
        execute(&module, "f", &[]),
        Err(RuntimeError::ResultArityMismatch)
    );
    let module = module_with_body(1, 0, vec![Instr::LocalGet(0), Instr::LocalGet(0)]);
    assert_eq!(
        execute(&module, "f", &[1]),
        Err(RuntimeError::ResultArityMismatch)
    );
    let module = module_with_body(1, 0, vec![Instr::LocalGet(0)]);
    assert_eq!(execute(&module, "f", &[41]), Ok(41));
}

#[test]
fn the_sum_wraps_around() {
    assert_eq!(
        execute(&add_module(), "add", &[i32::MAX, 1]),
        Ok(i32::MIN)
    );
    assert_eq!(
        execute(&add_module(), "add", &[i32::MIN, -1]),
        Ok(i32::MAX)
    );
    assert_eq!(
        execute(&add_module(), "add", &[i32::MIN, i32::MIN]),
        Ok(0)
    );
    assert_eq!(
        execute(&add_module(), "add", &[i32::MAX, i32::MAX]),
        Ok(-2)
    );
}

#[test]
fn operands_are_taken_from_the_top() {
    // 1 2 3 + + leaves 1 + (2 + 3)
    let module = module_with_body(
        3,
        0,
        vec![
            Instr::LocalGet(0),
            Instr::LocalGet(1),
            Instr::LocalGet(2),
            Instr::I32Add,
            Instr::I32Add,
        ],
    );
    assert_eq!(execute(&module, "f", &[1, 2, 3]), Ok(6));
    // 1 2 3 + leaves two values
    let module = module_with_body(
        3,
        0,
        vec![
            Instr::LocalGet(0),
            Instr::LocalGet(1),
            Instr::LocalGet(2),
            Instr::I32Add,
        ],
    );
    assert_eq!(
        execute(&module, "f", &[1, 2, 3]),
        Err(RuntimeError::ResultArityMismatch)
    );
}

#[test]
fn the_first_export_of_a_name_wins() {
    let mut module = add_module();
    module.funcs.push(Func {
        f_type: 0,
        locals: vec![],
        body: vec![Instr::LocalGet(0)],
    });
    module.exports.push(Export {
        name: "first".to_string(),
        e_desc: EDesc::FuncExport(1),
    });
    module.exports.push(Export {
        name: "add".to_string(),
        e_desc: EDesc::FuncExport(1),
    });
    assert_eq!(execute(&module, "add", &[3, 4]), Ok(7));
    assert_eq!(execute(&module, "first", &[3, 4]), Ok(3));
}

#[test]
fn export_of_a_missing_function_is_an_invalid_module() {
    let mut module = add_module();
    module.exports[0].e_desc = EDesc::FuncExport(1);
    assert_eq!(
        execute(&module, "add", &[3, 4]),
        Err(RuntimeError::InvalidModule)
    );
    let binary = compile(&module);
    assert_eq!(
        invoke_function(binary, "add", &[3, 4]),
        Err(RuntimeError::InvalidModule)
    );
}

#[test]
fn function_of_a_missing_type_is_an_invalid_module() {
    let mut module = add_module();
    module.funcs[0].f_type = 1;
    assert_eq!(
        execute(&module, "add", &[3, 4]),
        Err(RuntimeError::InvalidModule)
    );
    module.funcs[0].f_type = -1;
    assert_eq!(
        execute(&module, "add", &[3, 4]),
        Err(RuntimeError::InvalidModule)
    );
}

#[test]
fn the_first_failing_instruction_decides() {
    let module = module_with_body(0, 0, vec![Instr::I32Add, Instr::LocalGet(9)]);
    assert_eq!(execute(&module, "f", &[]), Err(RuntimeError::StackUnderflow));
    let module = module_with_body(0, 0, vec![Instr::LocalGet(9), Instr::I32Add]);
    assert_eq!(
        execute(&module, "f", &[]),
        Err(RuntimeError::LocalIndexOutOfRange)
    );
}

#[test]
fn a_buffer_that_is_no_module_fails_with_the_decoders_error() {
    assert_eq!(
        invoke_function(vec![], "add", &[3, 4]),
        Err(RuntimeError::ModuleTooShort)
    );
    assert_eq!(
        invoke_function(vec![0x00, 0x61, 0x73, 0x6d, 0x01, 0x00, 0x00, 0x00], "add", &[]),
        Err(RuntimeError::UnexpectedEndOfInput)
    );
    assert_eq!(
        invoke_function(vec![0x7f, 0x45, 0x4c, 0x46, 0x01, 0x00, 0x00, 0x00], "add", &[]),
        Err(RuntimeError::WrongMagicHeader)
    );
}

#[test]
fn names_are_compared_as_text() {
    let mut module = add_module();
    module.exports[0].name = "\u{4e16}\u{754c}".to_string();
    assert_eq!(execute(&module, "\u{4e16}\u{754c}", &[1, 2]), Ok(3));
    assert_eq!(
        execute(&module, "\u{4e16}", &[1, 2]),
        Err(RuntimeError::ExportNotFound)
    );
}
