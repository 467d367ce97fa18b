use zodvm::ast::{EDesc, Export, Func, Instr, Module, ValueType};
use zodvm::compiler::{compile, is_encodable};
use zodvm::runtime::disassembler::parse_binary;
use zodvm::runtime::reader::Reader;

fn add_module() -> Module {
    Module {
        types: vec![(vec![ValueType::I32, ValueType::I32], vec![ValueType::I32])],
        funcs: vec![Func {
            f_type: 0,
            locals: vec![],
            body: vec![Instr::LocalGet(0), Instr::LocalGet(1), Instr::I32Add],
        }],
        exports: vec![Export {
            name: "add".to_string(),
            e_desc: EDesc::FuncExport(0),
        }],
    }
}

fn round_trip(module: &Module) -> Module {
    assert!(is_encodable(module));
    let binary = compile(module);
    let length = binary.len();
    let mut reader = Reader::new(binary);
    let decoded = parse_binary(&mut reader).unwrap();
    assert_eq!(reader.remaining(), 0);
    assert_eq!(reader.len(), length);
    decoded
}

#[test]
fn compile_add_gives_the_exact_bytes() {
    let binary = compile(&add_module());
    assert_eq!(
        binary,
        vec![
            0x00, 0x61, 0x73, 0x6d, // magic
            0x01, 0x00, 0x00, 0x00, // version
            0x01, 0x07, 0x01, 0x60, 0x02, 0x7f, 0x7f, 0x01, 0x7f, // types
            0x03, 0x02, 0x01, 0x00, // functions
            0x07, 0x08, 0x01, 0x03, 0x61, 0x64, 0x64, 0x00, 0x00, 0x00, // exports
            0x0a, 0x09, 0x01, 0x07, 0x00, 0x20, 0x00, 0x20, 0x01, 0x6a, 0x0b, // code
        ]
    );
}

#[test]
fn compile_empty_module() {
    let module = Module {
        types: vec![],
        funcs: vec![],
        exports: vec![],
    };
    assert_eq!(
        compile(&module),
        vec![
            0x00, 0x61, 0x73, 0x6d, 0x01, 0x00, 0x00, 0x00, 0x01, 0x01, 0x00, 0x03, 0x01, 0x00,
            0x07, 0x01, 0x00, 0x0a, 0x01, 0x00,
        ]
    );
    assert_eq!(round_trip(&module), module);
}

#[test]
fn round_trip_add() {
    let module = add_module();
    assert_eq!(round_trip(&module), module);
}

#[test]
fn round_trip_several_of_everything() {
    let module = Module {
        types: vec![
            (vec![], vec![]),
            (vec![ValueType::I64], vec![ValueType::I32, ValueType::I64]),
            (vec![ValueType::I32, ValueType::I32], vec![ValueType::I32]),
        ],
        funcs: vec![
            Func {
                f_type: 2,
                locals: vec![ValueType::I64, ValueType::I32],
                body: vec![Instr::LocalGet(3), Instr::LocalGet(255), Instr::I32Add],
            },
            Func {
                f_type: 255,
                locals: vec![],
                body: vec![],
            },
            Func {
                f_type: 0,
                locals: vec![ValueType::I32],
                body: vec![Instr::I32Add, Instr::I32Add],
            },
        ],
        exports: vec![
            Export {
                name: "".to_string(),
                e_desc: EDesc::FuncExport(2),
            },
            Export {
                name: "gr\u{fc}\u{df}e \u{4e16}\u{754c} \u{1f600}".to_string(),
                e_desc: EDesc::FuncExport(255),
            },
            Export {
                name: "add".to_string(),
                e_desc: EDesc::FuncExport(0),
            },
        ],
    };
    assert_eq!(round_trip(&module), module);
}

#[test]
fn round_trip_at_the_ceiling() {
    let module = Module {
        types: vec![(vec![ValueType::I32; 255], vec![ValueType::I64; 255]); 255],
        funcs: vec![
            Func {
                f_type: 7,
                locals: vec![ValueType::I64; 255],
                body: vec![Instr::LocalGet(9); 1000],
            };
            255
        ],
        exports: vec![
            Export {
                name: "x".repeat(255),
                e_desc: EDesc::FuncExport(254),
            };
            255
        ],
    };
    assert_eq!(round_trip(&module), module);
}

#[test]
fn size_bytes_wrap_around() {
    // 300 instructions of one byte each: the body's payload is 302 bytes long,
    // the section's 304
    let module = Module {
        types: vec![],
        funcs: vec![Func {
            f_type: 0,
            locals: vec![],
            body: vec![Instr::I32Add; 300],
        }],
        exports: vec![],
    };
    let binary = compile(&module);
    let code = &binary[binary.len() - 306..];
    assert_eq!(code[0], 0x0a);
    assert_eq!(code[1], (304 % 256) as u8);
    assert_eq!(code[2], 0x01);
    assert_eq!(code[3], (302 % 256) as u8);
    assert_eq!(code[4], 0x00);
    assert_eq!(code[305], 0x0b);
    assert_eq!(round_trip(&module), module);
}

#[test]
fn more_than_255_of_anything_is_not_encodable() {
    assert!(is_encodable(&add_module()));

    let mut module = add_module();
    module.types = vec![(vec![], vec![]); 256];
    assert!(!is_encodable(&module));

    let mut module = add_module();
    module.types[0].0 = vec![ValueType::I32; 256];
    assert!(!is_encodable(&module));

    let mut module = add_module();
    module.types[0].1 = vec![ValueType::I32; 256];
    assert!(!is_encodable(&module));

    let mut module = add_module();
    module.funcs = vec![module.funcs[0].clone(); 256];
    assert!(!is_encodable(&module));

    let mut module = add_module();
    module.funcs[0].f_type = 256;
    assert!(!is_encodable(&module));

    let mut module = add_module();
    module.funcs[0].f_type = -1;
    assert!(!is_encodable(&module));

    let mut module = add_module();
    module.funcs[0].locals = vec![ValueType::I64; 256];
    assert!(!is_encodable(&module));

    let mut module = add_module();
    module.funcs[0].body.push(Instr::LocalGet(256));
    assert!(!is_encodable(&module));

    let mut module = add_module();
    module.exports = vec![module.exports[0].clone(); 256];
    assert!(!is_encodable(&module));

    let mut module = add_module();
    module.exports[0].name = "x".repeat(256);
    assert!(!is_encodable(&module));

    // 128 characters of two bytes each
    let mut module = add_module();
    module.exports[0].name = "\u{e9}".repeat(128);
    assert!(!is_encodable(&module));

    let mut module = add_module();
    module.exports[0].e_desc = EDesc::FuncExport(256);
    assert!(!is_encodable(&module));
}

#[test]
fn a_long_body_is_encodable() {
    let mut module = add_module();
    module.funcs[0].body = vec![Instr::LocalGet(0); 70_000];
    assert!(is_encodable(&module));
    assert_eq!(round_trip(&module), module);
}
