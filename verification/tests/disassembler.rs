use zodvm::ast::{EDesc, Export, Func, Instr, Module, ValueType};
use zodvm::runtime::disassembler::{
    check_header, parse_binary, parse_code_section, parse_export_section, parse_func_section,
    parse_type_section,
};
use zodvm::runtime::error::RuntimeError;
use zodvm::runtime::reader::Reader;

#[test]
fn parse_code_section_test() {
    let binary = vec![
        0x0a, // section code
        0x09, // section size
        0x01, // num function
        // function body 0
        0x07, // func body size
        0x00, // local decl count
        0x20, // local.get
        0x00, // local index
        0x20, // local.get
        0x01, // local index
        0x6a, // i32.add
        0x0b, // end
    ];
    let mut reader = Reader::new(binary);

    let (locals, instructions) = parse_code_section(&mut reader).unwrap()[0].clone();

    assert_eq!(Vec::<ValueType>::new(), locals);
    assert_eq!(
        vec![Instr::LocalGet(0), Instr::LocalGet(1), Instr::I32Add],
        instructions
    );
}

#[test]
fn parse_export_section_test() {
    let binary = vec![
        0x07, // section export
        0x08, // section size
        0x01, // num exports
        0x03, // string length
        // "add" export name
        0x61, // a
        0x64, // d
        0x64, // d
        0x00, // reserved
        0x00, // export kind
        0x00, // export func index
    ];
    let mut reader = Reader::new(binary);

    let result = parse_export_section(&mut reader).unwrap();

    assert_eq!(
        vec![Export {
            name: "add".to_string(),
            e_desc: EDesc::FuncExport(0)
        }],
        result
    );
}

#[test]
fn parse_func_section_test() {
    let binary = vec![
        0x03, // section code
        0x02, // section size
        0x01, // num functions
        0x00, // function 0 signature index
    ];
    let mut reader = Reader::new(binary);

    let result = parse_func_section(&mut reader).unwrap();

    assert_eq!(vec![0], result);
}

fn add_binary() -> Vec<u8> {
    vec![
        // binary magic
        0x00, // \0
        0x61, // a
        0x73, // s
        0x6d, // m
        // binary version
        0x01, // 1
        0x00, // 0
        0x00, // 0
        0x00, // 0
        // section "Type" (1)
        0x01, // section code
        0x07, // section size
        0x01, // num types
        // type 0
        0x60, // func
        0x02, // num params
        0x7f, // i32
        0x7f, // i32
        0x01, // num results
        0x7f, // i32
        // section "Function" (3)
        0x03, // section code
        0x02, // section size
        0x01, // num functions
        0x00, // function 0 signature index
        // section "Export" (7)
        0x07, // section export
        0x08, // section size
        0x01, // num exports
        0x03, // string length
        // "add" export name
        0x61, // a
        0x64, // d
        0x64, // d
        0x00, // reserved
        0x00, // export kind
        0x00, // export func index
        // section "Code" (10)
        0x0a, // section code
        0x09, // section size
        0x01, // num function
        // function body 0
        0x07, // func body size
        0x00, // local decl count
        0x20, // local.get
        0x00, // local index
        0x20, // local.get
        0x01, // local index
        0x6a, // i32.add
        0x0b, // end
    ]
}

#[test]
fn parse_binary_test() {
    let binary = add_binary();
    let mut reader = Reader::new(binary);

    let result = parse_binary(&mut reader).unwrap();

    assert_eq!(
        Module {
            types: vec![(vec![ValueType::I32, ValueType::I32], vec![ValueType::I32])],
            funcs: vec![Func {
                f_type: 0,
                locals: vec![],
                body: vec![Instr::LocalGet(0), Instr::LocalGet(1), Instr::I32Add],
            }],
            exports: vec![Export {
                name: "add".to_string(),
                e_desc: EDesc::FuncExport(0),
            }],
        },
        result
    );
}

#[test]
fn check_header_test() {
    let binary = vec![
        // binary magic
        0x00, // \0
        0x61, // a
        0x73, // s
        0x6d, // m
        // binary version
        0x01, // 1
        0x00, // 0
        0x00, // 0
        0x00, // 0
    ];
    let mut reader = Reader::new(binary);

    assert!(check_header(&mut reader).is_ok());
}

#[test]
fn parse_type_section_test() {
    let binary = vec![
        // section "Type" (1)
        0x01, // section code
        0x07, // section size
        0x01, // num types
        // type 0
        0x60, // func
        0x02, // num params
        0x7f, // i32
        0x7f, // i32
        0x01, // num results
        0x7f, // i32
    ];
    let mut reader = Reader::new(binary);

    let types = parse_type_section(&mut reader).unwrap();

    assert_eq!(
        types,
        vec![(vec![ValueType::I32, ValueType::I32], vec![ValueType::I32])]
    );
}

fn decode(binary: Vec<u8>) -> Result<Module, RuntimeError> {
    let mut reader = Reader::new(binary);
    parse_binary(&mut reader)
}

#[test]
fn header_shorter_than_eight_bytes_is_too_short() {
    assert_eq!(decode(vec![]), Err(RuntimeError::ModuleTooShort));
    assert_eq!(
        decode(vec![0x00, 0x61, 0x73, 0x6d, 0x01, 0x00, 0x00]),
        Err(RuntimeError::ModuleTooShort)
    );
    // a wrong magic does not matter while the buffer is too short
    assert_eq!(
        decode(vec![0xff, 0x61, 0x73, 0x6d]),
        Err(RuntimeError::ModuleTooShort)
    );
}

#[test]
fn any_altered_magic_byte_is_rejected() {
    for position in 0..4 {
        let mut binary = add_binary();
        binary[position] ^= 0x01;
        assert_eq!(decode(binary), Err(RuntimeError::WrongMagicHeader));
    }
}

#[test]
fn any_version_but_one_is_rejected() {
    for position in 4..8 {
        let mut binary = add_binary();
        binary[position] = 0x02;
        assert_eq!(decode(binary), Err(RuntimeError::WrongVersionHeader));
    }
    let mut binary = add_binary();
    binary[4] = 0x00;
    assert_eq!(decode(binary), Err(RuntimeError::WrongVersionHeader));
}

#[test]
fn the_version_is_little_endian() {
    // 1 written big-endian is 0x0100_0000 read little-endian
    let binary = vec![0x00, 0x61, 0x73, 0x6d, 0x00, 0x00, 0x00, 0x01];
    let mut reader = Reader::new(binary);
    assert_eq!(
        check_header(&mut reader),
        Err(RuntimeError::WrongVersionHeader)
    );
}

fn sections() -> [Vec<u8>; 4] {
    let binary = add_binary();
    [
        binary[8..17].to_vec(),
        binary[17..21].to_vec(),
        binary[21..31].to_vec(),
        binary[31..].to_vec(),
    ]
}

#[test]
fn swapping_two_sections_is_rejected() {
    let in_order = sections();
    for i in 0..4 {
        for j in (i + 1)..4 {
            let mut swapped = in_order.clone();
            swapped.swap(i, j);
            let mut binary = add_binary()[..8].to_vec();
            for section in swapped.iter() {
                binary.extend_from_slice(section);
            }
            assert_eq!(decode(binary), Err(RuntimeError::InvalidSectionCode));
        }
    }
}

#[test]
fn sections_put_back_in_order_decode() {
    let mut binary = add_binary()[..8].to_vec();
    for section in sections().iter() {
        binary.extend_from_slice(section);
    }
    assert_eq!(binary, add_binary());
    assert!(decode(binary).is_ok());
}

#[test]
fn unknown_instruction_tag_is_rejected() {
    for tag in 0..=255u8 {
        if tag == 0x20 || tag == 0x6a || tag == 0x0b {
            continue;
        }
        let binary = vec![0x0a, 0x05, 0x01, 0x03, 0x00, 0x6a, tag, 0x0b];
        let mut reader = Reader::new(binary);
        assert_eq!(
            parse_code_section(&mut reader),
            Err(RuntimeError::InvalidInstruction)
        );
    }
}

#[test]
fn unknown_instruction_tag_fails_the_whole_module() {
    let mut binary = add_binary();
    let at = binary.len() - 2;
    assert_eq!(binary[at], 0x6a);
    binary[at] = 0x6b;
    assert_eq!(decode(binary), Err(RuntimeError::InvalidInstruction));
}

#[test]
fn an_operand_byte_is_no_tag() {
    // 0xff stands where the index of local.get is expected
    let binary = vec![0x0a, 0x05, 0x01, 0x03, 0x00, 0x20, 0xff, 0x0b];
    let mut reader = Reader::new(binary);
    assert_eq!(
        parse_code_section(&mut reader),
        Ok(vec![(vec![], vec![Instr::LocalGet(255)])])
    );
}

#[test]
fn instruction_stream_without_end_marker_runs_out_of_input() {
    let binary = vec![0x0a, 0x04, 0x01, 0x02, 0x00, 0x6a];
    let mut reader = Reader::new(binary);
    assert_eq!(
        parse_code_section(&mut reader),
        Err(RuntimeError::UnexpectedEndOfInput)
    );
    let binary = vec![0x0a, 0x04, 0x01, 0x02, 0x00, 0x20];
    let mut reader = Reader::new(binary);
    assert_eq!(
        parse_code_section(&mut reader),
        Err(RuntimeError::UnexpectedEndOfInput)
    );
}

#[test]
fn wrong_section_tags_are_rejected() {
    let mut reader = Reader::new(vec![0x02, 0x01, 0x00]);
    assert_eq!(
        parse_type_section(&mut reader),
        Err(RuntimeError::InvalidSectionCode)
    );
    let mut reader = Reader::new(vec![0x01, 0x01, 0x00]);
    assert_eq!(
        parse_func_section(&mut reader),
        Err(RuntimeError::InvalidSectionCode)
    );
    let mut reader = Reader::new(vec![0x01, 0x01, 0x00]);
    assert_eq!(
        parse_export_section(&mut reader),
        Err(RuntimeError::InvalidSectionCode)
    );
    let mut reader = Reader::new(vec![0x01, 0x01, 0x00]);
    assert_eq!(
        parse_code_section(&mut reader),
        Err(RuntimeError::InvalidSectionCode)
    );
}

#[test]
fn value_type_bytes() {
    let mut reader = Reader::new(vec![0x01, 0x06, 0x01, 0x60, 0x02, 0x7f, 0x7e, 0x01, 0x7e]);
    assert_eq!(
        parse_type_section(&mut reader),
        Ok(vec![(
            vec![ValueType::I32, ValueType::I64],
            vec![ValueType::I64]
        )])
    );
    let mut reader = Reader::new(vec![0x01, 0x05, 0x01, 0x60, 0x01, 0x7d, 0x00]);
    assert_eq!(
        parse_type_section(&mut reader),
        Err(RuntimeError::InvalidValueType)
    );
    // a local of unknown type in the code section
    let mut reader = Reader::new(vec![0x0a, 0x04, 0x01, 0x03, 0x01, 0x00, 0x0b]);
    assert_eq!(
        parse_code_section(&mut reader),
        Err(RuntimeError::InvalidValueType)
    );
}

#[test]
fn the_signature_marker_and_the_sizes_are_not_consulted() {
    let mut reader = Reader::new(vec![0x01, 0xee, 0x01, 0x00, 0x00, 0x00]);
    assert_eq!(parse_type_section(&mut reader), Ok(vec![(vec![], vec![])]));
    let mut reader = Reader::new(vec![0x0a, 0xee, 0x01, 0xdd, 0x01, 0x7f, 0x0b]);
    assert_eq!(
        parse_code_section(&mut reader),
        Ok(vec![(vec![ValueType::I32], vec![])])
    );
}

#[test]
fn export_with_another_kind_is_rejected() {
    let binary = vec![0x07, 0x06, 0x01, 0x01, 0x61, 0x00, 0x01, 0x00];
    let mut reader = Reader::new(binary);
    assert_eq!(
        parse_export_section(&mut reader),
        Err(RuntimeError::InvalidExportType)
    );
}

#[test]
fn export_name_must_be_utf8() {
    let binary = vec![0x07, 0x06, 0x01, 0x02, 0xc3, 0x28, 0x00, 0x00, 0x00];
    let mut reader = Reader::new(binary);
    assert_eq!(
        parse_export_section(&mut reader),
        Err(RuntimeError::InvalidExportName)
    );
    // "é" in two bytes
    let binary = vec![0x07, 0x06, 0x01, 0x02, 0xc3, 0xa9, 0x00, 0x00, 0x05];
    let mut reader = Reader::new(binary);
    assert_eq!(
        parse_export_section(&mut reader),
        Ok(vec![Export {
            name: "\u{e9}".to_string(),
            e_desc: EDesc::FuncExport(5)
        }])
    );
}

#[test]
fn export_carries_its_function_index() {
    let binary = vec![
        0x07, 0x0b, 0x02, 0x01, 0x61, 0x00, 0x00, 0x03, 0x01, 0x62, 0x07, 0x00, 0xff,
    ];
    let mut reader = Reader::new(binary);
    assert_eq!(
        parse_export_section(&mut reader),
        Ok(vec![
            Export {
                name: "a".to_string(),
                e_desc: EDesc::FuncExport(3)
            },
            Export {
                name: "b".to_string(),
                e_desc: EDesc::FuncExport(255)
            },
        ])
    );
}

#[test]
fn export_entry_cut_short_runs_out_of_input() {
    // the name, the reserved byte and the kind, but no index
    let binary = vec![0x07, 0x07, 0x01, 0x03, 0x61, 0x64, 0x64, 0x00, 0x00];
    let mut reader = Reader::new(binary);
    assert_eq!(
        parse_export_section(&mut reader),
        Err(RuntimeError::UnexpectedEndOfInput)
    );
    // a name longer than what is left
    let binary = vec![0x07, 0x07, 0x01, 0x09, 0x61, 0x64, 0x64];
    let mut reader = Reader::new(binary);
    assert_eq!(
        parse_export_section(&mut reader),
        Err(RuntimeError::UnexpectedEndOfInput)
    );
}

#[test]
fn function_and_code_sections_must_agree_in_length() {
    let mut binary = add_binary();
    // a function section of two entries beside a code section of one
    binary[18] = 0x03;
    binary[19] = 0x02;
    binary.insert(21, 0x00);
    assert_eq!(decode(binary), Err(RuntimeError::InvalidModule));

    // a function section of no entries beside a code section of one
    let mut binary = add_binary();
    binary[18] = 0x01;
    binary[19] = 0x00;
    binary.remove(20);
    assert_eq!(decode(binary), Err(RuntimeError::InvalidModule));
}

#[test]
fn truncated_module_runs_out_of_input() {
    let whole = add_binary();
    for length in 8..whole.len() {
        let binary = whole[..length].to_vec();
        assert_eq!(decode(binary), Err(RuntimeError::UnexpectedEndOfInput));
    }
}

#[test]
fn bytes_behind_the_code_section_are_left_alone() {
    let mut binary = add_binary();
    let length = binary.len();
    binary.extend_from_slice(&[0xde, 0xad]);
    let mut reader = Reader::new(binary);
    assert!(parse_binary(&mut reader).is_ok());
    assert_eq!(reader.remaining(), 2);
    assert_eq!(reader.len(), length + 2);
}

#[test]
fn empty_module_decodes() {
    let binary = vec![
        0x00, 0x61, 0x73, 0x6d, 0x01, 0x00, 0x00, 0x00, 0x01, 0x01, 0x00, 0x03, 0x01, 0x00, 0x07,
        0x01, 0x00, 0x0a, 0x01, 0x00,
    ];
    assert_eq!(
        decode(binary),
        Ok(Module {
            types: vec![],
            funcs: vec![],
            exports: vec![]
        })
    );
}

#[test]
fn export_entry_without_reserved_byte_is_misread() {
    // name, kind, index: the reserved byte between name and kind is missing,
    // so the kind is taken for it, the index for the kind, and the next
    // section's tag for the index
    let mut binary = add_binary();
    binary.remove(28);
    binary[22] = 0x07;
    assert_eq!(decode(binary), Err(RuntimeError::InvalidSectionCode));

    let binary = vec![0x07, 0x07, 0x01, 0x03, 0x61, 0x64, 0x64, 0x00, 0x00];
    let mut reader = Reader::new(binary);
    assert_eq!(
        parse_export_section(&mut reader),
        Err(RuntimeError::UnexpectedEndOfInput)
    );
}
