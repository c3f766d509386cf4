use scrappy::decode::{eval_const_expr, parse};
use scrappy::instr::{decode_instr, BlockType, Instr, MemArg};
use scrappy::parse_wasm;
use scrappy::reader::Reader;
use scrappy::types::{ExportDesc, ImportDesc, Limits};
use scrappy::{GlobalType, MemType, ValType, Value, WasmError};

fn leb(v: u32) -> Vec<u8> {
    let mut v = v;
    let mut out = Vec::new();
    loop {
        let b = (v & 0x7F) as u8;
        v >>= 7;
        if v == 0 {
            out.push(b);
            return out;
        }
        out.push(b | 0x80);
    }
}

fn section(id: u8, body: &[u8]) -> Vec<u8> {
    let mut out = vec![id];
    out.extend(leb(body.len() as u32));
    out.extend_from_slice(body);
    out
}

fn module(sections: &[Vec<u8>]) -> Vec<u8> {
    let mut out = vec![0x00, 0x61, 0x73, 0x6D, 0x01, 0x00, 0x00, 0x00];
    for s in sections {
        out.extend_from_slice(s);
    }
    out
}

fn error_of(bytes: &[u8]) -> WasmError {
    match parse(bytes) {
        Ok(_) => panic!("parsed"),
        Err(e) => e,
    }
}

#[test]
fn unsigned_numbers_are_read() {
    let data = [0xE5, 0x8E, 0x26, 0x07];
    let mut r = Reader::new(&data);
    assert_eq!(r.read_u32(), Ok(624485));
    assert_eq!(r.pos, 3);
    assert_eq!(r.remaining(), 1);
    assert_eq!(r.read_u32(), Ok(7));
    assert!(r.is_empty());
    assert_eq!(r.read_u32(), Err(WasmError::UnexpectedEof));
    assert_eq!(r.pos, 4);
}

#[test]
fn every_width_round_trips() {
    let mut r = Reader::new(&[0xFF, 0xFF, 0xFF, 0xFF, 0x0F]);
    assert_eq!(r.read_u32(), Ok(u32::MAX));
    let mut r =
        Reader::new(&[0xFF, 0xFF, 0xFF, 0xFF, 0xFF, 0xFF, 0xFF, 0xFF, 0xFF, 0x01]);
    assert_eq!(r.read_u64(), Ok(u64::MAX));
    assert_eq!(r.pos, 10);
    let mut r = Reader::new(&[0x80, 0x80, 0x80, 0x80, 0x78]);
    assert_eq!(r.read_i32(), Ok(i32::MIN));
    let mut r = Reader::new(&[0xFF, 0xFF, 0xFF, 0xFF, 0x07]);
    assert_eq!(r.read_i32(), Ok(i32::MAX));
    let mut r =
        Reader::new(&[0x80, 0x80, 0x80, 0x80, 0x80, 0x80, 0x80, 0x80, 0x80, 0x7F]);
    assert_eq!(r.read_i64(), Ok(i64::MIN));
}

#[test]
fn signed_numbers_extend_their_sign() {
    assert_eq!(Reader::new(&[0x7F]).read_i32(), Ok(-1));
    assert_eq!(Reader::new(&[0x3F]).read_i32(), Ok(63));
    assert_eq!(Reader::new(&[0xC0, 0xBB, 0x78]).read_i32(), Ok(-123456));
    assert_eq!(Reader::new(&[0xC0, 0xBB, 0x78]).read_i64(), Ok(-123456));
    assert_eq!(Reader::new(&[0x40]).read_i64(), Ok(-64));
    assert_eq!(Reader::new(&[0x80]).read_i64(), Err(WasmError::UnexpectedEof));
}

#[test]
fn too_long_numbers_are_refused() {
    let mut r = Reader::new(&[0x80, 0x80, 0x80, 0x80, 0x80, 0x80, 0x00]);
    assert_eq!(r.read_u32(), Err(WasmError::InvalidType));
    assert_eq!(r.pos, 6);
    let long = [0x80; 12];
    let mut r = Reader::new(&long);
    assert_eq!(r.read_u64(), Err(WasmError::InvalidType));
    assert_eq!(r.pos, 11);
}

#[test]
fn bytes_and_floats_are_read() {
    let data = [0x00, 0x00, 0x80, 0x3F, 1, 2, 3, 4, 5, 6, 7, 8, 9];
    let mut r = Reader::new(&data);
    assert_eq!(r.read_f32(), Ok(0x3F80_0000));
    assert_eq!(r.read_f64(), Ok(0x0807_0605_0403_0201));
    assert_eq!(r.read_bytes(2), Err(WasmError::UnexpectedEof));
    assert_eq!(r.read_bytes(1), Ok(&[9u8][..]));
    let mut r = Reader::new(&data);
    let mut s = r.sub(2).unwrap_or_else(|_| panic!("too short"));
    assert_eq!(r.pos, 2);
    assert_eq!(s.read_byte(), Ok(0));
    assert_eq!(s.read_byte(), Ok(0));
    assert_eq!(s.read_byte(), Err(WasmError::UnexpectedEof));
    assert!(r.sub(12).is_err());
}

#[test]
fn names_must_be_utf8() {
    let mut r = Reader::new(&[3, 0xD1, 0x8F, b'!', 0]);
    assert_eq!(r.read_name(), Ok(String::from("\u{44F}!")));
    assert_eq!(r.pos, 4);
    let mut r = Reader::new(&[2, 0xFF, 0xFE]);
    assert_eq!(r.read_name(), Err(WasmError::InvalidType));
    let mut r = Reader::new(&[5, b'a']);
    assert_eq!(r.read_name(), Err(WasmError::UnexpectedEof));
}

#[test]
fn the_header_is_checked() {
    assert_eq!(error_of(&[0x00, 0x61]), WasmError::UnexpectedEof);
    assert_eq!(error_of(b"wasm"), WasmError::InvalidMagic);
    assert_eq!(error_of(&[0x00, 0x61, 0x73, 0x6D, 0x01]), WasmError::UnexpectedEof);
    assert_eq!(
        error_of(&[0x00, 0x61, 0x73, 0x6D, 0x02, 0x00, 0x00, 0x00]),
        WasmError::InvalidVersion
    );
    let m = parse_wasm(&module(&[])).unwrap_or_else(|_| panic!("refused"));
    assert!(m.types.is_empty() && m.codes.is_empty() && m.start.is_none());
}

#[test]
fn sections_are_collected() {
    let types = section(1, &[1, 0x60, 2, 0x7F, 0x7E, 1, 0x7D]);
    let imports = section(
        2,
        &[
            4, 1, b'm', 1, b'f', 0x00, 0, 1, b'm', 1, b't', 0x01, 0x70, 0x00, 2, 1, b'm', 1, b'n',
            0x02, 0x01, 1, 3, 1, b'm', 1, b'g', 0x03, 0x7C, 0x01,
        ],
    );
    let funcs = section(3, &[1, 0]);
    let tables = section(4, &[1, 0x70, 0x01, 1, 9]);
    let mems = section(5, &[1, 0x00, 2]);
    let globals = section(6, &[1, 0x7F, 0x01, 0x41, 0x2A, 0x0B]);
    let exports = section(7, &[2, 1, b'f', 0x00, 1, 1, b'g', 0x03, 0]);
    let start = section(8, &[1]);
    let elems = section(9, &[1, 0, 0x41, 0x00, 0x0B, 2, 1, 0]);
    let codes = section(10, &[1, 6, 1, 3, 0x7E, 0x20, 0x00, 0x0B]);
    let data = section(11, &[1, 0, 0x41, 0x05, 0x0B, 3, 7, 8, 9]);
    let bytes = module(&[
        types, imports, funcs, tables, mems, globals, exports, start, elems, codes, data,
    ]);
    let m = parse(&bytes).unwrap_or_else(|e| panic!("{:?}", e));
    assert_eq!(m.types[0].params, vec![ValType::I32, ValType::I64]);
    assert_eq!(m.types[0].results, vec![ValType::F32]);
    assert_eq!(m.imports.len(), 4);
    assert_eq!(m.imports[0].module, "m");
    assert_eq!(m.imports[0].name, "f");
    assert_eq!(m.imports[0].desc, ImportDesc::Func(0));
    assert!(matches!(
        m.imports[1].desc,
        ImportDesc::Table(t) if t.limits == Limits { min: 2, max: None }
    ));
    assert_eq!(m.imports[2].desc, ImportDesc::Mem(MemType(Limits { min: 1, max: Some(3) })));
    assert_eq!(
        m.imports[3].desc,
        ImportDesc::Global(GlobalType { ty: ValType::F64, mutable: true })
    );
    assert_eq!(m.funcs, vec![0]);
    assert_eq!(m.tables[0].limits, Limits { min: 1, max: Some(9) });
    assert_eq!(m.mems[0].0, Limits { min: 2, max: None });
    assert_eq!(m.globals[0].0, GlobalType { ty: ValType::I32, mutable: true });
    assert_eq!(m.globals[0].1, vec![0x41, 0x2A, 0x0B]);
    assert_eq!(m.exports[0].name, "f");
    assert_eq!(m.exports[0].desc, ExportDesc::Func(1));
    assert_eq!(m.exports[1].desc, ExportDesc::Global(0));
    assert_eq!(m.start, Some(1));
    assert_eq!(m.elems[0].indices, vec![1, 0]);
    assert_eq!(m.codes[0].locals[0].count, 3);
    assert_eq!(m.codes[0].locals[0].ty, ValType::I64);
    assert_eq!(m.codes[0].code, vec![0x20, 0x00, 0x0B]);
    assert_eq!(m.data[0].offset, vec![0x41, 0x05, 0x0B]);
    assert_eq!(m.data[0].init, vec![7, 8, 9]);
}

#[test]
fn other_sections_are_skipped() {
    let plain = module(&[section(3, &[2, 5, 6])]);
    let mut with_custom = plain.clone();
    with_custom.extend(section(0, &[1, 2, 3]));
    with_custom.extend(section(200, &[0xFF; 5]));
    with_custom.extend(section(3, &[1, 9]));
    let a = parse(&plain).unwrap_or_else(|_| panic!("refused"));
    let b = parse(&with_custom).unwrap_or_else(|_| panic!("refused"));
    assert_eq!(a.funcs, vec![5, 6]);
    assert_eq!(b.funcs, vec![5, 6, 9]);
    assert!(b.types.is_empty() && b.data.is_empty());
}

#[test]
fn sections_accumulate() {
    let m = parse(&module(&[section(3, &[1, 5]), section(3, &[2, 6, 7])]))
        .unwrap_or_else(|_| panic!("refused"));
    assert_eq!(m.funcs, vec![5, 6, 7]);
}

#[test]
fn malformed_sections_are_refused() {
    assert_eq!(error_of(&module(&[vec![1, 9, 0]])), WasmError::UnexpectedEof);
    assert_eq!(error_of(&module(&[section(1, &[1, 0x61])])), WasmError::InvalidType);
    assert_eq!(error_of(&module(&[section(1, &[1, 0x60, 1, 0x11])])), WasmError::InvalidType);
    assert_eq!(error_of(&module(&[section(5, &[1, 0x02, 1])])), WasmError::InvalidType);
    assert_eq!(error_of(&module(&[section(7, &[1, 1, b'x', 0x04, 0])])), WasmError::InvalidType);
    assert_eq!(
        error_of(&module(&[section(2, &[1, 0, 0, 0x09, 0])])),
        WasmError::InvalidType
    );
    assert_eq!(
        error_of(&module(&[section(6, &[1, 0x7F, 0x00, 0x41, 0x01])])),
        WasmError::UnexpectedEof
    );
    assert_eq!(error_of(&module(&[section(10, &[1, 4, 0])])), WasmError::UnexpectedEof);
}

#[test]
fn constant_expressions_have_one_instruction() {
    assert_eq!(eval_const_expr(&[0x41, 0x7F, 0x0B]), Ok(Value::I32(-1)));
    assert_eq!(eval_const_expr(&[0x42, 0x80, 0x01, 0x0B]), Ok(Value::I64(128)));
    assert_eq!(eval_const_expr(&[0x43, 0, 0, 0x80, 0x3F, 0x0B]), Ok(Value::F32(0x3F80_0000)));
    assert_eq!(eval_const_expr(&[0x44, 1, 0, 0, 0, 0, 0, 0, 0, 0x0B]), Ok(Value::F64(1)));
    assert_eq!(eval_const_expr(&[0x23, 0x00, 0x0B]), Err(WasmError::InvalidOpcode(0x23)));
    assert_eq!(eval_const_expr(&[]), Err(WasmError::UnexpectedEof));
}

fn decoded(code: &[u8]) -> (Result<Option<Instr>, WasmError>, usize) {
    let mut r = Reader::new(code);
    let i = decode_instr(&mut r);
    (i, r.pos)
}

#[test]
fn instructions_are_decoded() {
    assert!(matches!(decoded(&[0x0B, 1]), (Ok(None), 1)));
    assert!(matches!(decoded(&[]), (Ok(None), 0)));
    assert!(matches!(decoded(&[0x02, 0x40]), (Ok(Some(Instr::Block(BlockType::Empty))), 2)));
    assert!(matches!(
        decoded(&[0x04, 0x7C]),
        (Ok(Some(Instr::If(BlockType::Val(ValType::F64)))), 2)
    ));
    assert!(matches!(decoded(&[0x03, 0x05]), (Ok(Some(Instr::Loop(BlockType::TypeIdx(5)))), 2)));
    assert!(matches!(decoded(&[0x10, 0x80, 0x01]), (Ok(Some(Instr::Call(128))), 3)));
    assert!(matches!(decoded(&[0x11, 1, 2]), (Ok(Some(Instr::CallIndirect(1, 2))), 3)));
    assert!(matches!(
        decoded(&[0x35, 2, 8]),
        (Ok(Some(Instr::I64Load32U(MemArg { align: 2, offset: 8 }))), 3)
    ));
    assert!(matches!(decoded(&[0x3F, 0]), (Ok(Some(Instr::MemorySize)), 2)));
    assert!(matches!(decoded(&[0x40]), (Ok(Some(Instr::MemoryGrow)), 1)));
    assert!(matches!(decoded(&[0x42, 0x7E]), (Ok(Some(Instr::I64Const(-2))), 2)));
    assert!(matches!(decoded(&[0xBF]), (Ok(Some(Instr::F64ReinterpretI64)), 1)));
    assert!(matches!(decoded(&[0x45]), (Ok(Some(Instr::I32Eqz)), 1)));
    match decoded(&[0x0E, 2, 4, 5, 6]) {
        (Ok(Some(Instr::BrTable(labels, default))), 5) => {
            assert_eq!(labels, vec![4, 5]);
            assert_eq!(default, 6);
        }
        _ => panic!("no branch table"),
    }
    assert!(matches!(decoded(&[0xC0]), (Err(WasmError::InvalidOpcode(0xC0)), 1)));
    assert!(matches!(decoded(&[0x06]), (Err(WasmError::InvalidOpcode(6)), 1)));
    assert!(matches!(decoded(&[0x02]), (Err(WasmError::UnexpectedEof), 1)));
    assert!(matches!(decoded(&[0x43, 1, 2]), (Err(WasmError::UnexpectedEof), 1)));
}
