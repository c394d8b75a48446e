use rsnex::errors::{FaultKind, FormatError, RunError};
use rsnex::exec::Executor;
use rsnex::image::Bytecode;
use rsnex::value::{cells_equal, Cell, PathSeg, Pointer, PtrBase};
use rsnex::varint::{get_vint, put_vint};

fn vint(v: usize) -> Vec<u8> {
    put_vint(v)
}

struct ImageSpec {
    global_size: usize,
    strtable: Vec<Vec<u8>>,
    types: Vec<(usize, usize)>,
    functions: Vec<(usize, usize, usize, usize, usize)>,
    code: Vec<u8>,
}

fn build_image(spec: ImageSpec) -> Vec<u8> {
    let mut b: Vec<u8> = Vec::new();
    b.extend_from_slice(b"Ne\0n");
    b.extend_from_slice(&vint(1));
    b.extend_from_slice(&[0u8; 32]);
    b.extend_from_slice(&vint(spec.global_size));
    let mut st: Vec<u8> = Vec::new();
    for e in &spec.strtable {
        st.extend_from_slice(&vint(e.len()));
        st.extend_from_slice(e);
    }
    b.extend_from_slice(&vint(st.len()));
    b.extend_from_slice(&st);
    if spec.types.is_empty() {
        b.extend_from_slice(&vint(0)); // type table: zero slots reserved
    } else {
        // the count reserves one more slot than the entries that follow
        b.extend_from_slice(&vint(spec.types.len() + 1));
        for te in &spec.types {
            b.extend_from_slice(&vint(te.0));
            b.extend_from_slice(&vint(te.1));
        }
    }
    for _ in 0..6 {
        b.extend_from_slice(&vint(0)); // reserved sections
    }
    b.extend_from_slice(&vint(spec.functions.len()));
    for f in &spec.functions {
        b.extend_from_slice(&vint(f.0));
        b.extend_from_slice(&vint(f.1));
        b.extend_from_slice(&vint(f.2));
        b.extend_from_slice(&vint(f.3));
        b.extend_from_slice(&vint(f.4));
    }
    b.extend_from_slice(&vint(0)); // exception table
    b.extend_from_slice(&vint(0)); // class table
    b.extend_from_slice(&spec.code);
    b
}

fn minimal_with_code(code: Vec<u8>) -> Executor {
    let buf = build_image(ImageSpec {
        global_size: 0,
        strtable: vec![b"hello".to_vec()],
        types: vec![],
        functions: vec![],
        code,
    });
    Executor::new(&buf).expect("minimal image must load")
}

#[test]
fn varint_round_trip() {
    for v in [
        0usize,
        127,
        128,
        16383,
        16384,
        0x0fff_ffff,
        0x1234_5678_9abc,
        usize::MAX,
    ] {
        let enc = put_vint(v);
        let mut i: usize = 0;
        let got = get_vint(&enc, &mut i).expect("decode of an encoding succeeds");
        assert_eq!(got, v);
        assert_eq!(i, enc.len());
    }
    assert_eq!(put_vint(0), vec![0u8]);
    assert_eq!(put_vint(127), vec![0x7fu8]);
    assert_eq!(put_vint(128), vec![0x81u8, 0x00]);
    assert_eq!(put_vint(16383), vec![0xffu8, 0x7f]);
    assert_eq!(put_vint(16384), vec![0x81u8, 0x80, 0x00]);
}

#[test]
fn varint_truncated_fails() {
    let buf = vec![0x80u8, 0x80];
    let mut i: usize = 0;
    assert_eq!(get_vint(&buf, &mut i), Err(FormatError::Truncated));
    assert_eq!(i, 0);
}

#[test]
fn minimal_object_loads() {
    let buf = build_image(ImageSpec {
        global_size: 0,
        strtable: vec![b"main".to_vec()],
        types: vec![],
        functions: vec![],
        code: vec![],
    });
    let img = Bytecode::new(&buf).expect("minimal object loads");
    assert_eq!(img.version, 1);
    assert_eq!(img.global_size, 0);
    assert_eq!(img.strtable.len(), 1);
    assert_eq!(img.strtable[0], b"main".to_vec());
    assert_eq!(img.functions.len(), 0);
    assert_eq!(img.code.len(), 0);
}

#[test]
fn corrupted_signature_fails_without_executing() {
    let mut buf = build_image(ImageSpec {
        global_size: 0,
        strtable: vec![],
        types: vec![],
        functions: vec![],
        code: vec![90], // one push-nil instruction that must never run
    });
    buf[0] = b'X';
    match Executor::new(&buf) {
        Err(FormatError::BadSignature) => {}
        other => panic!("expected a signature failure, got {:?}", other.is_ok()),
    }
}

#[test]
fn bad_version_fails() {
    let mut buf = build_image(ImageSpec {
        global_size: 0,
        strtable: vec![],
        types: vec![],
        functions: vec![],
        code: vec![],
    });
    buf[4] = 2; // version varint
    assert!(matches!(Bytecode::new(&buf), Err(FormatError::BadVersion)));
}

#[test]
fn reserved_section_not_empty_fails() {
    let mut b: Vec<u8> = Vec::new();
    b.extend_from_slice(b"Ne\0n");
    b.extend_from_slice(&vint(1));
    b.extend_from_slice(&[0u8; 32]);
    b.extend_from_slice(&vint(0)); // globals
    b.extend_from_slice(&vint(0)); // string table empty
    b.extend_from_slice(&vint(0)); // type table
    b.extend_from_slice(&vint(1)); // constants: must be zero
    assert!(matches!(
        Bytecode::new(&b),
        Err(FormatError::ReservedNotEmpty)
    ));
}

#[test]
fn truncated_object_fails() {
    let buf = b"Ne\0n".to_vec();
    assert!(matches!(Bytecode::new(&buf), Err(FormatError::Truncated)));
}

#[test]
fn stack_discipline_dup_drop_swap() {
    // Push, dup, drop leaves the depth unchanged; swap twice is the
    // identity.
    let mut e = minimal_with_code(vec![90, 82, 84, 95, 95]);
    e.op_pushnil().unwrap();
    let depth = e.stack.len();
    e.op_dup().unwrap();
    e.op_drop().unwrap();
    assert_eq!(e.stack.len(), depth);

    e.stack.clear();
    e.ip = 0;
    e.stack.push(Cell::Number(1));
    e.stack.push(Cell::Number(2));
    e.op_swap().unwrap();
    assert!(matches!(e.stack[0], Cell::Number(2)));
    assert!(matches!(e.stack[1], Cell::Number(1)));
    e.op_swap().unwrap();
    assert!(matches!(e.stack[0], Cell::Number(1)));
    assert!(matches!(e.stack[1], Cell::Number(2)));
}

fn nested_call_image() -> Vec<u8> {
    // main: CALLF 0 at 0..2, RET at 2.
    // f0 at 3: CALLF 1, RET at 5.
    // f1 at 6: CALLF 2, RET at 8.
    // f2 at 9: RET.
    let code = vec![76, 0, 85, 76, 1, 85, 76, 2, 85, 85];
    build_image(ImageSpec {
        global_size: 0,
        strtable: vec![],
        types: vec![],
        functions: vec![(0, 0, 0, 0, 3), (0, 0, 0, 0, 6), (0, 0, 0, 0, 9)],
        code,
    })
}

#[test]
fn call_and_return_restores_ip() {
    // Stepwise: the return resumes exactly after the call, and the
    // frame chain depth equals the call nesting depth at every point.
    let buf = nested_call_image();
    let mut e = Executor::new(&buf).expect("loads");
    assert_eq!(e.frames.len(), 1); // the sentinel frame
    e.op_callf().unwrap(); // into f0
    assert_eq!(e.ip, 3);
    assert_eq!(e.frames.len(), 2);
    e.op_callf().unwrap(); // into f1
    assert_eq!(e.ip, 6);
    assert_eq!(e.frames.len(), 3);
    e.op_callf().unwrap(); // into f2
    assert_eq!(e.ip, 9);
    assert_eq!(e.frames.len(), 4);
    e.op_ret().unwrap();
    assert_eq!(e.ip, 8); // just after "CALLF 2"
    assert_eq!(e.frames.len(), 3);
    e.op_ret().unwrap();
    assert_eq!(e.ip, 5); // just after "CALLF 1"
    assert_eq!(e.frames.len(), 2);
    e.op_ret().unwrap();
    assert_eq!(e.ip, 2); // just after "CALLF 0"
    assert_eq!(e.frames.len(), 1); // only the sentinel is left
}

#[test]
fn nested_calls_run_to_completion() {
    let buf = nested_call_image();
    let mut e = Executor::new(&buf).expect("loads");
    assert!(matches!(e.run(1000), Ok(true)));
    assert_eq!(e.frames.len(), 0);
    assert!(e.ip >= e.object.code.len());
}

#[test]
fn print_builtin_writes_one_line() {
    // Push "hello", call the output builtin, get exactly one line.
    let code = vec![2, 0, 75, 1]; // PUSHS 0; CALLP 1
    let buf = build_image(ImageSpec {
        global_size: 0,
        strtable: vec![b"hello".to_vec(), b"print".to_vec()],
        types: vec![],
        functions: vec![],
        code,
    });
    let mut e = Executor::new(&buf).expect("loads");
    assert!(matches!(e.run(100), Ok(true)));
    assert_eq!(e.output.len(), 1);
    assert_eq!(e.output[0], b"hello".to_vec());
    assert_eq!(e.stack.len(), 0);
}

#[test]
fn executor_name_builtin() {
    let code = vec![75, 0]; // CALLP 0
    let buf = build_image(ImageSpec {
        global_size: 0,
        strtable: vec![b"runtime$executorName".to_vec()],
        types: vec![],
        functions: vec![],
        code,
    });
    let mut e = Executor::new(&buf).expect("loads");
    assert!(matches!(e.run(100), Ok(true)));
    assert_eq!(e.stack.len(), 1);
    match &e.stack[0] {
        Cell::Str(s) => assert_eq!(s, &b"rsnex".to_vec()),
        _ => panic!("expected a string"),
    }
}

#[test]
fn unknown_builtin_is_distinct_fault() {
    let code = vec![75, 0];
    let buf = build_image(ImageSpec {
        global_size: 0,
        strtable: vec![b"nosuch".to_vec()],
        types: vec![],
        functions: vec![],
        code,
    });
    let mut e = Executor::new(&buf).expect("loads");
    match e.run(100) {
        Err(RunError::Fault { kind, at }) => {
            assert_eq!(kind, FaultKind::UnknownBuiltin);
            assert_eq!(at, 0);
        }
        other => panic!("expected a fault, got {:?}", other.is_ok()),
    }
}

#[test]
fn consa_structural_equality() {
    // Arrays from the same elements in the same order are equal;
    // different order is unequal.
    let mut e = minimal_with_code(vec![86, 2, 86, 2]); // CONSA 2 twice
    e.stack.push(Cell::Number(1));
    e.stack.push(Cell::Number(2));
    e.op_consa().unwrap();
    let a = e.stack.pop().unwrap();
    e.stack.push(Cell::Number(1));
    e.stack.push(Cell::Number(2));
    e.op_consa().unwrap();
    let b = e.stack.pop().unwrap();
    assert!(cells_equal(&a, &b));
    let c = Cell::Array(vec![Cell::Number(2), Cell::Number(1)]);
    assert!(!cells_equal(&a, &c));
    let nested1 = Cell::Array(vec![a, Cell::Str(b"x".to_vec())]);
    let nested2 = Cell::Array(vec![b, Cell::Str(b"x".to_vec())]);
    assert!(cells_equal(&nested1, &nested2));
}

#[test]
fn divide_by_zero_raises_exception() {
    // A raised exception, distinguishable from a runtime fault.
    let mut e = minimal_with_code(vec![32]); // DIVN
    e.stack.push(Cell::Number(5));
    e.stack.push(Cell::Number(0));
    match e.op_divn() {
        Err(RunError::Raised { name, at }) => {
            assert_eq!(name, b"DivideByZero".to_vec());
            assert_eq!(at, 0);
        }
        other => panic!("expected a raised exception, got {:?}", other.is_ok()),
    }
    // by contrast, a type error is a fault, not a raised exception
    let mut e2 = minimal_with_code(vec![32]);
    e2.stack.push(Cell::Number(5));
    e2.stack.push(Cell::Boolean(true));
    assert!(matches!(
        e2.op_divn(),
        Err(RunError::Fault { kind: FaultKind::TypeMismatch, .. })
    ));
}

#[test]
fn arithmetic_values() {
    let mut e = minimal_with_code(vec![29, 30, 31, 33, 34]);
    e.stack.push(Cell::Number(30));
    e.stack.push(Cell::Number(12));
    e.op_addn().unwrap();
    assert!(matches!(e.stack[0], Cell::Number(42)));
    e.stack.clear();
    e.ip = 0;
    e.stack.push(Cell::Number(-7));
    e.stack.push(Cell::Number(2));
    e.op_modn().unwrap();
    assert!(matches!(e.stack[0], Cell::Number(-1))); // truncated semantics
    e.stack.clear();
    e.ip = 0;
    e.stack.push(Cell::Number(2));
    e.stack.push(Cell::Number(10));
    e.op_expn().unwrap();
    assert!(matches!(e.stack[0], Cell::Number(1024)));
    e.stack.clear();
    e.ip = 0;
    e.stack.push(Cell::Number(2));
    e.stack.push(Cell::Number(63));
    assert!(matches!(e.op_expn(), Err(RunError::Raised { .. })));
}

#[test]
fn uninitialized_global_is_empty_marker() {
    // Globals start as the defined uninitialized marker.
    let buf = build_image(ImageSpec {
        global_size: 3,
        strtable: vec![],
        types: vec![],
        functions: vec![],
        code: vec![],
    });
    let e = Executor::new(&buf).expect("loads");
    assert_eq!(e.globals.len(), 3);
    for g in &e.globals {
        assert!(matches!(g, Cell::Empty));
    }
}

#[test]
fn store_and_load_global() {
    let buf = build_image(ImageSpec {
        global_size: 1,
        strtable: vec![],
        types: vec![],
        functions: vec![],
        code: vec![20, 11], // STOREN; LOADN
    });
    let mut e = Executor::new(&buf).expect("loads");
    e.stack.push(Cell::Number(7));
    e.stack.push(Cell::Ptr(Pointer { base: PtrBase::Global(0), path: Vec::new() }));
    e.op_storen().unwrap();
    assert!(matches!(e.globals[0], Cell::Number(7)));
    assert_eq!(e.stack.len(), 0);
    e.stack.push(Cell::Ptr(Pointer { base: PtrBase::Global(0), path: Vec::new() }));
    e.op_loadn().unwrap();
    assert!(matches!(e.stack[0], Cell::Number(7)));
    // loading the same slot with the wrong kind is a fault
    e.stack.clear();
    e.ip = 1;
    e.stack.push(Cell::Ptr(Pointer { base: PtrBase::Global(0), path: Vec::new() }));
    assert!(matches!(
        e.op_loadb(),
        Err(RunError::Fault { kind: FaultKind::TypeMismatch, .. })
    ));
}

#[test]
fn store_through_array_element_pointer() {
    let buf = build_image(ImageSpec {
        global_size: 1,
        strtable: vec![],
        types: vec![],
        functions: vec![],
        code: vec![20, 11],
    });
    let mut e = Executor::new(&buf).expect("loads");
    e.globals[0] = Cell::Array(vec![Cell::Number(1), Cell::Number(2)]);
    e.stack.push(Cell::Number(9));
    e.stack.push(Cell::Ptr(Pointer {
        base: PtrBase::Global(0),
        path: vec![PathSeg::Elem(1)],
    }));
    e.op_storen().unwrap();
    match &e.globals[0] {
        Cell::Array(xs) => {
            assert!(matches!(xs[0], Cell::Number(1)));
            assert!(matches!(xs[1], Cell::Number(9)));
        }
        _ => panic!("global should still be an array"),
    }
}

#[test]
fn consd_last_write_wins() {
    let mut e = minimal_with_code(vec![87, 2]); // CONSD 2 pairs
    e.stack.push(Cell::Str(b"k".to_vec()));
    e.stack.push(Cell::Number(1));
    e.stack.push(Cell::Str(b"k".to_vec()));
    e.stack.push(Cell::Number(2));
    e.op_consd().unwrap();
    match &e.stack[0] {
        Cell::Dict(es) => {
            assert_eq!(es.len(), 1);
            assert_eq!(es[0].key, b"k".to_vec());
            assert!(matches!(es[0].val, Cell::Number(2)));
        }
        _ => panic!("expected a dictionary"),
    }
}

#[test]
fn string_comparisons() {
    let mut e = minimal_with_code(vec![45, 43]); // LTS; EQS
    e.stack.push(Cell::Str(b"abc".to_vec()));
    e.stack.push(Cell::Str(b"abd".to_vec()));
    e.op_lts().unwrap();
    assert!(matches!(e.stack[0], Cell::Boolean(true)));
    e.stack.clear();
    e.ip = 1;
    e.stack.push(Cell::Str(b"same".to_vec()));
    e.stack.push(Cell::Str(b"same".to_vec()));
    e.op_eqs().unwrap();
    assert!(matches!(e.stack[0], Cell::Boolean(true)));
}

#[test]
fn jump_table_selects_target() {
    // JUMPTBL with two targets; selector 1 goes to the second target.
    // code: 0: JUMPTBL, 1: count=2, 2: target 6, 3: target 7, then
    // PUSHNIL instructions at 6 and 7 would both end the run; check ip.
    let code = vec![93, 2, 6, 7, 90, 90, 90, 90];
    let mut e = minimal_with_code(code);
    e.stack.push(Cell::Number(1));
    e.op_jumptbl().unwrap();
    assert_eq!(e.ip, 7);
    assert_eq!(e.stack.len(), 0);
    // out-of-range selector falls through to just after the table
    let mut e2 = minimal_with_code(vec![93, 2, 6, 7, 90, 90, 90, 90]);
    e2.stack.push(Cell::Number(5));
    e2.op_jumptbl().unwrap();
    assert_eq!(e2.ip, 4);
}

#[test]
fn conditional_branches() {
    let code = vec![81, 5, 90, 90, 90, 90]; // JT 5
    let mut e = minimal_with_code(code);
    e.stack.push(Cell::Boolean(true));
    e.op_jt().unwrap();
    assert_eq!(e.ip, 5);
    let mut e2 = minimal_with_code(vec![81, 5, 90, 90, 90, 90]);
    e2.stack.push(Cell::Boolean(false));
    e2.op_jt().unwrap();
    assert_eq!(e2.ip, 2);
}

#[test]
fn unknown_opcode_faults() {
    let mut e = minimal_with_code(vec![200]);
    match e.run(10) {
        Err(RunError::Fault { kind, at }) => {
            assert_eq!(kind, FaultKind::UnknownOpcode);
            assert_eq!(at, 0);
        }
        other => panic!("expected a fault, got {:?}", other.is_ok()),
    }
}

#[test]
fn pushn_big_endian_signed() {
    let mut code = vec![1]; // PUSHN
    code.extend_from_slice(&(-5i64).to_be_bytes());
    let mut e = minimal_with_code(code);
    e.op_pushn().unwrap();
    assert!(matches!(e.stack[0], Cell::Number(-5)));
    assert_eq!(e.ip, 9);
}

#[test]
fn except_raises_named_exception() {
    let code = vec![88, 0]; // EXCEPT 0
    let buf = build_image(ImageSpec {
        global_size: 0,
        strtable: vec![b"PanicException".to_vec()],
        types: vec![],
        functions: vec![],
        code,
    });
    let mut e = Executor::new(&buf).expect("loads");
    match e.run(10) {
        Err(RunError::Raised { name, at }) => {
            assert_eq!(name, b"PanicException".to_vec());
            assert_eq!(at, 0);
        }
        other => panic!("expected a raised exception, got {:?}", other.is_ok()),
    }
}

#[test]
fn membership_tests() {
    let mut e = minimal_with_code(vec![73, 74]); // INA; IND
    e.stack.push(Cell::Number(2));
    e.stack.push(Cell::Array(vec![Cell::Number(1), Cell::Number(2)]));
    e.op_ina().unwrap();
    assert!(matches!(e.stack[0], Cell::Boolean(true)));
    e.stack.clear();
    e.ip = 1;
    e.stack.push(Cell::Str(b"missing".to_vec()));
    e.stack.push(Cell::Dict(vec![]));
    e.op_ind().unwrap();
    assert!(matches!(e.stack[0], Cell::Boolean(false)));
}

#[test]
fn run_resumes_after_budget() {
    let buf = nested_call_image();
    let mut e = Executor::new(&buf).expect("loads");
    let mut rounds: usize = 0;
    loop {
        match e.run(1) {
            Ok(true) => break,
            Ok(false) => {
                rounds += 1;
                assert!(rounds < 100);
            }
            Err(_) => panic!("no fault expected"),
        }
    }
    assert!(rounds >= 6); // one instruction per call: it really paused
    assert_eq!(e.frames.len(), 0);
    assert!(e.ip >= e.object.code.len());
}

#[test]
fn alloc_resolves_declared_type() {
    let buf = build_image(ImageSpec {
        global_size: 0,
        strtable: vec![b"Point".to_vec(), b"descriptor".to_vec()],
        types: vec![(0, 1)],
        functions: vec![],
        code: vec![89, 0, 89, 1], // ALLOC 0; ALLOC 1
    });
    let mut e = Executor::new(&buf).expect("loads");
    e.op_alloc().unwrap();
    match &e.stack[0] {
        Cell::Object(class, fields) => {
            assert_eq!(*class, 0);
            assert_eq!(fields.len(), 0);
        }
        _ => panic!("expected an object"),
    }
    e.ip = 2;
    assert!(matches!(
        e.op_alloc(),
        Err(RunError::Fault { kind: FaultKind::IndexOutOfRange, .. })
    ));
}

#[test]
fn string_table_rejects_invalid_utf8() {
    let buf = build_image(ImageSpec {
        global_size: 0,
        strtable: vec![vec![0xff, 0xfe]],
        types: vec![],
        functions: vec![],
        code: vec![],
    });
    assert!(matches!(Bytecode::new(&buf), Err(FormatError::BadString)));
    // overlong encoding of '/' is refused too
    let buf2 = build_image(ImageSpec {
        global_size: 0,
        strtable: vec![vec![0xc0, 0xaf]],
        types: vec![],
        functions: vec![],
        code: vec![],
    });
    assert!(matches!(Bytecode::new(&buf2), Err(FormatError::BadString)));
    // a surrogate encoding is refused
    let buf3 = build_image(ImageSpec {
        global_size: 0,
        strtable: vec![vec![0xed, 0xa0, 0x80]],
        types: vec![],
        functions: vec![],
        code: vec![],
    });
    assert!(matches!(Bytecode::new(&buf3), Err(FormatError::BadString)));
}

#[test]
fn string_table_accepts_multibyte_utf8() {
    let entry = "héllo\u{4e16}\u{1f600}".as_bytes().to_vec();
    let buf = build_image(ImageSpec {
        global_size: 0,
        strtable: vec![entry.clone()],
        types: vec![],
        functions: vec![],
        code: vec![],
    });
    let img = Bytecode::new(&buf).expect("valid UTF-8 loads");
    assert_eq!(img.strtable[0], entry);
}
