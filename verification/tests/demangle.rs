use demangle::decoder::Demangler;
use demangle::sink::WriteDemangled;
use demangle::DEMANGLED_CAPACITY;
use demangle::MANGLED_CAPACITY;

fn stage(unit: &mut Demangler, bytes: &[u8]) {
    unit.write_mangled(&bytes.to_vec());
}

fn output(unit: &Demangler, n: usize) -> Vec<u8> {
    unit.demangled_buffer()[..n].to_vec()
}

/// Reference decoding of the same grammar with the same formatting options,
/// straight through the outside decoder.
fn reference_decode(mangled: &[u8]) -> Option<String> {
    let symbol = cpp_demangle::Symbol::new(mangled).ok()?;
    let options = cpp_demangle::DemangleOptions::new()
        .no_return_type()
        .hide_expression_literal_types();
    symbol.demangle_with_options(&options).ok()
}

/// A mangled function with the given name length taking `args` `int`
/// parameters, together with its expected decoded text.
fn int_args_symbol(name_len: usize, args: usize) -> (Vec<u8>, Vec<u8>) {
    let name = "a".repeat(name_len);
    let mangled = format!("_Z{}{}{}", name_len, name, "i".repeat(args));
    let expected = format!("{}({})", name, vec!["int"; args].join(", "));
    (mangled.into_bytes(), expected.into_bytes())
}

#[test]
fn buffer_capacities() {
    let unit = Demangler::new();
    assert_eq!(unit.mangled_buffer_len(), MANGLED_CAPACITY);
    assert_eq!(unit.mangled_buffer().len(), MANGLED_CAPACITY);
    assert_eq!(unit.demangled_buffer().len(), DEMANGLED_CAPACITY);
    assert!(unit.mangled_buffer().iter().all(|&b| b == 0));
    assert!(unit.demangled_buffer().iter().all(|&b| b == 0));
}

#[test]
fn staging_writes_prefix_only() {
    let mut unit = Demangler::new();
    stage(&mut unit, b"_Z3fooi");
    assert_eq!(&unit.mangled_buffer()[..7], b"_Z3fooi");
    assert!(unit.mangled_buffer()[7..].iter().all(|&b| b == 0));
    stage(&mut unit, b"_Z");
    assert_eq!(&unit.mangled_buffer()[..7], b"_Z3fooi");
}

#[test]
fn simple_symbol_decodes() {
    let mut unit = Demangler::new();
    stage(&mut unit, b"_Z3fooi");
    let n = unit.demangle(7);
    assert!(n > 0);
    assert_eq!(output(&unit, n), b"foo(int)");
}

#[test]
fn plain_text_is_rejected() {
    let mut unit = Demangler::new();
    let input = b"not_a_mangled_name";
    stage(&mut unit, input);
    assert_eq!(unit.demangle(input.len()), 0);
}

#[test]
fn zero_length_decodes_nothing() {
    let mut unit = Demangler::new();
    stage(&mut unit, b"_Z3fooi");
    assert_eq!(unit.demangle(0), 0);
}

#[test]
fn zero_length_leaves_output_untouched() {
    let mut unit = Demangler::new();
    stage(&mut unit, b"_Z3fooi");
    let n = unit.demangle(7);
    assert_eq!(n, 8);
    let before = unit.demangled_buffer().clone();
    assert_eq!(unit.demangle(0), 0);
    assert_eq!(unit.demangled_buffer(), &before);
}

#[test]
fn invalid_inputs_return_zero() {
    let mut unit = Demangler::new();

    // A single byte no production starts with.
    stage(&mut unit, b"!");
    assert_eq!(unit.demangle(1), 0);

    // A nonzero declared length over unwritten (zero) bytes.
    let mut fresh = Demangler::new();
    assert_eq!(fresh.demangle(5), 0);

    // A valid symbol cut short in the middle of a name.
    stage(&mut unit, b"_ZN5space3fooEibc");
    assert_eq!(unit.demangle(10), 0);

    // The untruncated symbol still decodes afterwards.
    assert!(unit.demangle(17) > 0);
}

#[test]
fn failed_decode_leaves_output_untouched() {
    let mut unit = Demangler::new();
    stage(&mut unit, b"_Z3fooi");
    assert_eq!(unit.demangle(7), 8);
    let before = unit.demangled_buffer().clone();
    stage(&mut unit, b"not_a_mangled_name");
    assert_eq!(unit.demangle(18), 0);
    assert_eq!(unit.demangled_buffer(), &before);
}

#[test]
fn matches_reference_decoding() {
    let cases: [&[u8]; 3] = [
        b"_Z3fooi",
        b"_ZN5space3fooEibc",
        b"_ZN5space3fooILi42EEEvT_",
    ];
    for mangled in cases {
        let expected = reference_decode(mangled).expect("reference decoder rejected the case");
        assert!(expected.len() <= DEMANGLED_CAPACITY);
        let mut unit = Demangler::new();
        stage(&mut unit, mangled);
        let n = unit.demangle(mangled.len());
        assert_eq!(n, expected.len());
        assert_eq!(output(&unit, n), expected.as_bytes());
    }
}

#[test]
fn idempotent_decode() {
    let mut unit = Demangler::new();
    stage(&mut unit, b"_ZN5space3fooEibc");
    let first = unit.demangle(17);
    let first_buf = unit.demangled_buffer().clone();
    let second = unit.demangle(17);
    assert_eq!(first, second);
    assert_eq!(unit.demangled_buffer(), &first_buf);
}

#[test]
fn truncation_boundary() {
    // Decoded text one byte longer than the output buffer.
    let (mangled, expected) = int_args_symbol(25, 200);
    assert_eq!(expected.len(), DEMANGLED_CAPACITY + 1);
    let reference = reference_decode(&mangled).unwrap();
    assert_eq!(reference.as_bytes(), &expected[..]);

    let mut unit = Demangler::new();
    stage(&mut unit, &mangled);
    let n = unit.demangle(mangled.len());
    assert_eq!(n, DEMANGLED_CAPACITY);
    assert_eq!(output(&unit, n), &expected[..DEMANGLED_CAPACITY]);
}

#[test]
fn capacity_boundary_exact_fit() {
    // Decoded text exactly as long as the output buffer.
    let (mangled, expected) = int_args_symbol(24, 200);
    assert_eq!(expected.len(), DEMANGLED_CAPACITY);

    let mut unit = Demangler::new();
    stage(&mut unit, &mangled);
    let n = unit.demangle(mangled.len());
    assert_eq!(n, DEMANGLED_CAPACITY);
    assert_eq!(output(&unit, n), &expected[..]);
}

#[test]
fn sink_truncates_silently() {
    let mut sink = WriteDemangled::new(4);
    assert_eq!(sink.written(), 0);
    sink.write_string(&b"abc".to_vec());
    assert_eq!(sink.written(), 3);
    sink.write_string(&b"def".to_vec());
    assert_eq!(sink.written(), 4);
    assert_eq!(sink.buffer(), &b"abcd".to_vec());
    // The buffer is full: further writes are no-ops.
    sink.write_string(&b"xyz".to_vec());
    assert_eq!(sink.written(), 4);
    assert_eq!(sink.buffer(), &b"abcd".to_vec());
}

#[test]
fn sink_reset_keeps_bytes() {
    let mut sink = WriteDemangled::new(4);
    sink.write_string(&b"abcd".to_vec());
    sink.reset();
    assert_eq!(sink.written(), 0);
    assert_eq!(sink.buffer(), &b"abcd".to_vec());
    sink.write_string(&b"z".to_vec());
    assert_eq!(sink.buffer(), &b"zbcd".to_vec());
    assert_eq!(sink.written(), 1);
}

#[test]
fn sink_empty_chunk_is_noop() {
    let mut sink = WriteDemangled::new(4);
    sink.write_string(&Vec::new());
    assert_eq!(sink.written(), 0);
    assert_eq!(sink.buffer(), &vec![0u8; 4]);
}
