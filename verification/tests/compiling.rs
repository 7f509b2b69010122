use bao::compiler::{compile, Op};
use bao::token::ErrorKind;
use bao::value::Value;

#[test]
fn block_of_three_gets_two_interleaved_discards() {
    let f = compile(b"1\n2\n3").unwrap();
    assert_eq!(
        f.chunk.code,
        vec![
            Op::Constant(0),
            Op::Pop,
            Op::Constant(1),
            Op::Pop,
            Op::Constant(2),
            Op::Return,
        ]
    );
    assert_eq!(
        f.chunk.constants,
        vec![Value::Int(1), Value::Int(2), Value::Int(3)]
    );
}

#[test]
fn a_different_column_ends_the_block_mid_program() {
    // the second expression sits at another column, so the top-level block
    // ends after `1` and the rest is trailing input
    let e = compile(b"1\n  2").unwrap_err();
    assert_eq!(e.kind, ErrorKind::TrailingInput);
    assert_eq!((e.line, e.column), (2, 2));
}

#[test]
fn same_line_expressions_sit_at_different_columns() {
    let e = compile(b"1 2").unwrap_err();
    assert_eq!(e.kind, ErrorKind::TrailingInput);
}

#[test]
fn if_codegen_backpatches_both_jumps() {
    let f = compile(b"if true 1 2").unwrap();
    assert_eq!(
        f.chunk.code,
        vec![
            Op::True,
            Op::JumpIfFalse(4),
            Op::Pop,
            Op::Constant(0),
            Op::Jump(3),
            Op::Pop,
            Op::Constant(1),
            Op::Return,
        ]
    );
}

#[test]
fn let_codegen_ends_with_the_combine_instruction() {
    let f = compile(b"let x 1 x").unwrap();
    // the seven built-ins occupy slots 0..=6, so `x` resolves to slot 7
    assert_eq!(
        f.chunk.code,
        vec![Op::Constant(0), Op::Var(7), Op::Squash, Op::Return]
    );
}

#[test]
fn no_placeholder_survives_compilation() {
    let f = compile(b"if (not nil) (if true 1 2) 3").unwrap();
    assert!(f.chunk.code.iter().all(|op| *op != Op::Unreachable));
}

#[test]
fn unresolved_identifier_is_located() {
    let e = compile(b"x").unwrap_err();
    assert_eq!(e.kind, ErrorKind::UnresolvedIdentifier);
    assert_eq!((e.line, e.column), (1, 0));
}

#[test]
fn built_ins_resolve_at_top_level() {
    assert!(compile(b"(+ 1 2)").is_ok());
    assert!(compile(b"(not= 1 2)").is_ok());
    assert!(compile(b"(<= 1 2)").is_ok());
}

#[test]
fn nested_literal_cannot_see_enclosing_let() {
    // `x` is bound in the enclosing frame, but resolution never crosses a
    // frame boundary
    let e = compile(b"let x 5 (|y| x 1)").unwrap_err();
    assert_eq!(e.kind, ErrorKind::UnresolvedIdentifier);
}

#[test]
fn nested_literal_cannot_see_built_ins() {
    let e = compile(b"(|x| (+ x x) 3)").unwrap_err();
    assert_eq!(e.kind, ErrorKind::UnresolvedIdentifier);
}

#[test]
fn no_closures_at_any_nesting_depth() {
    let e = compile(b"(|a| (|b| a 1) 2)").unwrap_err();
    assert_eq!(e.kind, ErrorKind::UnresolvedIdentifier);
}

#[test]
fn parameters_resolve_inside_their_own_literal() {
    assert!(compile(b"(|x| x 3)").is_ok());
}

#[test]
fn integer_overflow_is_malformed() {
    let e = compile(b"99999999999999999999").unwrap_err();
    assert_eq!(e.kind, ErrorKind::MalformedInt);
    let e = compile(b"-2147483649").unwrap_err();
    assert_eq!(e.kind, ErrorKind::MalformedInt);
}

#[test]
fn extreme_integers_compile() {
    let f = compile(b"-2147483648").unwrap();
    assert_eq!(f.chunk.constants, vec![Value::Int(i32::MIN)]);
    let f = compile(b"2147483647").unwrap();
    assert_eq!(f.chunk.constants, vec![Value::Int(i32::MAX)]);
}

#[test]
fn char_literal_becomes_its_byte() {
    let f = compile(b"'A'").unwrap();
    assert_eq!(f.chunk.constants, vec![Value::Int(65)]);
    let f = compile(b"'\\n'").unwrap();
    assert_eq!(f.chunk.constants, vec![Value::Int(10)]);
}

#[test]
fn multi_byte_char_is_malformed() {
    let e = compile(b"'ab'").unwrap_err();
    assert_eq!(e.kind, ErrorKind::MalformedChar);
    let e = compile(b"''").unwrap_err();
    assert_eq!(e.kind, ErrorKind::MalformedChar);
}

#[test]
fn string_literal_is_unescaped_into_the_pool() {
    let f = compile(b"\"a\\tb\\nc\\\\d\"").unwrap();
    assert_eq!(f.chunk.constants.len(), 1);
    match &f.chunk.constants[0] {
        Value::String(s) => {
            let bytes: &[u8] = s;
            assert_eq!(bytes, &b"a\tb\nc\\d"[..]);
        },
        other => panic!("expected a string constant, got {:?}", other),
    }
}

#[test]
fn unexpected_token_in_expression_position() {
    let e = compile(b")").unwrap_err();
    assert_eq!(e.kind, ErrorKind::UnexpectedToken);
}

#[test]
fn let_requires_a_name() {
    let e = compile(b"let 5 5 5").unwrap_err();
    assert_eq!(e.kind, ErrorKind::UnexpectedToken);
}

#[test]
fn literal_params_must_close_with_a_pipe() {
    let e = compile(b"|x 5").unwrap_err();
    assert_eq!(e.kind, ErrorKind::UnexpectedToken);
    let e = compile(b"|x").unwrap_err();
    assert_eq!(e.kind, ErrorKind::UnexpectedEof);
}

#[test]
fn running_out_of_tokens_mid_form() {
    assert_eq!(compile(b"").unwrap_err().kind, ErrorKind::UnexpectedEof);
    assert_eq!(compile(b"let x").unwrap_err().kind, ErrorKind::UnexpectedEof);
    assert_eq!(compile(b"(+ 1").unwrap_err().kind, ErrorKind::UnexpectedEof);
    assert_eq!(compile(b"if true").unwrap_err().kind, ErrorKind::UnexpectedEof);
}

#[test]
fn entry_function_arity_counts_the_built_ins() {
    let f = compile(b"nil").unwrap();
    assert_eq!(f.arity, 7);
}
