use minject::init::{
    decode_args, decode_init_error, encode_args, encode_init_error, failure_out, success_out,
    ArgType, ArgValue, Param,
};
use minject::{DecodeError, InitError, Shared};

fn param(name: &str, ty: ArgType) -> Param {
    Param { name: name.to_string(), ty }
}

#[test]
fn argument_round_trip() {
    let vals = vec![
        ArgValue::U32(42),
        ArgValue::Text("hi".to_string()),
        ArgValue::List16(vec![-1i16, 0, 1]),
    ];
    let sig = vec![param("n", ArgType::U32), param("s", ArgType::Text), param(
        "v",
        ArgType::List16,
    )];
    let buf = encode_args(&vals);
    let decoded = decode_args(&buf, &sig).unwrap();
    assert_eq!(decoded, vals);
}

#[test]
fn every_argument_type_round_trips() {
    let vals = vec![
        ArgValue::U32(7),
        ArgValue::U64(u64::MAX),
        ArgValue::I16(-2),
        ArgValue::Text(String::new()),
        ArgValue::List16(Vec::new()),
        ArgValue::Handle(0xdead),
    ];
    let sig = vec![
        param("a", ArgType::U32),
        param("b", ArgType::U64),
        param("c", ArgType::I16),
        param("d", ArgType::Text),
        param("e", ArgType::List16),
        param("f", ArgType::Handle),
    ];
    let buf = encode_args(&vals);
    let decoded = decode_args(&buf, &sig).unwrap();
    assert_eq!(decoded, vals);
}

#[test]
fn too_many_arguments_is_reported() {
    let vals = vec![ArgValue::U32(1), ArgValue::U32(2)];
    let sig = vec![param("n", ArgType::U32)];
    let buf = encode_args(&vals);
    assert_eq!(decode_args(&buf, &sig), Err(InitError::TooManyArguments));
}

#[test]
fn short_buffer_names_the_argument() {
    let sig = vec![param("n", ArgType::U32), param("m", ArgType::U32)];
    let buf = encode_args(&vec![ArgValue::U32(1)]);
    match decode_args(&buf, &sig) {
        Err(InitError::Argument(name, why)) => {
            assert_eq!(name, "m");
            assert_eq!(why, "unexpected end of buffer");
        },
        other => panic!("unexpected outcome: {:?}", other),
    }
}

#[test]
fn bad_string_names_the_argument() {
    let sig = vec![param("s", ArgType::Text)];
    let buf = vec![2, 0, 0, 0, 0, 0, 0, 0, 0xff, 0xfe];
    match decode_args(&buf, &sig) {
        Err(InitError::Argument(name, why)) => {
            assert_eq!(name, "s");
            assert_eq!(why, "string is not valid UTF-8");
        },
        other => panic!("unexpected outcome: {:?}", other),
    }
}

#[test]
fn empty_signature_accepts_only_the_empty_buffer() {
    let sig: Vec<Param> = Vec::new();
    assert_eq!(decode_args(&Vec::new(), &sig), Ok(Vec::new()));
    assert_eq!(decode_args(&vec![0u8], &sig), Err(InitError::TooManyArguments));
}

#[test]
fn handle_value_round_trips() {
    let vals = vec![ArgValue::Handle(0x1234_5678_9abc_def0)];
    let sig = vec![param("h", ArgType::Handle)];
    let buf = encode_args(&vals);
    let decoded = decode_args(&buf, &sig).unwrap();
    assert_eq!(decoded, vals);
}

#[test]
fn init_error_panic_round_trips() {
    let e = InitError::Panic("boom".to_string());
    let buf = encode_init_error(&e);
    assert_eq!(decode_init_error(&buf), Ok(e));
}

#[test]
fn init_error_argument_round_trips() {
    let e = InitError::Argument("n".to_string(), "unexpected end of buffer".to_string());
    let buf = encode_init_error(&e);
    assert_eq!(decode_init_error(&buf), Ok(e));
}

#[test]
fn init_error_too_many_arguments_layout() {
    let e = InitError::TooManyArguments;
    let buf = encode_init_error(&e);
    assert_eq!(buf, vec![2, 0, 0, 0]);
    assert_eq!(decode_init_error(&buf), Ok(e));
}

#[test]
fn init_error_decode_rejects_bad_input() {
    assert_eq!(decode_init_error(&vec![9, 0, 0, 0]), Err(DecodeError::BadTag));
    assert_eq!(decode_init_error(&vec![2, 0]), Err(DecodeError::Eof));
    assert_eq!(decode_init_error(&vec![2, 0, 0, 0, 0]), Err(DecodeError::Trailing));
}

#[test]
fn success_path_clears_out_parameters() {
    let out = success_out();
    assert_eq!(out.data, 0);
    assert_eq!(out.size, 0);
    assert_eq!(out.status, 1);
}

#[test]
fn failure_path_reports_payload_or_nothing() {
    let out = failure_out(0x4000, 17);
    assert_eq!((out.data, out.size, out.status), (0x4000, 17, 0));
    let out = failure_out(0, 17);
    assert_eq!((out.data, out.size, out.status), (0, 0, 0));
}

#[test]
fn shared_hands_back_the_wrapped_value() {
    let s = Shared::new(0x77u64);
    assert_eq!(s.into_inner(), 0x77);
}
