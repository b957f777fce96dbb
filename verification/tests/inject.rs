use minject::init::{encode_init_error, ArgValue};
use minject::inject::{
    check_bitness, decode_outcome, decode_param, encode_param, ThreadParam, STATUS_INIT_FAILED,
    STATUS_INIT_NOT_FOUND, STATUS_LOAD_FAILED, STATUS_SUCCESS,
};
use minject::process::ExitStatus;
use minject::thunk::{build_thunk_image, LoaderTable};
use minject::{Error, InitError, Module};

fn wide(s: &str) -> Vec<u16> {
    s.encode_utf16().collect()
}

fn plain_param(last_error: u32, user_data: u64, user_len: u64) -> ThreadParam {
    ThreadParam { path_addr: 0x1000, init_name: 0, user_data, user_len, last_error }
}

#[test]
fn bitness_gate_refuses_a_mismatched_target() {
    assert_eq!(check_bitness(true, true, true), Err(Error::Bitness));
    assert_eq!(check_bitness(true, true, false), Ok(()));
    assert_eq!(check_bitness(false, true, false), Err(Error::Bitness));
    assert_eq!(check_bitness(false, true, true), Ok(()));
    assert_eq!(check_bitness(false, false, false), Ok(()));
}

#[test]
fn success_exit_code_is_success() {
    let p = plain_param(0, 0, 0);
    assert_eq!(decode_outcome(STATUS_SUCCESS, &p, None), Ok(()));
}

#[test]
fn load_failure_carries_the_target_error() {
    let p = plain_param(5, 0, 0);
    assert_eq!(decode_outcome(STATUS_LOAD_FAILED, &p, None), Err(Error::LoadFailed(5)));
}

#[test]
fn missing_initializer_carries_the_target_error() {
    let p = plain_param(127, 0, 0);
    assert_eq!(decode_outcome(STATUS_INIT_NOT_FOUND, &p, None), Err(Error::InitNotFound(127)));
}

#[test]
fn init_failure_without_payload_has_no_detail() {
    let p = plain_param(0, 0, 0);
    assert_eq!(decode_outcome(STATUS_INIT_FAILED, &p, None), Err(Error::InitError(None)));
    let p = plain_param(0, 0x2000, 0);
    assert_eq!(decode_outcome(STATUS_INIT_FAILED, &p, None), Err(Error::InitError(None)));
}

#[test]
fn init_failure_payload_is_decoded() {
    let e = InitError::Panic("boom".to_string());
    let payload = encode_init_error(&e);
    let p = plain_param(0, 0x2000, payload.len() as u64);
    assert_eq!(
        decode_outcome(STATUS_INIT_FAILED, &p, Some(&payload)),
        Err(Error::InitError(Some(e)))
    );
}

#[test]
fn undecodable_payload_is_reported() {
    let payload = vec![9u8, 9, 9, 9];
    let p = plain_param(0, 0x2000, payload.len() as u64);
    match decode_outcome(STATUS_INIT_FAILED, &p, Some(&payload)) {
        Err(Error::Deserialize(_)) => {},
        other => panic!("unexpected outcome: {:?}", other),
    }
}

#[test]
fn unknown_exit_code_is_unexpected() {
    let p = plain_param(0, 0, 0);
    assert_eq!(decode_outcome(9, &p, None), Err(Error::UnexpectedExitCode(9)));
}

#[test]
fn parameter_block_round_trips() {
    let p = ThreadParam {
        path_addr: 0x1122334455667788,
        init_name: 0x1000,
        user_data: 0x2000,
        user_len: 12,
        last_error: 3,
    };
    let bytes = encode_param(&p);
    assert_eq!(bytes.len(), 40);
    assert_eq!(decode_param(&bytes), Some(p));
    assert_eq!(decode_param(&bytes[..39].to_vec()), None);
}

#[test]
fn thunk_image_layout() {
    let code = vec![0x90u8, 0xc3];
    let table = LoaderTable { load: 1, free_module: 2, lookup: 3, last_error: 4 };
    let img = build_thunk_image(&code, &table);
    let mut expected = vec![0x90u8, 0xc3, 0, 0, 0, 0, 0, 0];
    expected.extend_from_slice(&[1, 0, 0, 0, 0, 0, 0, 0]);
    expected.extend_from_slice(&[2, 0, 0, 0, 0, 0, 0, 0]);
    expected.extend_from_slice(&[3, 0, 0, 0, 0, 0, 0, 0]);
    expected.extend_from_slice(&[4, 0, 0, 0, 0, 0, 0, 0]);
    assert_eq!(img, expected);
}

#[test]
fn thunk_image_with_aligned_code_needs_no_padding() {
    let code = vec![0u8; 16];
    let table = LoaderTable { load: 1, free_module: 2, lookup: 3, last_error: 4 };
    let img = build_thunk_image(&code, &table);
    assert_eq!(img.len(), 16 + 32);
}

#[test]
fn plain_module_region_holds_path_then_block() {
    let m = Module::new(&wide("m.dll")).unwrap();
    assert_eq!(m.handle_values(), Vec::<u64>::new());
    assert_eq!(m.region_size(), Some(56));
    let (img, poff) = m.materialize(0x10000, &Vec::new());
    assert_eq!(img.len(), 56);
    assert_eq!(poff, 16);
    let mut path_bytes = Vec::new();
    for u in wide("m.dll") {
        path_bytes.push(u as u8);
        path_bytes.push(0u8);
    }
    path_bytes.push(0);
    path_bytes.push(0);
    assert_eq!(&img[..12], &path_bytes[..]);
    let block = img[16..56].to_vec();
    let p = decode_param(&block).unwrap();
    assert_eq!(p.path_addr, 0x10000);
    assert_eq!(p.init_name, 0);
    assert_eq!(p.user_data, 0);
    assert_eq!(p.user_len, 0);
    assert_eq!(p.last_error, 0);
}

#[test]
fn module_with_initializer_lays_out_name_and_stream() {
    let m = Module::new(&wide("m.dll"))
        .init(&b"init".to_vec())
        .arg(&ArgValue::U32(42))
        .handle(0x33)
        .unwrap();
    assert_eq!(m.handle_values(), vec![0x33]);
    // path 12 bytes, name 5, stream 4 + 8; block at the next multiple of 8
    assert_eq!(m.region_size(), Some(72));
    let dups = vec![0x77u64];
    let (img, poff) = m.materialize(0x10000, &dups);
    assert_eq!(img.len(), 72);
    assert_eq!(poff, 32);
    assert_eq!(&img[12..17], b"init\0");
    assert_eq!(&img[17..21], &[42, 0, 0, 0]);
    assert_eq!(&img[21..29], &[0x77, 0, 0, 0, 0, 0, 0, 0]);
    let p = decode_param(&img[32..72].to_vec()).unwrap();
    assert_eq!(p.path_addr, 0x10000);
    assert_eq!(p.init_name, 0x10000 + 12);
    assert_eq!(p.user_data, 0x10000 + 17);
    assert_eq!(p.user_len, 12);
}

#[test]
fn exit_status_reports_its_code() {
    let s = ExitStatus::from_raw(7);
    assert!(!s.success());
    assert_eq!(s.code(), Some(7));
    assert_eq!(s.code_direct(), 7);
    assert!(ExitStatus::from_raw(0).success());
}
