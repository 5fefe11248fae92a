use task_nexus::security::{decrypt_data, encrypt_data, get_machine_code, verify_license};
use task_nexus::types::AppError;

#[test]
fn encrypt_is_standard_base64() {
    let out = encrypt_data("hello").unwrap();
    assert_eq!(out, "aGVsbG8=");
    // cross-check against the engine itself
    let expect = base64::Engine::encode(&base64::engine::general_purpose::STANDARD, "数据".as_bytes());
    assert_eq!(encrypt_data("数据").unwrap(), expect);
    assert_eq!(encrypt_data("").unwrap(), "");
}

#[test]
fn decrypt_inverts_encrypt() {
    for s in ["", "a", "hello world", "含中文的字符串", "line\nbreak"] {
        let enc = encrypt_data(s).unwrap();
        assert_eq!(decrypt_data(&enc).unwrap(), s);
    }
}

#[test]
fn decrypt_rejects_garbage() {
    match decrypt_data("!!!not base64!!!") {
        Err(AppError::SystemError(_)) => {}
        other => panic!("expected a system error, got {:?}", other),
    }
    // valid base64 of invalid UTF-8 bytes also fails
    let bad = base64::Engine::encode(&base64::engine::general_purpose::STANDARD, [0xff, 0xfe]);
    match decrypt_data(&bad) {
        Err(AppError::SystemError(_)) => {}
        other => panic!("expected a system error, got {:?}", other),
    }
}

#[test]
fn decrypt_succeeds_only_on_canonical_encodings() {
    // unpadded base64 of the same bytes is not canonical and is rejected
    assert!(decrypt_data("aGVsbG8").is_err());
    assert!(decrypt_data("aGVsbG8=").is_ok());
}

#[test]
fn licensing_stubs() {
    assert_eq!(get_machine_code(), "TASK-NEXUS-DEV-MACHINE");
    assert!(verify_license("any-key"));
    assert!(verify_license(""));
}
