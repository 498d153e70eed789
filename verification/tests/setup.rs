use agent_desktop::platform::Os;
use agent_desktop::setup::{
    checksum_mismatch_message, gpu_message, ort_dylib_filename, ort_install_hint, ort_system_paths, to_lower_hex,
    verify_checksum,
};

const ABC_SHA256: &str = "ba7816bf8f01cfea414140de5dae2223b00361a396177a9cb410ff61f20015ad";

#[test]
fn checksum_of_known_data() {
    assert_eq!(verify_checksum(&b"abc".to_vec(), ABC_SHA256), Ok(()));
    assert_eq!(verify_checksum(&b"abd".to_vec(), ABC_SHA256).unwrap_err().len(), 64);
    assert_eq!(
        verify_checksum(&vec![], "0"),
        Err("e3b0c44298fc1c149afbf4c8996fb92427ae41e4649b934ca495991b7852b855".to_string())
    );
}

#[test]
fn lower_hex_of_bytes() {
    assert_eq!(to_lower_hex(&vec![0x00, 0x0f, 0xa0, 0xff]), "000fa0ff");
    assert_eq!(to_lower_hex(&vec![]), "");
}

#[test]
fn mismatch_message() {
    assert_eq!(
        checksum_mismatch_message("\"/tmp/m.onnx\"", "aa", "bb"),
        "Checksum mismatch for \"/tmp/m.onnx\". Expected aa, got bb. File removed."
    );
}

#[test]
fn onnx_runtime_locations() {
    assert_eq!(ort_dylib_filename(Os::MacOs), "libonnxruntime.dylib");
    assert_eq!(ort_dylib_filename(Os::Windows), "onnxruntime.dll");
    assert_eq!(ort_dylib_filename(Os::Linux), "libonnxruntime.so");
    assert_eq!(ort_system_paths(Os::Linux).len(), 4);
    assert_eq!(ort_system_paths(Os::MacOs)[0], "/opt/homebrew/lib/libonnxruntime.dylib");
    assert!(ort_system_paths(Os::Windows).is_empty());
    assert_eq!(ort_install_hint(Os::MacOs), "  Install it with: brew install onnxruntime");
    assert!(gpu_message(true).starts_with("GPU: CUDA detected."));
    assert!(gpu_message(false).starts_with("GPU: No CUDA detected."));
}

#[test]
fn whitespace_is_the_unicode_white_space_set() {
    for n in 0u32..=0x10FFFF {
        if let Some(c) = char::from_u32(n) {
            assert_eq!(agent_desktop::text::is_whitespace(c), c.is_whitespace(), "U+{:04X}", n);
        }
    }
}
