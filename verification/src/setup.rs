use vstd::prelude::*;
use crate::text::{chars_of, chars_eq, push_str, string_of};
use crate::platform::{Os, text_of};
use sha2::Digest;

verus! {

broadcast use vstd::string::group_string_axioms;

// ---------------------------------------------------------------------------
// Checksums
// ---------------------------------------------------------------------------

/// The SHA-256 digest of `data`, as `sha2::Sha256::digest` computes it.
pub uninterp spec fn sha256(data: Seq<u8>) -> Seq<u8>;

/// `sha2::Sha256::digest`: its result is named `sha256` of the data, and is
/// 32 bytes long (the output size of SHA-256).
#[verifier::external_body]
fn sha256_digest(data: &Vec<u8>) -> (d: Vec<u8>)
    ensures
        d@ == sha256(data@),
        d@.len() == 32,
{
    sha2::Sha256::digest(data.as_slice()).to_vec()
}

/// The lower-case hexadecimal digit for `d < 16`.
pub open spec fn hex_digit(d: nat) -> char {
    if d < 10 { ((d + '0' as nat) as u32) as char } else { ((d - 10 + 'a' as nat) as u32) as char }
}

/// Bytes in lower-case hexadecimal, two digits each, as `{:x}` shows a digest.
pub open spec fn lower_hex(bytes: Seq<u8>) -> Seq<char>
    decreases bytes.len(),
{
    if bytes.len() == 0 {
        Seq::empty()
    } else {
        lower_hex(bytes.drop_last()) + seq![hex_digit(bytes.last() as nat / 16), hex_digit(bytes.last() as nat % 16)]
    }
}

fn hex_char(d: u8) -> (c: char)
    requires
        d < 16,
    ensures
        c == hex_digit(d as nat),
{
    if d == 0 { '0' } else if d == 1 { '1' } else if d == 2 { '2' } else if d == 3 { '3' }
    else if d == 4 { '4' } else if d == 5 { '5' } else if d == 6 { '6' } else if d == 7 { '7' }
    else if d == 8 { '8' } else if d == 9 { '9' } else if d == 10 { 'a' } else if d == 11 { 'b' }
    else if d == 12 { 'c' } else if d == 13 { 'd' } else if d == 14 { 'e' } else { 'f' }
}

/// Bytes in lower-case hexadecimal.
pub fn to_lower_hex(bytes: &Vec<u8>) -> (s: String)
    ensures
        s@ == lower_hex(bytes@),
{
    let mut v: Vec<char> = Vec::new();
    let mut i: usize = 0;
    while i < bytes.len()
        invariant
            i <= bytes.len(),
            v@ == lower_hex(bytes@.take(i as int)),
        decreases bytes.len() - i,
    {
        let b = bytes[i];
        v.push(hex_char(b / 16));
        v.push(hex_char(b % 16));
        assert(bytes@.take(i + 1).drop_last() =~= bytes@.take(i as int));
        i = i + 1;
    }
    assert(bytes@.take(bytes.len() as int) =~= bytes@);
    string_of(&v)
}

/// Check downloaded data against the expected SHA-256 digest in lower-case
/// hexadecimal. On a mismatch, gives the digest the data has.
pub fn verify_checksum(data: &Vec<u8>, expected: &str) -> (r: Result<(), String>)
    ensures
        lower_hex(sha256(data@)) == expected@ ==> r is Ok,
        lower_hex(sha256(data@)) != expected@ ==> (r matches Err(got) && got@ == lower_hex(sha256(data@))),
{
    let d = sha256_digest(data);
    let got = to_lower_hex(&d);
    let g = chars_of(got.as_str());
    if chars_eq(&g, expected) {
        Ok(())
    } else {
        Err(got)
    }
}

/// The error after a checksum mismatch, for the file shown as `path_shown`.
pub fn checksum_mismatch_message(path_shown: &str, expected: &str, got: &str) -> (m: String)
    ensures
        m@ == "Checksum mismatch for "@ + path_shown@ + ". Expected "@ + expected@ + ", got "@ + got@ + ". File removed."@,
{
    let mut v: Vec<char> = Vec::new();
    push_str(&mut v, "Checksum mismatch for ");
    push_str(&mut v, path_shown);
    push_str(&mut v, ". Expected ");
    push_str(&mut v, expected);
    push_str(&mut v, ", got ");
    push_str(&mut v, got);
    push_str(&mut v, ". File removed.");
    string_of(&v)
}

// ---------------------------------------------------------------------------
// ONNX Runtime
// ---------------------------------------------------------------------------

/// The file name of the ONNX Runtime library on this operating system.
pub open spec fn dylib_name(os: Os) -> Seq<char> {
    match os {
        Os::MacOs => "libonnxruntime.dylib"@,
        Os::Windows => "onnxruntime.dll"@,
        _ => "libonnxruntime.so"@,
    }
}

/// The file name of the ONNX Runtime library on this operating system.
pub fn ort_dylib_filename(os: Os) -> (s: String)
    ensures
        s@ == dylib_name(os),
{
    match os {
        Os::MacOs => text_of("libonnxruntime.dylib"),
        Os::Windows => text_of("onnxruntime.dll"),
        _ => text_of("libonnxruntime.so"),
    }
}

/// Where ONNX Runtime is usually installed on this operating system.
pub open spec fn system_paths(os: Os) -> Seq<Seq<char>> {
    match os {
        Os::MacOs => seq!["/opt/homebrew/lib/libonnxruntime.dylib"@, "/usr/local/lib/libonnxruntime.dylib"@],
        Os::Linux => seq![
            "/usr/lib/libonnxruntime.so"@,
            "/usr/local/lib/libonnxruntime.so"@,
            "/usr/lib/x86_64-linux-gnu/libonnxruntime.so"@,
            "/usr/lib/aarch64-linux-gnu/libonnxruntime.so"@],
        _ => Seq::empty(),
    }
}

/// Where ONNX Runtime is usually installed, in the order to look.
pub fn ort_system_paths(os: Os) -> (v: Vec<String>)
    ensures
        v@.map_values(|s: String| s@) == system_paths(os),
{
    let mut v: Vec<String> = Vec::new();
    match os {
        Os::MacOs => {
            v.push(text_of("/opt/homebrew/lib/libonnxruntime.dylib"));
            v.push(text_of("/usr/local/lib/libonnxruntime.dylib"));
        }
        Os::Linux => {
            v.push(text_of("/usr/lib/libonnxruntime.so"));
            v.push(text_of("/usr/local/lib/libonnxruntime.so"));
            v.push(text_of("/usr/lib/x86_64-linux-gnu/libonnxruntime.so"));
            v.push(text_of("/usr/lib/aarch64-linux-gnu/libonnxruntime.so"));
        }
        _ => {}
    }
    assert(v@.map_values(|s: String| s@) =~= system_paths(os));
    v
}

/// How to install ONNX Runtime where it was not found.
pub fn ort_install_hint(os: Os) -> (s: String)
    ensures
        s@ == match os {
            Os::MacOs => "  Install it with: brew install onnxruntime"@,
            Os::Linux => "  Install it with: apt install libonnxruntime-dev  (or equivalent)"@,
            _ => "  Download ONNX Runtime from https://github.com/microsoft/onnxruntime/releases"@,
        },
{
    match os {
        Os::MacOs => text_of("  Install it with: brew install onnxruntime"),
        Os::Linux => text_of("  Install it with: apt install libonnxruntime-dev  (or equivalent)"),
        _ => text_of("  Download ONNX Runtime from https://github.com/microsoft/onnxruntime/releases"),
    }
}

/// The report on GPU acceleration, by whether CUDA was found.
pub fn gpu_message(has_cuda: bool) -> (s: String)
    ensures
        s@ == if has_cuda { "GPU: CUDA detected. ONNX Runtime will use GPU acceleration."@ }
            else { "GPU: No CUDA detected. Using CPU inference (this is fine, just slower)."@ },
{
    if has_cuda {
        text_of("GPU: CUDA detected. ONNX Runtime will use GPU acceleration.")
    } else {
        text_of("GPU: No CUDA detected. Using CPU inference (this is fine, just slower).")
    }
}

} // verus!
