use std::io::Write;
use tera_statistics_analyser::decode::decode_text;
use tera_statistics_analyser::decode::text_of_decoded;
use tera_statistics_analyser::decode::LoadError;

fn compressed(bytes: &[u8]) -> Vec<u8> {
    let mut encoder = xz2::write::XzEncoder::new(Vec::new(), 6);
    encoder.write_all(bytes).unwrap();
    encoder.finish().unwrap()
}

#[test]
fn compressed_text_is_decoded() {
    let text = "[{\"directory\":\"EU.2018\",\"content\":{}}] \u{e9}\u{4e16}";
    let packed = compressed(text.as_bytes());
    assert_ne!(packed, text.as_bytes());
    assert_eq!(decode_text(&packed).unwrap(), text);
    assert_eq!(decode_text(&compressed(b"")).unwrap(), "");
}

#[test]
fn bytes_that_are_no_xz_stream_fail_to_decompress() {
    assert!(matches!(decode_text(&b"plain text".to_vec()), Err(LoadError::Decompress)));
    assert!(matches!(decode_text(&Vec::new()), Err(LoadError::Decompress)));
    let mut cut = compressed(b"some longer text that will be cut short");
    cut.truncate(cut.len() / 2);
    assert!(matches!(decode_text(&cut), Err(LoadError::Decompress)));
}

#[test]
fn decompressed_bytes_that_are_no_utf8_fail() {
    assert!(matches!(decode_text(&compressed(&[0x66, 0xff, 0x66])), Err(LoadError::Utf8)));
    assert!(matches!(decode_text(&compressed(&[0xc3])), Err(LoadError::Utf8)));
}

#[test]
fn text_of_decoded_reads_the_bytes_as_utf8() {
    assert_eq!(text_of_decoded(Some(b"abc".to_vec())).unwrap(), "abc");
    assert_eq!(text_of_decoded(Some("\u{e9}".as_bytes().to_vec())).unwrap(), "\u{e9}");
    assert_eq!(text_of_decoded(Some(Vec::new())).unwrap(), "");
    assert!(matches!(text_of_decoded(Some(vec![0x80])), Err(LoadError::Utf8)));
    assert!(matches!(text_of_decoded(None), Err(LoadError::Decompress)));
}

#[test]
fn loading_errors_have_their_messages() {
    assert_eq!(LoadError::Read.message("a.xz"), "Unable to open a.xz");
    assert_eq!(LoadError::Decompress.message("a.xz"), "Unable to decompress a.xz");
    assert_eq!(LoadError::Utf8.message("dir/a.xz"), "UTF8 invalid dir/a.xz");
    assert_eq!(LoadError::Parse("missing field".to_string()).message("a.xz"), "Unable to parse a.xz: missing field");
    assert_eq!(LoadError::Filter.message(""), "Unable to filter ");
}
