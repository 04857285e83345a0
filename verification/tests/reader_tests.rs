use flate2::read::GzDecoder;
use flate2::write::GzEncoder;
use flate2::Compression;
use log_search_mcp::error::LogSearchError;
use log_search_mcp::reader::detect_from_prefix;
use log_search_mcp::reader::detect_label;
use log_search_mcp::reader::is_gz;
use log_search_mcp::reader::split_lines;
use log_search_mcp::reader::FileReader;
use log_search_mcp::reader::ReadPlan;
use std::io::Read;
use std::io::Write;

fn gzip(payload: &[u8]) -> Vec<u8> {
    let mut enc = GzEncoder::new(Vec::new(), Compression::default());
    enc.write_all(payload).unwrap();
    enc.finish().unwrap()
}

fn gunzip(bytes: &[u8]) -> Vec<u8> {
    let mut out = Vec::new();
    GzDecoder::new(bytes).read_to_end(&mut out).unwrap();
    out
}

#[test]
fn read_utf8_lines() {
    let reader = FileReader::new(16 * 1024);
    let lines = reader.read_lines("sample.log", "first\nsecond\n".as_bytes()).unwrap();
    assert_eq!(lines, vec!["first\n", "second\n"]);
}

#[test]
fn read_gzip_lines() {
    let packed = gzip(b"gz-line-1\n gz-line-2\n");
    let reader = FileReader::new(16 * 1024);
    let lines = reader.read_lines("sample.log.gz", &gunzip(&packed)).unwrap();
    assert_eq!(lines, vec!["gz-line-1\n", " gz-line-2\n"]);
}

#[test]
fn detect_utf16_with_bom() {
    let content = "你好UTF16\n第二行\n";
    let mut bytes = vec![0xFF, 0xFE];
    for u in content.encode_utf16() {
        bytes.extend_from_slice(&u.to_le_bytes());
    }
    let reader = FileReader::new(16 * 1024);
    let lines = reader.read_lines("utf16.log", &bytes).unwrap();
    assert_eq!(lines, vec!["你好UTF16\n", "第二行\n"]);
}

#[test]
fn utf16_big_endian_with_bom_decodes() {
    let content = "alpha\nbeta";
    let mut bytes = vec![0xFE, 0xFF];
    for u in content.encode_utf16() {
        bytes.extend_from_slice(&u.to_be_bytes());
    }
    let lines = FileReader::new(1024).read_lines("be.log", &bytes).unwrap();
    assert_eq!(lines, vec!["alpha\n", "beta"]);
}

#[test]
fn utf8_bom_is_skipped() {
    let mut bytes = vec![0xEF, 0xBB, 0xBF];
    bytes.extend_from_slice("héllo\nwörld\n".as_bytes());
    let lines = FileReader::new(1024).read_lines("bom.log", &bytes).unwrap();
    assert_eq!(lines, vec!["héllo\n", "wörld\n"]);
}

#[test]
fn empty_file_has_no_lines() {
    assert!(FileReader::new(1024).read_lines("empty.log", b"").unwrap().is_empty());
    assert!(FileReader::new(1024).read_lines("empty.log.gz", b"").unwrap().is_empty());
}

#[test]
fn last_line_without_feed_is_kept() {
    let lines = FileReader::new(1024).read_lines("a.log", b"one\ntwo").unwrap();
    assert_eq!(lines, vec!["one\n", "two"]);
    let lines = FileReader::new(1024).read_lines("a.log.gz", b"one\n\ntwo").unwrap();
    assert_eq!(lines, vec!["one\n", "\n", "two"]);
}

#[test]
fn gzip_lines_must_be_utf8() {
    let err = FileReader::new(1024).read_lines("bad.log.gz", b"ok\n\xff\xfe bad\n").unwrap_err();
    match &err {
        LogSearchError::EncodingError { path, reason } => {
            assert_eq!(path, "bad.log.gz");
            assert!(reason.contains("utf-8"));
        }
        other => panic!("unexpected error {:?}", other),
    }
    assert!(err.message().starts_with("编码检测失败: bad.log.gz - "));
}

#[test]
fn gzip_parity_with_plain_file() {
    let payload = b"2025-01-01 INFO start\nline-a\n2025-01-01 ERROR boom\nline-b\n";
    let reader = FileReader::new(1024);
    let plain = reader.read_lines("a.log", payload).unwrap();
    let packed = reader.read_lines("a.log.gz", &gunzip(&gzip(payload))).unwrap();
    assert_eq!(plain, packed);
    assert_eq!(plain.len(), 4);
}

#[test]
fn gz_extension_decides() {
    assert!(is_gz("a.gz"));
    assert!(is_gz("/var/log/app.log.gz"));
    assert!(!is_gz("a.log"));
    assert!(!is_gz("a.GZ"));
    assert!(!is_gz(".gz"));
    assert!(!is_gz("dir.gz/file"));
    assert!(!is_gz("gz"));
}

#[test]
fn byte_order_marks_settle_the_encoding() {
    let (enc, skip) = detect_from_prefix(&[0xEF, 0xBB, 0xBF, b'a']);
    assert_eq!((enc.name(), skip), ("UTF-8", 3));
    let (enc, skip) = detect_from_prefix(&[0xFF, 0xFE, b'a', 0]);
    assert_eq!((enc.name(), skip), ("UTF-16LE", 2));
    let (enc, skip) = detect_from_prefix(&[0xFE, 0xFF, 0, b'a']);
    assert_eq!((enc.name(), skip), ("UTF-16BE", 2));
    let (enc, skip) = detect_from_prefix(b"plain ascii text\n");
    assert_eq!(skip, 0);
    assert_eq!(enc.name(), "UTF-8");
    let (_, skip) = detect_from_prefix(&[0xEF, 0xBB]);
    assert_eq!(skip, 0);
    let (_, skip) = detect_from_prefix(&[]);
    assert_eq!(skip, 0);
}

#[test]
fn gbk_bytes_are_labelled_gbk() {
    let text = "错误: 失败 at 2025-11-13 08:14:22\n";
    let (bytes, _, _) = encoding_rs::GBK.encode(text);
    assert_eq!(detect_label(&bytes), "GBK");
    assert_eq!(detect_label(text.as_bytes()), "UTF-8");
    assert_eq!(detect_label(&[0xFF, 0xFE, b'a', 0]), "UTF-16LE");
}

#[test]
fn gbk_file_is_decoded_line_by_line() {
    let text = "错误: 失败 at 2025-11-13 08:14:22\n第二行也是中文内容\n";
    let (bytes, _, _) = encoding_rs::GBK.encode(text);
    let lines = FileReader::new(1024).read_lines("gbk.log", &bytes).unwrap();
    assert_eq!(lines, vec!["错误: 失败 at 2025-11-13 08:14:22\n", "第二行也是中文内容\n"]);
}

#[test]
fn plan_follows_path_and_prefix() {
    let reader = FileReader::new(1024);
    assert!(matches!(reader.plan("x.gz", &[0xFF, 0xFE]), ReadPlan::Gzip));
    match reader.plan("x.log", &[0xFF, 0xFE, b'a', 0]) {
        ReadPlan::Whole { encoding, skip } => assert_eq!((encoding.name(), skip), ("UTF-16LE", 2)),
        other => panic!("unexpected plan {:?}", other),
    }
    match reader.plan("x.log", b"hello") {
        ReadPlan::ByLine { encoding, skip } => assert_eq!((encoding.name(), skip), ("UTF-8", 0)),
        other => panic!("unexpected plan {:?}", other),
    }
}

#[test]
fn bytes_are_cut_after_each_line_feed() {
    assert_eq!(split_lines(b"a\nbc\n\nd"), vec![b"a\n".to_vec(), b"bc\n".to_vec(), b"\n".to_vec(), b"d".to_vec()]);
    assert_eq!(split_lines(b"\n"), vec![b"\n".to_vec()]);
    assert!(split_lines(b"").is_empty());
    let bytes = b"x\r\ny\n".to_vec();
    assert_eq!(split_lines(&bytes).concat(), bytes);
}

#[test]
fn whole_text_is_cut_after_each_line_feed() {
    let reader = FileReader::new(1024);
    let utf8 = encoding_rs::UTF_8;
    assert_eq!(reader.decode_whole("p", utf8, b"a\nb").unwrap(), vec!["a\n", "b"]);
    assert!(reader.decode_whole("p", utf8, b"").unwrap().is_empty());
    assert_eq!(reader.decode_whole("p", utf8, b"\n\n").unwrap(), vec!["\n", "\n"]);
    let latin = reader.decode_whole("p", encoding_rs::WINDOWS_1252, &[0xE9, b'\n', 0xE8]).unwrap();
    assert_eq!(latin, vec!["é\n", "è"]);
}

#[test]
fn single_lines_decode() {
    let reader = FileReader::new(1024);
    assert_eq!(reader.decode_gzip_line("p.gz", "ok\n".as_bytes()).unwrap(), "ok\n");
    assert!(reader.decode_gzip_line("p.gz", &[0xC3]).is_err());
    assert_eq!(reader.decode("p", encoding_rs::WINDOWS_1252, &[0xE9, b'\n']).unwrap(), "é\n");
    assert_eq!(reader.buffer_size, 1024);
}
