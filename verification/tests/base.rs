use admerge::{ErrorKind, Newline, RsMerger};
use std::str;

#[test]
fn test_merge_empty() {
    let mut buf: Vec<u8> = Vec::new();
    let merger = RsMerger::new();
    match merger.merge_sources_into(Vec::new(), &mut buf) {
        Err(e) => match e {
            ErrorKind::NothingPassed => assert!(true),
            _ => assert!(false),
        },
        _ => assert!(false),
    }
}

#[test]
fn test_merge_default() {
    let c1 = b"hello from p1\n";
    let c2 = b"hello from p2\n";
    let c3 = b"hello from p3\n";
    let mut buf = Vec::new();
    let merger = RsMerger::new();

    // Only pass c1.
    buf.clear();
    match merger.merge_sources_into(vec![c1.to_vec()], &mut buf) {
        Ok(_) => assert_eq!(str::from_utf8(&buf).unwrap(), "hello from p1\n"),
        Err(_) => assert!(false),
    }

    // Pass c1 and c2.
    buf.clear();
    match merger.merge_sources_into(vec![c1.to_vec(), c2.to_vec()], &mut buf) {
        Ok(_) => assert_eq!(
            str::from_utf8(&buf).unwrap(),
            "hello from p1\nhello from p2\n"
        ),
        Err(_) => assert!(false),
    }

    // Pass c1, c2 and c3.
    buf.clear();
    match merger.merge_sources_into(vec![c1.to_vec(), c2.to_vec(), c3.to_vec()], &mut buf) {
        Ok(_) => assert_eq!(
            str::from_utf8(&buf).unwrap(),
            "hello from p1\nhello from p2\nhello from p3\n"
        ),
        Err(_) => assert!(false),
    }
}

#[test]
fn test_force_ending_newline() {
    let c1 = b" line 1 ";
    let c2 = b" line 2 ";
    let c3 = b" line 3 ";
    let mut buf = Vec::new();
    let mut merger = RsMerger::new();

    merger.force_ending_newline(Newline::Lf);
    buf.clear();
    match merger.merge_sources_into(vec![c1.to_vec(), c2.to_vec(), c3.to_vec()], &mut buf) {
        Ok(_) => assert_eq!(
            std::str::from_utf8(&buf).unwrap(),
            " line 1 \n line 2 \n line 3 \n"
        ),
        Err(_) => assert!(false),
    }

    merger.force_ending_newline(Newline::Crlf);
    buf.clear();
    match merger.merge_sources_into(vec![c1.to_vec(), c2.to_vec(), c3.to_vec()], &mut buf) {
        Ok(_) => assert_eq!(
            std::str::from_utf8(&buf).unwrap(),
            " line 1 \r\n line 2 \r\n line 3 \r\n"
        ),
        Err(_) => assert!(false),
    }
}
