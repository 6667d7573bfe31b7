use admerge::{ErrorKind, Newline, Pad, RsMerger, Skip};

#[test]
fn skip_head_and_skip_tail() {
    let c1 = b" 11\n 12\n 13";
    let c2 = b" 21\n 22\n 23";
    let c3 = b" 31\n 32\n 33";
    let mut merger = RsMerger::new();

    merger.skip_head(Skip::Lines(0));
    merger.skip_tail(Skip::Lines(0));
    let mut buf = Vec::new();
    assert!(merger
        .merge_sources_into(vec![c1.to_vec(), c2.to_vec(), c3.to_vec()], &mut buf)
        .is_ok());
    assert_eq!(&buf, b" 11\n 12\n 13 21\n 22\n 23 31\n 32\n 33");

    merger.skip_head(Skip::Lines(1));
    merger.skip_tail(Skip::Lines(1));
    let mut buf = Vec::new();
    assert!(merger
        .merge_sources_into(vec![c1.to_vec(), c2.to_vec(), c3.to_vec()], &mut buf)
        .is_ok());
    assert_eq!(&buf, b" 12\n 22\n 32\n");

    merger.skip_head(Skip::Lines(2));
    merger.skip_tail(Skip::Lines(1));
    let mut buf = Vec::new();
    assert!(merger
        .merge_sources_into(vec![c1.to_vec(), c2.to_vec(), c3.to_vec()], &mut buf)
        .is_ok());
    assert_eq!(&buf, b"");

    merger.skip_head(Skip::Lines(1));
    merger.skip_tail(Skip::Lines(2));
    let mut buf = Vec::new();
    assert!(merger
        .merge_sources_into(vec![c1.to_vec(), c2.to_vec(), c3.to_vec()], &mut buf)
        .is_ok());
    assert_eq!(&buf, b"");

    merger.skip_head(Skip::Lines(2));
    merger.skip_tail(Skip::Lines(2));
    let mut buf = Vec::new();
    match merger.merge_sources_into(vec![c1.to_vec(), c2.to_vec(), c3.to_vec()], &mut buf) {
        Err(e) => match e {
            ErrorKind::InvalidSkip => assert!(true),
            _ => assert!(false),
        },
        _ => assert!(false),
    }

    merger.skip_head(Skip::Lines(3));
    merger.skip_tail(Skip::Lines(1));
    let mut buf = Vec::new();
    match merger.merge_sources_into(vec![c1.to_vec(), c2.to_vec(), c3.to_vec()], &mut buf) {
        Err(e) => match e {
            ErrorKind::InvalidSkip => assert!(true),
            _ => assert!(false),
        },
        _ => assert!(false),
    }

    merger.skip_head(Skip::Lines(1));
    merger.skip_tail(Skip::Lines(3));
    let mut buf = Vec::new();
    match merger.merge_sources_into(vec![c1.to_vec(), c2.to_vec(), c3.to_vec()], &mut buf) {
        Err(e) => match e {
            ErrorKind::InvalidSkip => assert!(true),
            _ => assert!(false),
        },
        _ => assert!(false),
    }
}

#[test]
fn options_cooperate_with_each_other() {
    let c1 = b" 11\n 12\n 13";
    let c2 = b" 21\n 22\n 23";
    let c3 = b" 31\n 32\n 33";
    let mut merger = RsMerger::new();

    merger.skip_head(Skip::Lines(1));
    merger.pad_with(Pad::Custom(
        Some(b" leading \n".to_vec()),
        Some(b" inner".to_vec()),
        Some(b" ending \n".to_vec()),
    ));
    merger.force_ending_newline(Newline::Lf);
    let mut buf = Vec::new();
    assert!(merger
        .merge_sources_into(vec![c1.to_vec(), c2.to_vec(), c3.to_vec()], &mut buf)
        .is_ok());
    assert_eq!(
        &buf,
        b" leading \n 12\n 13\n inner 22\n 23\n inner 32\n 33\n ending \n"
    );
}
