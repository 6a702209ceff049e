use gstd::fixture::{check_allocation, check_messages, ExpectedAllocation, ExpectedMessage, SentMessage};

fn sent(dest: u64, payload: &[u8]) -> SentMessage {
    SentMessage { dest, payload: payload.to_vec() }
}

fn expected(destination: u64, payload: &[u8]) -> ExpectedMessage {
    ExpectedMessage { destination, payload: payload.to_vec() }
}

#[test]
fn messages_match_most_recent_first() {
    let mut res = String::new();
    let log = vec![sent(2, b"PING"), sent(1, b"1")];
    let exp = vec![expected(1, b"1"), expected(2, b"PING")];
    assert_eq!(check_messages(&mut res, &log, &exp), 0);
    assert_eq!(res, "Messages:\nOk\n");
}

#[test]
fn messages_count_mismatch() {
    let mut res = String::from("X ");
    let log = vec![sent(1, b"1")];
    let exp = vec![expected(1, b"1"), expected(2, b"PING")];
    assert_eq!(check_messages(&mut res, &log, &exp), 1);
    assert_eq!(res, "X Messages:\nExpectation error (messages count doesn't match)\n");
}

#[test]
fn messages_field_mismatches_counted() {
    let mut res = String::new();
    let log = vec![sent(3, b"b"), sent(1, b"a")];
    let exp = vec![expected(2, b"x"), expected(3, b"b")];
    assert_eq!(check_messages(&mut res, &log, &exp), 2);
    assert_eq!(
        res,
        "Messages:\nExpectation error (destination doesn't match)\nExpectation error (payload doesn't match)\n"
    );
}

#[test]
fn messages_empty_is_ok() {
    let mut res = String::new();
    assert_eq!(check_messages(&mut res, &vec![], &vec![]), 0);
    assert_eq!(res, "Messages:\nOk\n");
}

#[test]
fn allocation_matches_in_order() {
    let mut res = String::new();
    let pages = vec![(16u32, 1u64), (17, 1)];
    let exp = vec![
        ExpectedAllocation { page_num: 16, program_id: 1 },
        ExpectedAllocation { page_num: 17, program_id: 1 },
    ];
    assert_eq!(check_allocation(&mut res, &pages, &exp), 0);
    assert_eq!(res, " Allocation:\nOk\n");
}

#[test]
fn allocation_mismatches_counted() {
    let mut res = String::new();
    let pages = vec![(16u32, 1u64), (18, 2)];
    let exp = vec![
        ExpectedAllocation { page_num: 16, program_id: 2 },
        ExpectedAllocation { page_num: 17, program_id: 3 },
    ];
    assert_eq!(check_allocation(&mut res, &pages, &exp), 3);
    assert_eq!(
        res,
        " Allocation:\nExpectation error (ProgramId doesn't match)\nExpectation error (PageNumber doesn't match)\nExpectation error (ProgramId doesn't match)\n"
    );
}

#[test]
fn allocation_count_mismatch() {
    let mut res = String::new();
    let exp = vec![ExpectedAllocation { page_num: 16, program_id: 1 }];
    assert_eq!(check_allocation(&mut res, &vec![], &exp), 1);
    assert_eq!(res, " Allocation:\nExpectation error (pages count doesn't match)\n");
}
