use fang::driver::protocol::{
    Exchange, ExchangeError, HidWorker, Outcome, Report, Request, RequestTask, WrongLength,
    DATA_LEN, REPORT_LEN, RESPONSE_DELAY_MS, STATUS_BUSY, STATUS_SUCCESS, TRANSACTION_IDS,
};

fn counting_bytes() -> [u8; 91] {
    let mut bytes = [0u8; 91];
    for (i, byte) in bytes.iter_mut().enumerate() {
        *byte = i as u8;
    }
    bytes
}

fn battery_exchange() -> Exchange {
    Exchange { request: Request::new(0x07, 0x80, 2), transaction_id: 0xe3 }
}

fn answer(status: u8, transaction_id: u8, class: u8, id: u8) -> [u8; 91] {
    let mut bytes = [0u8; 91];
    bytes[1] = status;
    bytes[2] = transaction_id;
    bytes[6] = 2;
    bytes[7] = class;
    bytes[8] = id;
    bytes[10] = 200;
    bytes
}

#[test]
fn lengths() {
    assert_eq!(REPORT_LEN, 91);
    assert_eq!(DATA_LEN, 80);
    assert_eq!(RESPONSE_DELAY_MS, 30);
    assert_eq!(STATUS_BUSY, 1);
    assert_eq!(STATUS_SUCCESS, 2);
    assert_eq!(TRANSACTION_IDS, 31);
}

#[test]
fn report_fields_are_at_their_places() {
    let report = Report::read_from_bytes(&counting_bytes()).unwrap();
    assert_eq!(report.report_id, 0);
    assert_eq!(report.status, 1);
    assert_eq!(report.transaction_id, 2);
    assert_eq!(report.reserved1, [3, 4, 5]);
    assert_eq!(report.data_len, 6);
    assert_eq!(report.command_class, 7);
    assert_eq!(report.command_id, 8);
    assert_eq!(report.data[0], 9);
    assert_eq!(report.data[79], 88);
    assert_eq!(report.checksum, 89);
    assert_eq!(report.reserved2, 90);
}

#[test]
fn report_that_was_written_reads_back() {
    let bytes = counting_bytes();
    let report = Report::read_from_bytes(&bytes).unwrap();
    assert_eq!(report.as_bytes(), bytes);
    let again = Report::read_from_bytes(&report.as_bytes()).unwrap();
    assert_eq!(again.as_bytes(), bytes);
    assert_eq!(again.data, report.data);
}

#[test]
fn report_of_another_length_is_refused() {
    assert_eq!(Report::read_from_bytes(&[]).err(), Some(WrongLength));
    assert_eq!(Report::read_from_bytes(&[0; 90]).err(), Some(WrongLength));
    assert_eq!(Report::read_from_bytes(&[0; 92]).err(), Some(WrongLength));
    assert!(Report::read_from_bytes(&[0; 91]).is_ok());
}

#[test]
fn request_starts_out_without_data() {
    let request = Request::new(0x0f, 0x84, 3);
    assert_eq!(request.command_class, 0x0f);
    assert_eq!(request.command_id, 0x84);
    assert_eq!(request.data_len, 3);
    assert_eq!(request.data, [0; 80]);
}

#[test]
fn data_goes_to_the_front_of_a_request() {
    let request = Request::new(1, 2, 80).with_data(&[9, 8, 7]).with_data(&[5]);
    let mut expected = [0u8; 80];
    expected[0] = 5;
    expected[1] = 8;
    expected[2] = 7;
    assert_eq!(request.data, expected);
    assert_eq!(request.data_len, 80);
    assert_eq!(Request::new(1, 2, 3).with_data(&[]).data, [0; 80]);
    assert_eq!(Request::new(1, 2, 3).with_data(&[4; 80]).data, [4; 80]);
}

#[test]
fn report_of_a_request() {
    let exchange = Exchange {
        request: Request::new(0x0f, 0x84, 3).with_data(&[0x00, 0x05]),
        transaction_id: 0xe1,
    };
    let mut expected = [0u8; 91];
    expected[2] = 0xe1;
    expected[6] = 3;
    expected[7] = 0x0f;
    expected[8] = 0x84;
    expected[10] = 0x05;
    expected[89] = 3 ^ 0x0f ^ 0x84 ^ 0x05;
    assert_eq!(exchange.report().as_bytes(), expected);
    assert_eq!(expected[89], 0x8d);
}

#[test]
fn checksum_leaves_out_the_transaction() {
    let first = Exchange { request: Request::new(7, 0x80, 2), transaction_id: 0xe0 };
    let second = Exchange { request: Request::new(7, 0x80, 2), transaction_id: 0xfe };
    assert_eq!(first.report().checksum, 0x85);
    assert_eq!(second.report().checksum, 0x85);
}

#[test]
fn checked_bytes_and_checksum_cancel() {
    let data: Vec<u8> = (0..80).map(|i| (i * 37 + 11) as u8).collect();
    let exchange = Exchange {
        request: Request::new(0x12, 0x34, 0x56).with_data(&data),
        transaction_id: 0x1f,
    };
    let bytes = exchange.report().as_bytes();
    assert_eq!(bytes[3..=89].iter().fold(0u8, |acc, b| acc ^ b), 0);
}

#[test]
fn busy_device_is_sent_the_same_report() {
    let exchange = battery_exchange();
    let first = exchange.report().as_bytes();
    let busy = answer(1, 0, 0, 0);
    assert!(matches!(exchange.process_response(&busy), Outcome::Busy));
    assert_eq!(exchange.report().as_bytes(), first);
}

#[test]
fn matching_response_is_the_answer() {
    let response = answer(2, 0xe3, 0x07, 0x80);
    match battery_exchange().process_response(&response) {
        Outcome::Done(report) => assert_eq!(report.as_bytes(), response),
        _ => panic!("the response was not taken"),
    }
}

#[test]
fn refused_responses() {
    let refused = |response: [u8; 91]| match battery_exchange().process_response(&response) {
        Outcome::Failed(error) => error,
        _ => panic!("the response was not refused"),
    };
    assert_eq!(refused(answer(0, 0xe3, 0x07, 0x80)), ExchangeError::Status(0));
    assert_eq!(refused(answer(3, 0xe3, 0x07, 0x80)), ExchangeError::Status(3));
    assert_eq!(refused(answer(255, 0, 0, 0)), ExchangeError::Status(255));
    assert_eq!(refused(answer(2, 0xe4, 0x07, 0x80)), ExchangeError::TransactionId);
    assert_eq!(refused(answer(2, 0xe3, 0x08, 0x80)), ExchangeError::CommandClass);
    assert_eq!(refused(answer(2, 0xe3, 0x07, 0x84)), ExchangeError::CommandId);
    assert_eq!(refused(answer(2, 0xe4, 0x08, 0x84)), ExchangeError::TransactionId);
}

#[test]
fn transaction_ids_start_over_after_thirty_one() {
    let mut worker = HidWorker::new();
    let mut ids = Vec::new();
    for _ in 0..33 {
        let task = RequestTask { request: Request::new(7, 0x84, 2), base_transaction_id: 0xe0 };
        let exchange = worker.start(task);
        assert_eq!(exchange.request.command_id, 0x84);
        assert_eq!(exchange.transaction_id & 0xe0, 0xe0);
        ids.push(exchange.transaction_id);
    }
    assert_eq!(ids[0], 0xe0);
    assert_eq!(ids[1], 0xe1);
    assert_eq!(ids[30], 0xfe);
    assert_eq!(ids[31], 0xe0);
    assert_eq!(ids[32], 0xe1);
    for i in 0..31 {
        for j in 0..i {
            assert_ne!(ids[i], ids[j]);
        }
    }
}

#[test]
fn transaction_numbers_are_shared_by_the_devices() {
    let mut worker = HidWorker::new();
    let task = |base| RequestTask { request: Request::new(0, 0, 0), base_transaction_id: base };
    assert_eq!(worker.start(task(0xe0)).transaction_id, 0xe0);
    assert_eq!(worker.start(task(0x00)).transaction_id, 0x01);
    assert_eq!(worker.start(task(0x03)).transaction_id, 0x03);
    assert_eq!(worker.start(task(0xe0)).transaction_id, 0xe3);
}
