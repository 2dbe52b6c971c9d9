use std::collections::HashMap;

use obd_ecu::cycler::{Cycler, UnknownPid};
use obd_ecu::frame::{Frame, BROADCAST_ID, FRAME_LEN, RESPONSE_ID};
use obd_ecu::responder::response_frame;
use obd_ecu::table::{ConfigError, PidResponses, ResponseTable};

fn descriptor(num_data_bytes: usize, responses: &[&[u8]]) -> PidResponses {
    PidResponses {
        num_data_bytes,
        responses: responses.iter().map(|r| r.to_vec()).collect(),
    }
}

fn table(entries: Vec<(u8, PidResponses)>) -> ResponseTable {
    let mut map = HashMap::new();
    for (pid, d) in entries {
        map.insert(pid, d);
    }
    match ResponseTable::new(map) {
        Ok(t) => t,
        Err(e) => panic!("table rejected: {:?}", e),
    }
}

fn load_error(entries: Vec<(u8, PidResponses)>) -> ConfigError {
    let mut map = HashMap::new();
    for (pid, d) in entries {
        map.insert(pid, d);
    }
    match ResponseTable::new(map) {
        Ok(_) => panic!("table accepted"),
        Err(e) => e,
    }
}

fn request(id: u32, data: &[u8]) -> Frame {
    Frame {
        id,
        data: data.to_vec(),
    }
}

/// PID 1 answers with one response, PID 5 and PID 12 cycle through two.
fn sample_table() -> ResponseTable {
    table(vec![
        (1, descriptor(4, &[&[0xBE, 0x1F, 0xA8, 0x13]])),
        (5, descriptor(1, &[&[0x2A], &[0x2B]])),
        (12, descriptor(2, &[&[0x00, 0x00], &[0x01, 0x2C]])),
    ])
}

#[test]
fn response_frame_invalid_test() {
    let table = sample_table();
    let mut cycler = Cycler::new(&table);

    let invalid_id = 0x7e0;
    let broadcast_id = 0x7df;

    // invalid id
    assert!(response_frame(&request(invalid_id, &[2, 1, 1, 0, 0, 0, 0, 0]), &table, &mut cycler).is_none());
    // valid id
    assert!(response_frame(&request(broadcast_id, &[2, 1, 1, 0, 0, 0, 0, 0]), &table, &mut cycler).is_some());
    // invalid service
    assert!(response_frame(&request(broadcast_id, &[2, 2, 1, 0, 0, 0, 0, 0]), &table, &mut cycler).is_none());
    // valid service (0x01)
    assert!(response_frame(&request(broadcast_id, &[2, 1, 1, 0, 0, 0, 0, 0]), &table, &mut cycler).is_some());
}

#[test]
fn response_frame_valid_test() {
    let table = sample_table();
    let mut cycler = Cycler::new(&table);

    const SERVICE: u8 = 0x41;
    const RAW_ID: u32 = 0x7e8;
    const FRAME_SIZE: usize = 8;
    let broadcast_id = 0x7df;

    let pid = 5u8;
    let frame = response_frame(&request(broadcast_id, &[2, 1, pid, 0, 0, 0, 0, 0]), &table, &mut cycler);
    assert!(frame.is_some());
    let frame = frame.unwrap();
    assert_eq!(cycler.cursor(pid), Some(1));
    assert_eq!(frame.id, RAW_ID);
    assert_eq!(frame.data[0], 3);
    assert_eq!(frame.data[1], SERVICE);
    assert_eq!(frame.data[2], pid);
    assert_eq!(frame.data.len(), FRAME_SIZE);

    let pid: u8 = 12u8;
    let frame = response_frame(&request(broadcast_id, &[2, 1, pid, 0, 0, 0, 0, 0]), &table, &mut cycler);
    assert!(frame.is_some());
    let frame = frame.unwrap();
    assert_eq!(cycler.cursor(12), Some(1));
    assert_eq!(frame.id, RAW_ID);
    assert_eq!(frame.data[0], 4);
    assert_eq!(frame.data[1], SERVICE);
    assert_eq!(frame.data[2], pid);
    assert_eq!(frame.data.len(), FRAME_SIZE);
}

#[test]
fn single_response_scenario() {
    let table = table(vec![(5, descriptor(1, &[&[0x2A]]))]);
    let mut cycler = Cycler::new(&table);
    let r = response_frame(&request(0x7DF, &[0x02, 0x01, 0x05, 0, 0, 0, 0, 0]), &table, &mut cycler).unwrap();
    assert_eq!(r.id, 0x7E8);
    assert_eq!(r.data, vec![0x03, 0x41, 0x05, 0x2A, 0, 0, 0, 0]);
}

#[test]
fn two_response_scenario_wraps() {
    let table = table(vec![(12, descriptor(2, &[&[0x00, 0x00], &[0x01, 0x2C]]))]);
    let mut cycler = Cycler::new(&table);
    let req = request(0x7DF, &[0x02, 0x01, 0x0C, 0, 0, 0, 0, 0]);
    let first = response_frame(&req, &table, &mut cycler).unwrap();
    assert_eq!(first.id, 0x7E8);
    assert_eq!(first.data, vec![0x04, 0x41, 0x0C, 0x00, 0x00, 0, 0, 0]);
    let second = response_frame(&req, &table, &mut cycler).unwrap();
    assert_eq!(second.data, vec![0x04, 0x41, 0x0C, 0x01, 0x2C, 0, 0, 0]);
    let third = response_frame(&req, &table, &mut cycler).unwrap();
    assert_eq!(third.data, first.data);
}

#[test]
fn other_identifier_gets_no_response() {
    let table = sample_table();
    let mut cycler = Cycler::new(&table);
    for id in [0x000, 0x7DE, 0x7E0, 0x7E8, 0x7FF] {
        assert!(response_frame(&request(id, &[0x02, 0x01, 0x05, 0, 0, 0, 0, 0]), &table, &mut cycler).is_none());
    }
    assert_eq!(cycler.cursor(5), Some(0));
}

#[test]
fn other_service_gets_no_response() {
    let table = sample_table();
    let mut cycler = Cycler::new(&table);
    for service in [0x00, 0x02, 0x09, 0x41] {
        assert!(response_frame(&request(BROADCAST_ID, &[0x02, service, 0x05, 0, 0, 0, 0, 0]), &table, &mut cycler).is_none());
    }
    assert_eq!(cycler.cursor(5), Some(0));
}

#[test]
fn short_request_gets_no_response() {
    let table = sample_table();
    let mut cycler = Cycler::new(&table);
    assert!(response_frame(&request(BROADCAST_ID, &[]), &table, &mut cycler).is_none());
    assert!(response_frame(&request(BROADCAST_ID, &[0x02, 0x01]), &table, &mut cycler).is_none());
    assert!(response_frame(&request(BROADCAST_ID, &[0x02, 0x01, 0x05]), &table, &mut cycler).is_some());
}

#[test]
fn unknown_pid_gets_no_response() {
    let table = sample_table();
    let mut cycler = Cycler::new(&table);
    assert!(response_frame(&request(BROADCAST_ID, &[0x02, 0x01, 0x0D, 0, 0, 0, 0, 0]), &table, &mut cycler).is_none());
    assert_eq!(cycler.cursor(0x0D), None);
}

#[test]
fn single_response_is_stable() {
    let table = sample_table();
    let mut cycler = Cycler::new(&table);
    let expected = vec![0x06, 0x41, 0x01, 0xBE, 0x1F, 0xA8, 0x13, 0];
    for _ in 0..5 {
        let r = response_frame(&request(BROADCAST_ID, &[0x02, 0x01, 0x01, 0, 0, 0, 0, 0]), &table, &mut cycler).unwrap();
        assert_eq!(r.data, expected);
        assert_eq!(cycler.cursor(1), Some(0));
    }
}

#[test]
fn three_responses_cycle_in_order() {
    let table = table(vec![(0x0D, descriptor(1, &[&[10], &[20], &[30]]))]);
    let mut cycler = Cycler::new(&table);
    let req = request(BROADCAST_ID, &[0x02, 0x01, 0x0D, 0, 0, 0, 0, 0]);
    let mut seen = Vec::new();
    for _ in 0..4 {
        seen.push(response_frame(&req, &table, &mut cycler).unwrap().data[3]);
    }
    assert_eq!(seen, vec![10, 20, 30, 10]);
    assert_eq!(cycler.cursor(0x0D), Some(1));
}

#[test]
fn length_byte_is_declared_length_plus_two() {
    let table = table(vec![
        (0, descriptor(0, &[&[]])),
        (7, descriptor(4, &[&[1, 2, 3, 4]])),
        (9, descriptor(253, &[&[1]])),
    ]);
    let mut cycler = Cycler::new(&table);
    for (pid, len) in [(0u8, 2u8), (7, 6), (9, 255)] {
        let r = response_frame(&request(BROADCAST_ID, &[0x02, 0x01, pid]), &table, &mut cycler).unwrap();
        assert_eq!(r.data[0], len);
    }
}

#[test]
fn response_is_full_frame_with_zero_last_byte() {
    let table = table(vec![(7, descriptor(4, &[&[0xFF, 0xFF, 0xFF, 0xFF]]))]);
    let mut cycler = Cycler::new(&table);
    let r = response_frame(&request(BROADCAST_ID, &[0x02, 0x01, 0x07, 0, 0, 0, 0, 0]), &table, &mut cycler).unwrap();
    assert_eq!(r.id, RESPONSE_ID);
    assert_eq!(r.data.len(), FRAME_LEN);
    assert_eq!(r.data, vec![0x06, 0x41, 0x07, 0xFF, 0xFF, 0xFF, 0xFF, 0]);
}

#[test]
fn empty_responses_are_rejected() {
    assert_eq!(load_error(vec![(3, descriptor(1, &[])), (1, descriptor(1, &[&[1]]))]), ConfigError::NoResponses(3));
}

#[test]
fn oversized_length_is_rejected() {
    assert_eq!(load_error(vec![(4, descriptor(254, &[&[1]]))]), ConfigError::DataLengthTooLarge(4));
}

#[test]
fn oversized_payload_is_rejected() {
    assert_eq!(load_error(vec![(6, descriptor(2, &[&[1, 2], &[1, 2, 3, 4, 5]]))]), ConfigError::ResponseTooLong(6));
}

#[test]
fn smallest_faulty_pid_is_reported() {
    let e = load_error(vec![
        (200, descriptor(1, &[])),
        (20, descriptor(1, &[&[1, 2, 3, 4, 5]])),
        (2, descriptor(1, &[&[1]])),
    ]);
    assert_eq!(e, ConfigError::ResponseTooLong(20));
}

#[test]
fn empty_table_is_accepted() {
    let t = table(vec![]);
    let mut cycler = Cycler::new(&t);
    assert!(!t.contains(0));
    assert!(response_frame(&request(BROADCAST_ID, &[0x02, 0x01, 0x00]), &t, &mut cycler).is_none());
}

#[test]
fn lookup_returns_configured_descriptor() {
    let t = sample_table();
    let d = t.lookup(12).unwrap();
    assert_eq!(d.num_data_bytes, 2);
    assert_eq!(d.responses, vec![vec![0x00, 0x00], vec![0x01, 0x2C]]);
    assert!(t.lookup(13).is_none());
}

#[test]
fn cycler_starts_at_zero_and_wraps() {
    let t = sample_table();
    let mut c = Cycler::new(&t);
    assert_eq!(c.cursor(1), Some(0));
    assert_eq!(c.cursor(2), None);
    assert_eq!(c.next_index(5, 3), Ok(0));
    assert_eq!(c.next_index(5, 3), Ok(1));
    assert_eq!(c.next_index(5, 3), Ok(2));
    assert_eq!(c.next_index(5, 3), Ok(0));
    assert_eq!(c.next_index(2, 3), Err(UnknownPid { pid: 2 }));
    assert_eq!(c.cursor(2), None);
}

#[test]
fn frame_new_checks_identifier_and_length() {
    assert!(Frame::new(0x7FF, vec![0; 8]).is_some());
    assert!(Frame::new(0x800, vec![0; 8]).is_none());
    assert!(Frame::new(0x1_0000, vec![]).is_none());
    assert!(Frame::new(0x7E8, vec![0; 9]).is_none());
    let f = Frame::new(0x123, vec![1, 2, 3]).unwrap();
    assert_eq!(f.id, 0x123);
    assert_eq!(f.data, vec![1, 2, 3]);
}
