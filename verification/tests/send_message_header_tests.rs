use auto_switch_ha::remoting_command::RemotingCommand;
use auto_switch_ha::remoting_command::RequestCode;
use auto_switch_ha::remoting_command::parse_request_header;
use auto_switch_ha::send_message_header::SendMessageRequestHeader;
use auto_switch_ha::send_message_header::SendMessageRequestHeaderV2;

#[test]
fn test_send_message_request_header_new() {
    let header = SendMessageRequestHeader::new(
        String::from("group"),
        String::from("topic"),
        String::from("default_topic"),
        1,
        0,
        0,
        0,
        0,
    );
    assert_eq!(header.producer_group, "group");
    assert_eq!(header.topic, "topic");
    assert_eq!(header.default_topic, "default_topic");
    assert_eq!(header.default_topic_queue_nums, 1);
    assert_eq!(header.queue_id, 0);
    assert_eq!(header.sys_flag, 0);
    assert_eq!(header.born_timestamp, 0);
    assert_eq!(header.flag, 0);
}

#[test]
fn test_send_message_request_header_v2_new() {
    let header_v2 = SendMessageRequestHeaderV2::new(
        String::from("group"),
        String::from("topic"),
        String::from("default_topic"),
        1,
        0,
        0,
        0,
        0,
    );
    assert_eq!(header_v2.a, "group");
    assert_eq!(header_v2.b, "topic");
    assert_eq!(header_v2.c, "default_topic");
    assert_eq!(header_v2.d, 1);
    assert_eq!(header_v2.e, 0);
    assert_eq!(header_v2.f, 0);
    assert_eq!(header_v2.g, 0);
    assert_eq!(header_v2.h, 0);
}

#[test]
fn test_send_message_request_header_v2_create_v1() {
    let header_v2 = SendMessageRequestHeaderV2::new(
        String::from("group"),
        String::from("topic"),
        String::from("default_topic"),
        1,
        0,
        0,
        0,
        0,
    );
    let header_v1 = header_v2.create_send_message_request_header_v1();
    assert_eq!(header_v1.producer_group, "group");
    assert_eq!(header_v1.topic, "topic");
    assert_eq!(header_v1.default_topic, "default_topic");
    assert_eq!(header_v1.default_topic_queue_nums, 1);
    assert_eq!(header_v1.queue_id, 0);
    assert_eq!(header_v1.sys_flag, 0);
    assert_eq!(header_v1.born_timestamp, 0);
    assert_eq!(header_v1.flag, 0);
}

#[test]
fn test_parse_request_header_v1() {
    let mut request = RemotingCommand::create_response_command();
    request = request.set_code(RequestCode::SendMessage.to_i32());
    let header = parse_request_header(&request);
    assert_eq!(header.is_none(), true);
}

#[test]
fn test_parse_request_header_v2() {
    let mut request = RemotingCommand::create_response_command();
    request = request.set_code(RequestCode::SendMessage.to_i32());
    let header = parse_request_header(&request);
    assert_eq!(header.is_none(), true);
}

#[test]
fn test_parse_converts_v2_header_for_compact_codes() {
    let header_v2 = SendMessageRequestHeaderV2::new(
        String::from("g2"),
        String::from("t2"),
        String::from("d2"),
        4,
        3,
        2,
        99,
        7,
    );
    let request = RemotingCommand::create_response_command()
        .set_code(RequestCode::SendMessageV2.to_i32())
        .set_header_v2(header_v2);
    let header = parse_request_header(&request).expect("compact code with header decodes");
    assert_eq!(header.producer_group, "g2");
    assert_eq!(header.topic, "t2");
    assert_eq!(header.default_topic, "d2");
    assert_eq!(header.default_topic_queue_nums, 4);
    assert_eq!(header.queue_id, 3);
    assert_eq!(header.sys_flag, 2);
    assert_eq!(header.born_timestamp, 99);
    assert_eq!(header.flag, 7);

    let batch = RemotingCommand::create_response_command()
        .set_code(RequestCode::SendBatchMessage.to_i32())
        .set_header_v2(SendMessageRequestHeaderV2::new(
            String::from("bg"),
            String::from("bt"),
            String::from("bd"),
            1,
            0,
            0,
            0,
            0,
        ));
    let batch_header = parse_request_header(&batch).expect("batch code with header decodes");
    assert_eq!(batch_header.producer_group, "bg");
}

#[test]
fn test_parse_reads_v1_header_for_plain_code() {
    let header_v1 = SendMessageRequestHeader::new(
        String::from("g1"),
        String::from("t1"),
        String::from("d1"),
        8,
        1,
        0,
        5,
        0,
    );
    let request = RemotingCommand::create_response_command()
        .set_code(RequestCode::SendMessage.to_i32())
        .set_header(header_v1);
    let header = parse_request_header(&request).expect("plain code reads the long-named header");
    assert_eq!(header.producer_group, "g1");
    assert_eq!(header.topic, "t1");
    assert_eq!(header.born_timestamp, 5);
}

#[test]
fn test_parse_ignores_v2_header_on_plain_code() {
    let request = RemotingCommand::create_response_command()
        .set_code(RequestCode::SendMessage.to_i32())
        .set_header_v2(SendMessageRequestHeaderV2::new(
            String::from("x"),
            String::from("y"),
            String::from("z"),
            1,
            0,
            0,
            0,
            0,
        ));
    assert!(parse_request_header(&request).is_none());
}
