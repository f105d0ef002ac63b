use proxima_backend::python::{
    container_arguments, decode_frame, format_python_output, frame_message, parse_port_number,
    parse_request, plan_execution, split_at_frame_end, BrokerAction, BrokerArgumentError,
    BrokerSettings, ExecutorTask, FrameReader, Launch, PythonToolRequest, QueueHandlerData,
    RequestError, StreamTag, BROKER_PORT, CONNECT_TIMEOUT_MS, EXECUTION_BUDGET_MS, EXECUTOR_PORT,
    FRAME_END,
};

fn s(x: &str) -> String {
    x.to_string()
}

#[test]
fn frames_end_with_the_delimiter() {
    assert_eq!(frame_message("run\nx"), vec![b'r', b'u', b'n', b'\n', b'x', 255]);
    assert_eq!(frame_message("é"), vec![0xC3, 0xA9, FRAME_END]);
    assert_eq!(frame_message(""), vec![255]);
}

#[test]
fn reader_collects_chunks_until_the_delimiter() {
    let mut reader = FrameReader::new();
    assert_eq!(reader.accept(&vec![b'a', b'b']), None);
    assert_eq!(reader.accept(&vec![]), None);
    assert_eq!(reader.accept(&vec![b'c', 255, b'z', 255]), Some(vec![b'a', b'b', b'c']));
    assert_eq!(reader.accept(&vec![255]), Some(vec![]));
    assert_eq!(reader.accept(&vec![b'x']), None);
    assert_eq!(reader.accept(&vec![b'y', 255]), Some(vec![b'x', b'y']));
}

#[test]
fn frames_decode_as_utf8() {
    assert_eq!(decode_frame(vec![b'h', b'i']), Some(s("hi")));
    assert_eq!(decode_frame(vec![0xC3, 0xA9]), Some(s("é")));
    assert_eq!(decode_frame(vec![]), Some(s("")));
    assert_eq!(decode_frame(vec![0xC3]), None);
    assert_eq!(decode_frame(vec![255]), None);
}

#[test]
fn framed_request_round_trips() {
    let request = PythonToolRequest::Run(s("print('é')"));
    let mut reader = FrameReader::new();
    let frame = reader.accept(&frame_message(&request.to_string())).unwrap();
    let text = decode_frame(frame).unwrap();
    assert_eq!(parse_request(&text), Ok(request));
}

#[test]
fn request_text_has_the_verb_on_the_first_line() {
    assert_eq!(PythonToolRequest::Run(s("a\nb")).to_string(), "run\na\nb");
    assert_eq!(PythonToolRequest::Eval(s("1+1")).to_string(), "eval\n1+1");
}

#[test]
fn requests_are_parsed_by_their_first_line() {
    assert_eq!(parse_request("run\nprint(1)\nprint(2)\n"), Ok(PythonToolRequest::Run(s("print(1)\nprint(2)"))));
    assert_eq!(parse_request("eval\r\n 1+1 "), Ok(PythonToolRequest::Eval(s("1+1"))));
    assert_eq!(parse_request("walk\nx"), Err(RequestError::InvalidFormat));
    assert_eq!(parse_request(" run\nx"), Err(RequestError::InvalidFormat));
    assert_eq!(parse_request("run"), Err(RequestError::InvalidNumberOfArguments));
    assert_eq!(parse_request("run\n"), Err(RequestError::InvalidNumberOfArguments));
    assert_eq!(parse_request(""), Err(RequestError::InvalidNumberOfArguments));
    assert_eq!(RequestError::InvalidFormat.message(), "Invalid format");
    assert_eq!(RequestError::InvalidNumberOfArguments.message(), "Invalid number of arguments");
    assert_eq!(RequestError::InvalidCommandFormat.message(), "Invalid command format");
}

#[test]
fn executor_plans_by_the_verb() {
    assert_eq!(plan_execution("eval\n 1+1 \nignored"), ExecutorTask::Eval(s("1+1")));
    assert_eq!(plan_execution("run\na = 1\nprint(a)"), ExecutorTask::Run(s("a = 1\nprint(a)\n")));
    assert_eq!(plan_execution("run"), ExecutorTask::Nothing);
    assert_eq!(plan_execution("jump\nx"), ExecutorTask::Nothing);
    assert_eq!(plan_execution(""), ExecutorTask::Nothing);
}

#[test]
fn output_is_tagged_and_sorted_back() {
    assert_eq!(StreamTag::Stdout.mark(), "stdout_prox");
    assert_eq!(StreamTag::Stderr.mark(), "stderr_prox");
    let sent = [
        StreamTag::Stdout.tagged("1\n"),
        StreamTag::Stderr.tagged("warn"),
        StreamTag::Stdout.tagged("2"),
        StreamTag::Stdout.tagged(""),
    ]
    .concat();
    assert_eq!(format_python_output(&sent), "stdout:\n1\n2\nstderr:\nwarn\n");
    assert_eq!(format_python_output(""), "stdout:\n\nstderr:\n\n");
    assert_eq!(format_python_output("no tags"), "stdout:\n\nstderr:\n\n");
    assert_eq!(format_python_output("stdout_prostderr_proxx"), "stdout:\n\nstderr:\nx\n");
}

#[test]
fn broker_owns_its_ports() {
    let broker = QueueHandlerData::new(3, 5000).unwrap();
    assert_eq!(broker.free_ports(), &vec![5000, 5001, 5002]);
    assert_eq!(broker.active(), 0);
    assert_eq!(broker.limit(), 3);
    assert!(QueueHandlerData::new(2, 65535).is_none());
    assert!(QueueHandlerData::new(1, 65535).is_some());
    assert!(QueueHandlerData::new(70000, 0).is_none());
    let none = QueueHandlerData::new(0, 5000).unwrap();
    assert_eq!(none.next_action(), BrokerAction::AwaitCompletion);
}

#[test]
fn broker_never_exceeds_its_limit() {
    let mut broker = QueueHandlerData::new(2, 5000).unwrap();
    let mut running: Vec<u16> = Vec::new();
    let mut used: Vec<u16> = Vec::new();
    let mut done = 0;
    let mut submitted = 0;
    while done < 10 {
        assert!(broker.is_well_formed());
        assert!(broker.active() <= 2);
        assert_eq!(broker.free_ports().len() + broker.active(), 2);
        assert_eq!(broker.active(), running.len());
        if submitted < 10 && broker.next_action() == BrokerAction::Dequeue {
            let launch = broker.start().unwrap();
            assert_eq!(launch.thread_number, submitted);
            assert!(launch.port == 5000 || launch.port == 5001);
            assert!(!running.contains(&launch.port));
            running.push(launch.port);
            used.push(launch.port);
            submitted += 1;
        } else {
            assert!(submitted == 10 || broker.start().is_none());
            let port = running.remove(0);
            assert!(broker.finish(port));
            done += 1;
        }
    }
    assert_eq!(broker.active(), 0);
    assert_eq!(used.len(), 10);
    assert!(used.iter().filter(|p| **p == 5000).count() > 1);
    assert!(used.iter().filter(|p| **p == 5001).count() > 1);
}

#[test]
fn broker_ignores_ports_that_are_not_in_use() {
    let mut broker = QueueHandlerData::new(2, 5000).unwrap();
    assert!(!broker.finish(5000));
    assert!(!broker.finish(4999));
    assert!(!broker.finish(5002));
    assert_eq!(broker.start(), Some(Launch { port: 5000, thread_number: 0 }));
    assert!(broker.is_free(5001));
    assert!(!broker.is_free(5000));
    assert!(!broker.finish(5001));
    assert!(broker.finish(5000));
    assert!(!broker.finish(5000));
    assert_eq!(broker.free_ports(), &vec![5001, 5000]);
    assert_eq!(broker.active(), 0);
}

#[test]
fn a_reply_is_passed_on_up_to_the_end_of_its_frame() {
    assert_eq!(split_at_frame_end(&vec![1, 2, 255, 3, 255]), (vec![1, 2], true));
    assert_eq!(split_at_frame_end(&vec![255]), (vec![], true));
    assert_eq!(split_at_frame_end(&vec![7, 8, 9]), (vec![7, 8, 9], false));
    assert_eq!(split_at_frame_end(&vec![]), (vec![], false));
}

#[test]
fn a_container_binds_its_port_to_that_of_the_executor() {
    assert_eq!(
        container_arguments(5000),
        vec!["run", "-d", "-p", "127.0.0.1:5000:4096/tcp", "proxima_python_executor:any"]
    );
    assert_eq!(container_arguments(0)[3], "127.0.0.1:0:4096/tcp");
    assert_eq!(container_arguments(65535)[3], "127.0.0.1:65535:4096/tcp");
    assert_eq!(EXECUTOR_PORT, 4096);
    assert_eq!(CONNECT_TIMEOUT_MS, 5000);
    assert_eq!(EXECUTION_BUDGET_MS, 15000);
}

#[test]
fn the_broker_starts_with_its_defaults_or_with_three_arguments() {
    let usual = BrokerSettings { listen_port: 4096, start_port: 4100, max_in_flight: 4 };
    assert_eq!(BROKER_PORT, 4096);
    assert_eq!(BrokerSettings::from_arguments(&vec![]), Ok(usual));
    assert_eq!(BrokerSettings::from_arguments(&vec![s("5000")]), Ok(usual));
    assert_eq!(BrokerSettings::from_arguments(&vec![s("x"), s("y")]), Ok(usual));
    assert_eq!(
        BrokerSettings::from_arguments(&vec![s("1"), s("2"), s("3"), s("4")]),
        Ok(usual)
    );
    assert_eq!(
        BrokerSettings::from_arguments(&vec![s("5000"), s("+5100"), s("2")]),
        Ok(BrokerSettings { listen_port: 5000, start_port: 5100, max_in_flight: 2 })
    );
    assert_eq!(
        BrokerSettings::from_arguments(&vec![s("0"), s("65535"), s("0")]),
        Ok(BrokerSettings { listen_port: 0, start_port: 65535, max_in_flight: 0 })
    );
}

#[test]
fn the_first_bad_argument_of_the_broker_is_named() {
    assert_eq!(
        BrokerSettings::from_arguments(&vec![s("65536"), s("x"), s("y")]),
        Err(BrokerArgumentError::ListenPort)
    );
    assert_eq!(
        BrokerSettings::from_arguments(&vec![s("1"), s(""), s("y")]),
        Err(BrokerArgumentError::StartPort)
    );
    assert_eq!(
        BrokerSettings::from_arguments(&vec![s("1"), s("2"), s("-3")]),
        Err(BrokerArgumentError::MaxInFlight)
    );
    assert_eq!(
        BrokerSettings::from_arguments(&vec![s(" 1"), s("2"), s("3")]),
        Err(BrokerArgumentError::ListenPort)
    );
}

#[test]
fn port_numbers_are_counts_up_to_the_last_port() {
    assert_eq!(parse_port_number("0"), Some(0));
    assert_eq!(parse_port_number("65535"), Some(65535));
    assert_eq!(parse_port_number("065535"), Some(65535));
    assert_eq!(parse_port_number("65536"), None);
    assert_eq!(parse_port_number("+80"), Some(80));
    assert_eq!(parse_port_number("+"), None);
    assert_eq!(parse_port_number("8o"), None);
    assert_eq!(parse_port_number("99999999999999999999999999"), None);
    for text in ["0", "65535", "065535", "65536", "+80", "+", "8o", "", "-1", "1 "] {
        assert_eq!(parse_port_number(text), text.parse::<u16>().ok());
    }
}
