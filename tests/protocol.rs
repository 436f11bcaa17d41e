use gamecode_cli::json::Json;
use gamecode_cli::protocol::{
    decode_response, read_response, tools_from_list_result, Outcome, ProtocolError, Session, SessionStep,
};

fn doc(text: &str) -> serde_json::Value {
    serde_json::from_str(text).unwrap()
}

#[test]
fn empty_line_means_connection_closed() {
    assert!(matches!(read_response(""), Err(ProtocolError::ConnectionClosed)));
}

#[test]
fn malformed_line_is_a_decode_error() {
    assert!(matches!(read_response("{oops\n"), Err(ProtocolError::Decode)));
    assert!(matches!(read_response("\n"), Err(ProtocolError::Decode)));
}

#[test]
fn response_without_jsonrpc_or_id_is_a_decode_error() {
    assert!(matches!(read_response("{\"id\":1,\"result\":{}}\n"), Err(ProtocolError::Decode)));
    assert!(matches!(read_response("{\"jsonrpc\":\"2.0\",\"result\":{}}\n"), Err(ProtocolError::Decode)));
}

#[test]
fn error_object_is_a_remote_error() {
    let r = read_response("{\"jsonrpc\":\"2.0\",\"id\":1,\"error\":{\"code\":-32601,\"message\":\"no such method\"}}\n");
    match r {
        Err(ProtocolError::Remote { code, message }) => {
            assert_eq!(code, -32601);
            assert_eq!(message, "no such method");
        }
        _ => panic!("expected a remote error"),
    }
}

#[test]
fn error_wins_over_result() {
    let r = read_response("{\"jsonrpc\":\"2.0\",\"id\":1,\"result\":{},\"error\":{\"code\":1,\"message\":\"m\"}}");
    assert!(matches!(r, Err(ProtocolError::Remote { code: 1, .. })));
}

#[test]
fn malformed_error_object_is_a_decode_error() {
    let r = read_response("{\"jsonrpc\":\"2.0\",\"id\":1,\"error\":{\"code\":\"x\",\"message\":\"m\"}}");
    assert!(matches!(r, Err(ProtocolError::Decode)));
    let r = read_response("{\"jsonrpc\":\"2.0\",\"id\":1,\"error\":{\"code\":4294967296,\"message\":\"m\"}}");
    assert!(matches!(r, Err(ProtocolError::Decode)));
}

#[test]
fn missing_result_is_reported() {
    assert!(matches!(read_response("{\"jsonrpc\":\"2.0\",\"id\":3}"), Err(ProtocolError::MissingResult)));
    assert!(matches!(
        read_response("{\"jsonrpc\":\"2.0\",\"id\":3,\"result\":null,\"error\":null}"),
        Err(ProtocolError::MissingResult)
    ));
}

#[test]
fn result_is_returned_unchanged() {
    let r = read_response("{\"jsonrpc\":\"2.0\",\"id\":2,\"result\":{\"content\":[{\"text\":\"hi\"}]}}\n").ok().unwrap();
    assert_eq!(r.to_text(), "{\"content\":[{\"text\":\"hi\"}]}");
}

#[test]
fn missing_tools_field_lists_no_tools() {
    let result = Json::from_text("{\"nextCursor\":null}").unwrap();
    assert_eq!(tools_from_list_result(&result).ok().unwrap().len(), 0);
    let result = Json::from_text("[]").unwrap();
    assert_eq!(tools_from_list_result(&result).ok().unwrap().len(), 0);
}

#[test]
fn tools_are_decoded_in_order() {
    let result = Json::from_text(
        "{\"tools\":[{\"name\":\"a\",\"description\":\"first\",\"inputSchema\":{\"type\":\"object\"}},\
         {\"name\":\"b\",\"description\":\"second\",\"inputSchema\":{},\"extra\":1}]}",
    )
    .unwrap();
    let tools = tools_from_list_result(&result).ok().unwrap();
    assert_eq!(tools.len(), 2);
    assert_eq!(tools[0].name, "a");
    assert_eq!(tools[0].description, "first");
    assert_eq!(tools[0].input_schema.to_text(), "{\"type\":\"object\"}");
    assert_eq!(tools[1].name, "b");
    assert_eq!(tools[1].description, "second");
}

#[test]
fn bad_tools_field_is_a_decode_error() {
    let not_array = Json::from_text("{\"tools\":{}}").unwrap();
    assert!(matches!(tools_from_list_result(&not_array), Err(ProtocolError::Decode)));
    let no_description = Json::from_text("{\"tools\":[{\"name\":\"a\",\"inputSchema\":{}}]}").unwrap();
    assert!(matches!(tools_from_list_result(&no_description), Err(ProtocolError::Decode)));
}

#[test]
fn sequential_request_ids() {
    let mut session = Session::list_tools();
    let first = session.start();
    assert!(first.ends_with('\n'));
    let first = doc(&first);
    assert_eq!(first["id"], 1);
    assert_eq!(first["jsonrpc"], "2.0");
    assert_eq!(first["method"], "initialize");
    assert_eq!(first["params"]["protocolVersion"], "0.1.0");
    assert_eq!(first["params"]["capabilities"]["tools"], doc("{}"));
    assert_eq!(first["params"]["clientInfo"]["name"], "gamecode-cli");

    let step = session.on_reply("{\"jsonrpc\":\"2.0\",\"id\":1,\"result\":{\"capabilities\":{}}}\n");
    let (notification, request) = match step {
        SessionStep::Proceed { notification, request } => (notification, request),
        SessionStep::Finished(_) => panic!("the handshake succeeded"),
    };
    let notification = doc(&notification);
    assert_eq!(notification["method"], "notifications/initialized");
    assert!(notification.get("id").is_none());
    assert_eq!(notification["params"], doc("{}"));
    let request = doc(&request);
    assert_eq!(request["id"], 2);
    assert_eq!(request["method"], "tools/list");
    assert_eq!(request["params"], doc("{}"));

    let step = session.on_reply(
        "{\"jsonrpc\":\"2.0\",\"id\":2,\"result\":{\"tools\":[{\"name\":\"t\",\"description\":\"d\",\"inputSchema\":{}}]}}\n",
    );
    match step {
        SessionStep::Finished(Ok(Outcome::Tools(tools))) => {
            assert_eq!(tools.len(), 1);
            assert_eq!(tools[0].name, "t");
        }
        _ => panic!("expected the listed tools"),
    }
}

#[test]
fn call_session_sends_name_and_arguments() {
    let args = Json::from_text("{\"path\":\"/tmp\"}").unwrap();
    let mut session = Session::call_tool("read".to_string(), args);
    let _ = session.start();
    let step = session.on_reply("{\"jsonrpc\":\"2.0\",\"id\":1,\"result\":{}}");
    let request = match step {
        SessionStep::Proceed { request, .. } => doc(&request),
        SessionStep::Finished(_) => panic!("the handshake succeeded"),
    };
    assert_eq!(request["id"], 2);
    assert_eq!(request["method"], "tools/call");
    assert_eq!(request["params"], doc("{\"name\":\"read\",\"arguments\":{\"path\":\"/tmp\"}}"));
    match session.on_reply("{\"jsonrpc\":\"2.0\",\"id\":2,\"result\":{\"ok\":true}}") {
        SessionStep::Finished(Ok(Outcome::Value(v))) => assert_eq!(v.to_text(), "{\"ok\":true}"),
        _ => panic!("expected the call's result"),
    }
}

#[test]
fn failed_handshake_ends_the_session() {
    let mut session = Session::list_tools();
    let _ = session.start();
    assert!(matches!(session.on_reply(""), SessionStep::Finished(Err(ProtocolError::ConnectionClosed))));
}

#[test]
fn remote_error_on_the_operation_ends_the_session() {
    let mut session = Session::call_tool("x".to_string(), Json::Null);
    let _ = session.start();
    let _ = session.on_reply("{\"jsonrpc\":\"2.0\",\"id\":1,\"result\":{}}");
    match session.on_reply("{\"jsonrpc\":\"2.0\",\"id\":2,\"error\":{\"code\":-32000,\"message\":\"boom\"}}") {
        SessionStep::Finished(Err(ProtocolError::Remote { code, message })) => {
            assert_eq!(code, -32000);
            assert_eq!(message, "boom");
        }
        _ => panic!("expected the remote error"),
    }
}

#[test]
fn list_session_with_bad_tools_is_a_decode_error() {
    let mut session = Session::list_tools();
    let _ = session.start();
    let _ = session.on_reply("{\"jsonrpc\":\"2.0\",\"id\":1,\"result\":{}}");
    let step = session.on_reply("{\"jsonrpc\":\"2.0\",\"id\":2,\"result\":{\"tools\":5}}");
    assert!(matches!(step, SessionStep::Finished(Err(ProtocolError::Decode))));
}

#[test]
fn decode_response_on_parsed_documents() {
    let ok = Json::Object(vec![
        ("jsonrpc".to_string(), Json::Str("2.0".to_string())),
        ("id".to_string(), Json::Int(7)),
        ("result".to_string(), Json::Array(vec![Json::Int(1)])),
    ]);
    assert_eq!(decode_response(&ok).ok().unwrap().to_text(), "[1]");
    let not_object = Json::Array(vec![]);
    assert!(matches!(decode_response(&not_object), Err(ProtocolError::Decode)));
    let null_id = Json::Object(vec![
        ("jsonrpc".to_string(), Json::Str("2.0".to_string())),
        ("id".to_string(), Json::Null),
    ]);
    assert!(matches!(decode_response(&null_id), Err(ProtocolError::MissingResult)));
}
