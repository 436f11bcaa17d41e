//! JSON-RPC framing over newline-delimited text, and the handshake session of
//! one protocol exchange with a tool server.

use vstd::prelude::*;
use crate::json::{
    Json, JsonValue, json_parse, json_text, lookup, member, members_of, text, values_of,
    lemma_members_of, lemma_values_of,
};

verus! {

/// A tool as a server advertises it.
pub struct ToolSchema {
    pub name: String,
    pub description: String,
    pub input_schema: Json,
}

/// The value of a [`ToolSchema`].
pub struct ToolView {
    pub name: Seq<char>,
    pub description: Seq<char>,
    pub input_schema: JsonValue,
}

impl View for ToolSchema {
    type V = ToolView;

    open spec fn view(&self) -> ToolView {
        ToolView {
            name: self.name@,
            description: self.description@,
            input_schema: self.input_schema@,
        }
    }
}

pub open spec fn tool_views(tools: Seq<ToolSchema>) -> Seq<ToolView> {
    tools.map_values(|t: ToolSchema| t@)
}

impl ToolSchema {
    /// A separate schema with the same value.
    pub fn copy(&self) -> (r: ToolSchema)
        ensures
            r@ == self@,
    {
        ToolSchema {
            name: self.name.clone(),
            description: self.description.clone(),
            input_schema: self.input_schema.copy(),
        }
    }
}

/// Why one protocol exchange failed.
pub enum ProtocolError {
    /// The server closed its output before it answered.
    ConnectionClosed,
    /// A reply, or a part of it, is not the JSON that the protocol prescribes.
    Decode,
    /// A well-formed reply carried neither an error nor a result.
    MissingResult,
    /// The server reported a failure.
    Remote { code: i32, message: String },
}

/// The tool that one descriptor of a `tools/list` result describes: it needs a
/// string `name`, a string `description` and an `inputSchema`.
pub open spec fn tool_of(v: JsonValue) -> Option<ToolView> {
    match (v.field("name"@), v.field("description"@), v.field("inputSchema"@)) {
        (Some(JsonValue::Str(n)), Some(JsonValue::Str(d)), Some(s)) => Some(
            ToolView { name: n, description: d, input_schema: s },
        ),
        _ => None,
    }
}

/// The tools of a sequence of descriptors; nothing when one of them is not a tool.
pub open spec fn tools_of(items: Seq<JsonValue>) -> Option<Seq<ToolView>>
    decreases items.len(),
{
    if items.len() == 0 {
        Some(Seq::empty())
    } else {
        match (tools_of(items.drop_last()), tool_of(items.last())) {
            (Some(ts), Some(t)) => Some(ts.push(t)),
            _ => None,
        }
    }
}

/// The tools of a `tools/list` result: none when it has no `tools` member, and
/// nothing (a decoding failure) when that member is not an array of tools.
pub open spec fn listed_tools(result: JsonValue) -> Option<Seq<ToolView>> {
    match result.field("tools"@) {
        None => Some(Seq::empty()),
        Some(JsonValue::Array(items)) => tools_of(items),
        Some(_) => None,
    }
}

/// What one reply line means.
pub enum Reply {
    Closed,
    Undecodable,
    Remote(int, Seq<char>),
    NoResult,
    Answer(JsonValue),
}

pub open spec fn error_reply(e: JsonValue) -> Reply {
    match (e.field("code"@), e.field("message"@)) {
        (Some(JsonValue::Int(c)), Some(JsonValue::Str(m))) => if i32::MIN <= c <= i32::MAX {
            Reply::Remote(c, m)
        } else {
            Reply::Undecodable
        },
        _ => Reply::Undecodable,
    }
}

/// A response object: it needs a string `jsonrpc` and an `id`; a non-null
/// `error` wins over the `result`.
pub open spec fn response_reply(v: JsonValue) -> Reply {
    if !(v.field("jsonrpc"@) matches Some(JsonValue::Str(_))) || v.field("id"@) is None {
        Reply::Undecodable
    } else if v.field("error"@) is Some && v.field("error"@)->Some_0 != JsonValue::Null {
        error_reply(v.field("error"@)->Some_0)
    } else if v.field("result"@) is Some && v.field("result"@)->Some_0 != JsonValue::Null {
        Reply::Answer(v.field("result"@)->Some_0)
    } else {
        Reply::NoResult
    }
}

/// An empty line means that the server closed its output.
pub open spec fn reply_of(line: Seq<char>) -> Reply {
    if line.len() == 0 {
        Reply::Closed
    } else {
        match json_parse(line) {
            None => Reply::Undecodable,
            Some(v) => response_reply(v),
        }
    }
}

/// `r` is what a reply amounts to.
pub open spec fn answers(r: Result<Json, ProtocolError>, reply: Reply) -> bool {
    match reply {
        Reply::Closed => r matches Err(ProtocolError::ConnectionClosed),
        Reply::Undecodable => r matches Err(ProtocolError::Decode),
        Reply::NoResult => r matches Err(ProtocolError::MissingResult),
        Reply::Remote(c, m) => r matches Err(ProtocolError::Remote { code, message }) && code == c
            && message@ == m,
        Reply::Answer(v) => r matches Ok(j) && j@ == v,
    }
}

pub open spec fn framed(v: JsonValue) -> Seq<char> {
    json_text(v) + seq!['\n']
}

pub open spec fn request_value(id: int, method: Seq<char>, params: JsonValue) -> JsonValue {
    JsonValue::Object(
        seq![
            ("jsonrpc"@, JsonValue::Str("2.0"@)),
            ("id"@, JsonValue::Int(id)),
            ("method"@, JsonValue::Str(method)),
            ("params"@, params),
        ],
    )
}

pub open spec fn notification_value(method: Seq<char>, params: JsonValue) -> JsonValue {
    JsonValue::Object(
        seq![
            ("jsonrpc"@, JsonValue::Str("2.0"@)),
            ("method"@, JsonValue::Str(method)),
            ("params"@, params),
        ],
    )
}

/// The parameters of the `initialize` handshake.
pub open spec fn init_params() -> JsonValue {
    JsonValue::Object(
        seq![
            ("protocolVersion"@, JsonValue::Str("0.1.0"@)),
            (
                "capabilities"@,
                JsonValue::Object(seq![("tools"@, JsonValue::Object(Seq::empty()))]),
            ),
            (
                "clientInfo"@,
                JsonValue::Object(
                    seq![
                        ("name"@, JsonValue::Str("gamecode-cli"@)),
                        ("version"@, JsonValue::Str("0.2.0"@)),
                    ],
                ),
            ),
        ],
    )
}

/// The line that carries a document: its compact text and a newline.
pub fn frame(v: &Json) -> (r: String)
    ensures
        r@ == framed(v@),
{
    let mut line = v.to_text();
    line.append("\n");
    proof {
        reveal_strlit("\n");
    }
    line
}

/// A request of the protocol.
pub struct JsonRpcRequest {
    pub id: i64,
    pub method: String,
    pub params: Json,
}

impl JsonRpcRequest {
    /// The request as a JSON document.
    pub fn to_json(self) -> (r: Json)
        ensures
            r@ == request_value(self.id as int, self.method@, self.params@),
    {
        let ghost params = self.params@;
        let ghost method = self.method@;
        let members = vec![
            member("jsonrpc", text("2.0")),
            member("id", Json::Int(self.id)),
            (String::from_str("method"), Json::Str(self.method)),
            member("params", self.params),
        ];
        proof {
            lemma_members_of(members@);
            assert(members_of(members@) =~= request_value(self.id as int, method, params)->Object_0);
        }
        Json::Object(members)
    }
}

/// Decodes one descriptor of a `tools/list` result.
pub fn tool_from_json(v: &Json) -> (r: Option<ToolSchema>)
    ensures
        match r {
            Some(t) => tool_of(v@) == Some(t@),
            None => tool_of(v@) is None,
        },
{
    let name = match v.get("name") {
        Some(n) => n.as_str(),
        None => None,
    };
    let description = match v.get("description") {
        Some(d) => d.as_str(),
        None => None,
    };
    let schema = v.get("inputSchema");
    match (name, description, schema) {
        (Some(n), Some(d), Some(s)) => Some(
            ToolSchema { name: n.clone(), description: d.clone(), input_schema: s.copy() },
        ),
        _ => None,
    }
}

/// The tools of a `tools/list` result. A result without a `tools` member lists
/// none; a `tools` member that is not an array of tools is a decoding failure.
pub fn tools_from_list_result(result: &Json) -> (r: Result<Vec<ToolSchema>, ProtocolError>)
    ensures
        match r {
            Ok(tools) => listed_tools(result@) == Some(tool_views(tools@)),
            Err(e) => listed_tools(result@) is None && e is Decode,
        },
{
    let items = match result.get("tools") {
        None => {
            proof {
                assert(tool_views(Seq::<ToolSchema>::empty()) =~= Seq::<ToolView>::empty());
            }
            return Ok(Vec::new());
        },
        Some(t) => match t.as_array() {
            Some(items) => items,
            None => {
                return Err(ProtocolError::Decode);
            },
        },
    };
    proof {
        lemma_values_of(items@);
    }
    let ghost all = values_of(items@);
    let mut tools: Vec<ToolSchema> = Vec::new();
    let mut i: usize = 0;
    while i < items.len()
        invariant
            0 <= i <= items.len(),
            all == values_of(items@),
            all.len() == items.len(),
            forall|k: int| 0 <= k < items.len() ==> #[trigger] all[k] == items@[k]@,
            result@.field("tools"@) == Some(JsonValue::Array(all)),
            tools_of(all.take(i as int)) == Some(tool_views(tools@)),
        decreases items.len() - i,
    {
        proof {
            assert(all.take(i as int + 1).drop_last() =~= all.take(i as int));
        }
        match tool_from_json(&items[i]) {
            Some(t) => {
                let ghost before = tools@;
                tools.push(t);
                proof {
                    assert(tool_views(tools@) =~= tool_views(before).push(t@));
                }
            },
            None => {
                proof {
                    lemma_tools_of_prefix_none(all, i as int + 1);
                }
                return Err(ProtocolError::Decode);
            },
        }
        i = i + 1;
    }
    proof {
        assert(all.take(items.len() as int) =~= all);
    }
    Ok(tools)
}

proof fn lemma_tools_of_prefix_none(items: Seq<JsonValue>, n: int)
    requires
        0 <= n <= items.len(),
        tools_of(items.take(n)) is None,
    ensures
        tools_of(items) is None,
    decreases items.len() - n,
{
    if n < items.len() {
        assert(items.take(n + 1).drop_last() =~= items.take(n));
        lemma_tools_of_prefix_none(items, n + 1);
    } else {
        assert(items.take(n) =~= items);
    }
}

/// Reads one reply line: an empty line means the server closed its output; a
/// line that is not a JSON-RPC response is a decoding failure; a non-null
/// `error` is the server's failure; otherwise the non-null `result` is the answer.
pub fn read_response(line: &str) -> (r: Result<Json, ProtocolError>)
    ensures
        answers(r, reply_of(line@)),
{
    if line.is_empty() {
        return Err(ProtocolError::ConnectionClosed);
    }
    match Json::from_text(line) {
        Some(v) => decode_response(&v),
        None => Err(ProtocolError::Decode),
    }
}

/// What a parsed response document amounts to: it needs a string `jsonrpc` and
/// an `id`; a non-null `error` is the server's failure; otherwise the non-null
/// `result` is the answer.
pub fn decode_response(v: &Json) -> (r: Result<Json, ProtocolError>)
    ensures
        answers(r, response_reply(v@)),
{
    let versioned = match v.get("jsonrpc") {
        Some(j) => j.as_str().is_some(),
        None => false,
    };
    if !versioned || v.get("id").is_none() {
        return Err(ProtocolError::Decode);
    }
    match v.get("error") {
        Some(Json::Null) => {},
        None => {},
        Some(e) => {
            return match (e.get("code"), e.get("message")) {
                (Some(Json::Int(c)), Some(Json::Str(m))) => {
                    if i32::MIN as i64 <= *c && *c <= i32::MAX as i64 {
                        Err(ProtocolError::Remote { code: *c as i32, message: m.clone() })
                    } else {
                        Err(ProtocolError::Decode)
                    }
                },
                _ => Err(ProtocolError::Decode),
            };
        },
    }
    match v.get("result") {
        Some(Json::Null) => Err(ProtocolError::MissingResult),
        None => Err(ProtocolError::MissingResult),
        Some(r) => Ok(r.copy()),
    }
}

/// A `tools/list` result without a `tools` member lists no tools; it is no
/// decoding failure.
pub proof fn lemma_missing_tools_lists_none(result: JsonValue)
    requires
        result.field("tools"@) is None,
    ensures
        listed_tools(result) == Some(Seq::<ToolView>::empty()),
{
}

proof fn lemma_request_fields(id: int, method: Seq<char>, params: JsonValue)
    ensures
        request_value(id, method, params).field("id"@) == Some(JsonValue::Int(id)),
        request_value(id, method, params).field("method"@) == Some(JsonValue::Str(method)),
{
    reveal_strlit("jsonrpc");
    reveal_strlit("id");
    reveal_strlit("method");
    reveal_strlit("params");
    let ms = request_value(id, method, params)->Object_0;
    assert("jsonrpc"@.len() == 7);
    assert("id"@.len() == 2);
    assert("method"@.len() == 6);
    let m1 = ms.take(1);
    let m2 = ms.take(2);
    let m3 = ms.take(3);
    assert(m1.drop_last() =~= Seq::<(Seq<char>, JsonValue)>::empty());
    assert(m2.drop_last() =~= m1);
    assert(m3.drop_last() =~= m2);
    assert(ms.drop_last() =~= m3);
    assert(lookup(m1.drop_last(), "id"@) is None);
    assert(lookup(m1.drop_last(), "method"@) is None);
    assert(m1.last().0 != "id"@);
    assert(m1.last().0 != "method"@);
    assert(m2.last().0 != "method"@);
    assert(lookup(m1, "id"@) is None);
    assert(lookup(m1, "method"@) is None);
    assert(lookup(m2, "method"@) is None);
    assert(lookup(m2, "id"@) == Some(JsonValue::Int(id)));
    assert(lookup(m3, "method"@) == Some(JsonValue::Str(method)));
    assert(lookup(m3, "id"@) == Some(JsonValue::Int(id)));
    assert(lookup(ms, "id"@) == Some(JsonValue::Int(id)));
    assert(lookup(ms, "method"@) == Some(JsonValue::Str(method)));
}

/// A session numbers its requests 1 and 2 in the order it sends them: the
/// `initialize` request that opens it is number 1, and the operation's
/// request, which it sends only on the reply to the first, is number 2.
pub proof fn lemma_requests_numbered(op: Operation)
    ensures
        request_value(1, "initialize"@, init_params()).field("id"@) == Some(JsonValue::Int(1)),
        request_value(1, "initialize"@, init_params()).field("method"@) == Some(
            JsonValue::Str("initialize"@),
        ),
        operation_request(op, 2).field("id"@) == Some(JsonValue::Int(2)),
        operation_request(op, 2).field("method"@) == Some(
            JsonValue::Str(
                match op {
                    Operation::ListTools => "tools/list"@,
                    Operation::CallTool { .. } => "tools/call"@,
                },
            ),
        ),
{
    lemma_request_fields(1, "initialize"@, init_params());
    match op {
        Operation::ListTools => {
            lemma_request_fields(2, "tools/list"@, JsonValue::Object(Seq::empty()));
        },
        Operation::CallTool { name, arguments } => {
            lemma_request_fields(
                2,
                "tools/call"@,
                JsonValue::Object(
                    seq![("name"@, JsonValue::Str(name@)), ("arguments"@, arguments@)],
                ),
            );
        },
    }
}

/// The work that a session does once the handshake is done.
pub enum Operation {
    ListTools,
    CallTool { name: String, arguments: Json },
}

/// The request of an operation, as the request numbered `id`.
pub open spec fn operation_request(op: Operation, id: int) -> JsonValue {
    match op {
        Operation::ListTools => request_value(id, "tools/list"@, JsonValue::Object(Seq::empty())),
        Operation::CallTool { name, arguments } => request_value(
            id,
            "tools/call"@,
            JsonValue::Object(
                seq![("name"@, JsonValue::Str(name@)), ("arguments"@, arguments@)],
            ),
        ),
    }
}

/// Where a session stands.
pub enum Phase {
    /// Nothing sent yet.
    Fresh,
    /// `initialize` sent; its reply is awaited.
    Initializing,
    /// The operation's request sent; its reply is awaited.
    Operating,
    /// The operation has finished, or failed.
    Closed,
}

/// What an operation produced.
pub enum Outcome {
    Tools(Vec<ToolSchema>),
    Value(Json),
}

/// What the transport does next for a session.
pub enum SessionStep {
    /// Write `notification` (its failure does not matter), then `request`, then
    /// read one reply line and hand it to [`Session::on_reply`].
    Proceed { notification: String, request: String },
    /// The session is over.
    Finished(Result<Outcome, ProtocolError>),
}

/// How an operation ends on a reply to its request.
pub open spec fn completes(res: Result<Outcome, ProtocolError>, op: Operation, reply: Reply) -> bool {
    match reply {
        Reply::Answer(v) => match op {
            Operation::ListTools => match listed_tools(v) {
                Some(ts) => res matches Ok(Outcome::Tools(tools)) && tool_views(tools@) == ts,
                None => res matches Err(ProtocolError::Decode),
            },
            Operation::CallTool { .. } => res matches Ok(Outcome::Value(j)) && j@ == v,
        },
        _ => res matches Err(e) && answers(Err(e), reply),
    }
}

/// One handshake-and-operation exchange with a server, over one connection.
/// Requests are numbered from 1 and strictly one at a time: a request is sent
/// only after the reply to the one before has been read.
pub struct Session {
    phase: Phase,
    request_id: u64,
    operation: Operation,
}

impl Session {
    pub closed spec fn phase(&self) -> Phase {
        self.phase
    }

    /// The number of the last request sent (0 before the first).
    pub closed spec fn last_id(&self) -> int {
        self.request_id as int
    }

    pub closed spec fn operation(&self) -> Operation {
        self.operation
    }

    pub closed spec fn wf(&self) -> bool {
        match self.phase {
            Phase::Fresh => self.request_id == 0,
            Phase::Initializing => self.request_id == 1,
            Phase::Operating => self.request_id == 2,
            Phase::Closed => self.request_id <= 2,
        }
    }

    /// A session that lists the server's tools.
    pub fn list_tools() -> (r: Session)
        ensures
            r.wf(),
            r.phase() is Fresh,
            r.last_id() == 0,
            r.operation() == Operation::ListTools,
    {
        Session { phase: Phase::Fresh, request_id: 0, operation: Operation::ListTools }
    }

    /// A session that calls the tool `name` with `arguments`.
    pub fn call_tool(name: String, arguments: Json) -> (r: Session)
        ensures
            r.wf(),
            r.phase() is Fresh,
            r.last_id() == 0,
            r.operation() == (Operation::CallTool { name, arguments }),
    {
        Session { phase: Phase::Fresh, request_id: 0, operation: Operation::CallTool { name, arguments } }
    }

    /// Opens the handshake: the line of the `initialize` request, numbered 1.
    /// Its reply goes to [`Session::on_reply`].
    pub fn start(&mut self) -> (line: String)
        requires
            old(self).wf(),
            old(self).phase() is Fresh,
        ensures
            final(self).wf(),
            final(self).phase() is Initializing,
            final(self).last_id() == old(self).last_id() + 1 == 1,
            final(self).operation() == old(self).operation(),
            line@ == framed(request_value(1, "initialize"@, init_params())),
    {
        self.request_id = self.request_id + 1;
        self.phase = Phase::Initializing;
        let request = JsonRpcRequest {
            id: self.request_id as i64,
            method: String::from_str("initialize"),
            params: init_params_json(),
        };
        frame(&request.to_json())
    }

    /// Takes the reply to the outstanding request. After the handshake's reply
    /// it hands out the `notifications/initialized` notification and the
    /// operation's request, numbered one past the handshake; after the
    /// operation's reply the session is over. A failed reply ends it at once.
    pub fn on_reply(&mut self, line: &str) -> (step: SessionStep)
        requires
            old(self).wf(),
            old(self).phase() is Initializing || old(self).phase() is Operating,
        ensures
            final(self).wf(),
            final(self).operation() == old(self).operation(),
            old(self).phase() is Initializing ==> match reply_of(line@) {
                Reply::Answer(_) => {
                    &&& final(self).phase() is Operating
                    &&& final(self).last_id() == old(self).last_id() + 1 == 2
                    &&& step matches SessionStep::Proceed { notification, request }
                    &&& notification@ == framed(
                        notification_value(
                            "notifications/initialized"@,
                            JsonValue::Object(Seq::empty()),
                        ),
                    )
                    &&& request@ == framed(operation_request(old(self).operation(), 2))
                },
                _ => {
                    &&& final(self).phase() is Closed
                    &&& final(self).last_id() == old(self).last_id()
                    &&& step matches SessionStep::Finished(Err(e))
                    &&& answers(Err(e), reply_of(line@))
                },
            },
            old(self).phase() is Operating ==> {
                &&& final(self).phase() is Closed
                &&& final(self).last_id() == old(self).last_id()
                &&& step matches SessionStep::Finished(res)
                &&& completes(res, old(self).operation(), reply_of(line@))
            },
    {
        let reply = read_response(line);
        match self.phase {
            Phase::Initializing => match reply {
                Ok(_) => {
                    self.request_id = self.request_id + 1;
                    self.phase = Phase::Operating;
                    let notification = notification_line(
                        "notifications/initialized",
                        Json::Object(Vec::new()),
                    );
                    proof {
                        assert(members_of(Seq::<(String, Json)>::empty()) =~= Seq::empty());
                    }
                    let request = self.operation_line();
                    SessionStep::Proceed { notification, request }
                },
                Err(e) => {
                    self.phase = Phase::Closed;
                    SessionStep::Finished(Err(e))
                },
            },
            _ => {
                self.phase = Phase::Closed;
                match reply {
                    Ok(result) => match &self.operation {
                        Operation::ListTools => match tools_from_list_result(&result) {
                            Ok(tools) => SessionStep::Finished(Ok(Outcome::Tools(tools))),
                            Err(e) => SessionStep::Finished(Err(e)),
                        },
                        Operation::CallTool { .. } => SessionStep::Finished(
                            Ok(Outcome::Value(result)),
                        ),
                    },
                    Err(e) => SessionStep::Finished(Err(e)),
                }
            },
        }
    }

    /// The line of the operation's request, numbered as the last request.
    fn operation_line(&self) -> (line: String)
        requires
            self.request_id <= i64::MAX,
        ensures
            line@ == framed(operation_request(self.operation, self.request_id as int)),
    {
        let params = match &self.operation {
            Operation::ListTools => {
                proof {
                    assert(members_of(Seq::<(String, Json)>::empty()) =~= Seq::empty());
                }
                Json::Object(Vec::new())
            },
            Operation::CallTool { name, arguments } => {
                let members = vec![
                    member("name", Json::Str(name.clone())),
                    member("arguments", arguments.copy()),
                ];
                proof {
                    lemma_members_of(members@);
                    assert(members_of(members@) =~= seq![
                        ("name"@, JsonValue::Str(name@)),
                        ("arguments"@, arguments@),
                    ]);
                }
                Json::Object(members)
            },
        };
        let method = match &self.operation {
            Operation::ListTools => String::from_str("tools/list"),
            Operation::CallTool { .. } => String::from_str("tools/call"),
        };
        let request = JsonRpcRequest { id: self.request_id as i64, method, params };
        frame(&request.to_json())
    }
}

/// The line of a notification: no number, and no reply is read for it.
pub fn notification_line(method: &str, params: Json) -> (line: String)
    ensures
        line@ == framed(notification_value(method@, params@)),
{
    let ghost p = params@;
    let members = vec![
        member("jsonrpc", text("2.0")),
        member("method", text(method)),
        member("params", params),
    ];
    proof {
        lemma_members_of(members@);
        assert(members_of(members@) =~= notification_value(method@, p)->Object_0);
    }
    frame(&Json::Object(members))
}

/// The document of [`init_params`].
fn init_params_json() -> (r: Json)
    ensures
        r@ == init_params(),
{
    let tools = vec![member("tools", Json::Object(Vec::new()))];
    let client = vec![member("name", text("gamecode-cli")), member("version", text("0.2.0"))];
    proof {
        assert(members_of(Seq::<(String, Json)>::empty()) =~= Seq::empty());
        lemma_members_of(tools@);
        lemma_members_of(client@);
    }
    let capabilities = Json::Object(tools);
    let client_info = Json::Object(client);
    proof {
        assert(members_of(tools@) =~= seq![("tools"@, JsonValue::Object(Seq::empty()))]);
        assert(members_of(client@) =~= seq![
            ("name"@, JsonValue::Str("gamecode-cli"@)),
            ("version"@, JsonValue::Str("0.2.0"@)),
        ]);
    }
    let members = vec![
        member("protocolVersion", text("0.1.0")),
        member("capabilities", capabilities),
        member("clientInfo", client_info),
    ];
    proof {
        lemma_members_of(members@);
        assert(members_of(members@) =~= init_params()->Object_0);
    }
    Json::Object(members)
}

} // verus!
