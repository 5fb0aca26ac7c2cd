//! A tool of the other side as one of this side.

use crate::error::{DaimonError, ErrorView, Outcome, Result};
use crate::json::{make_object1, make_object2, object1, object2, Json, JsonView, NumberView};
use crate::mcp::protocol::{
    extract_text, json_call_result, read_call_result, request_json, result_text, JsonRpcResponse,
    McpToolInfo, RpcView, JSONRPC_VERSION,
};
use crate::mcp::sse::{
    after_blocks, each_request_gets_its_own_answer, first_answer, handed_out, SseView,
};
use crate::mcp::transport::{
    ask, id_after, may_request, request_ids_differ, wait_run, waits_end_with_their_own_answer,
    McpTransport,
};
use crate::mcp::websocket::{
    all_pass_by, answers_request, frames_run, message_in, passes_by, waits_end_well_by_an_answer,
    WsEventView,
};
use crate::text::{cat2, cat5, owned, signed_decimal, signed_decimal_text};
use crate::tool::{OutputView, Tool, ToolOutput};
use std::sync::Arc;
use vstd::prelude::*;

verus! {

/// The parameters of a tool call.
pub open spec fn call_params(name: Seq<char>, arguments: JsonView) -> JsonView {
    object2("name"@, JsonView::Str(name), "arguments"@, arguments)
}

/// The parameters of a tool call.
pub fn make_call_params(name: &str, arguments: &Json) -> (r: Json)
    ensures
        r@ == call_params(name@, arguments@),
{
    make_object2("name", Json::text(name), "arguments", arguments.duplicate())
}

/// What a tool of the other side hands back, by the answer to its call.
pub open spec fn bridged(answer: RpcView) -> Outcome<OutputView> {
    match answer.error {
        Some(e) => Ok(
            OutputView {
                content: "MCP error: "@ + e.message + " (code "@ + signed_decimal(e.code as int)
                    + ")"@,
                is_error: true,
            },
        ),
        None => match answer.result {
            None => Err(ErrorView::Mcp("tools/call returned no result"@)),
            Some(v) => match json_call_result(v) {
                None => Err(ErrorView::Mcp("parse result: "@ + "not a tool result"@)),
                Some(result) => Ok(
                    OutputView {
                        content: result_text(result.content),
                        is_error: result.is_error,
                    },
                ),
            },
        },
    }
}

/// What a tool of the other side hands back, by the answer to its call. An
/// error of the protocol and a failure of the tool both are output for the
/// model; an answer that makes no sense is an error.
pub fn output_from_response(answer: &JsonRpcResponse) -> (r: Result<ToolOutput>)
    ensures
        crate::tool::output_outcome(r) == bridged(answer@),
{
    if let Some(e) = &answer.error {
        return Ok(
            ToolOutput::error(
                &cat5("MCP error: ", &e.message, " (code ", &signed_decimal_text(e.code), ")"),
            ),
        );
    }
    match &answer.result {
        None => Err(DaimonError::Mcp(owned("tools/call returned no result"))),
        Some(v) => match read_call_result(v) {
            None => Err(DaimonError::Mcp(cat2("parse result: ", "not a tool result"))),
            Some(result) => {
                let text = extract_text(&result.content);
                if result.is_error {
                    Ok(ToolOutput::error(&text))
                } else {
                    Ok(ToolOutput::text(&text))
                }
            },
        },
    }
}

/// A tool of the other side as one of this side.
pub struct McpToolBridge<T> {
    pub transport: Arc<T>,
    pub info: McpToolInfo,
}

impl<T> McpToolBridge<T> {
    /// A tool that is reached in a way.
    pub fn new(transport: Arc<T>, info: McpToolInfo) -> (r: Self)
        ensures
            r.transport == transport,
            r.info == info,
    {
        McpToolBridge { transport, info }
    }
}

/// The schema of a tool that gives none.
pub open spec fn schema_or_any(schema: JsonView) -> JsonView {
    match schema {
        JsonView::Null => object1("type"@, JsonView::Str("object"@)),
        s => s,
    }
}

impl<T: McpTransport> Tool for McpToolBridge<T> {
    open spec fn may_run(&self, input: JsonView, r: Outcome<OutputView>) -> bool {
        exists|answer: Result<JsonRpcResponse>|
            {
                &&& #[trigger] may_request(
                    *self.transport,
                    "tools/call"@,
                    Some(call_params(self.info.name@, input)),
                    answer,
                )
                &&& match answer {
                    Ok(m) => r == bridged(m@),
                    Err(e) => r == Err::<OutputView, ErrorView>(e@),
                }
            }
    }

    fn name(&self) -> (r: &str)
        ensures
            r@ == self.info.name@,
    {
        self.info.name.as_str()
    }

    fn description(&self) -> (r: &str)
        ensures
            r@ == (match self.info.description {
                Some(d) => d@,
                None => ""@,
            }),
    {
        match &self.info.description {
            Some(d) => d.as_str(),
            None => "",
        }
    }

    fn parameters_schema(&self) -> (r: Json)
        ensures
            r@ == schema_or_any(self.info.input_schema@),
    {
        if self.info.input_schema.is_null() {
            make_object1("type", Json::text("object"))
        } else {
            self.info.input_schema.duplicate()
        }
    }

    fn execute(&self, input: &Json) -> (r: Result<ToolOutput>) {
        let params = make_call_params(&self.info.name, input);
        let answer = ask(&*self.transport, "tools/call", Some(params));
        assert(may_request(
            *self.transport,
            "tools/call"@,
            Some(call_params(self.info.name@, input@)),
            answer,
        ));
        match answer {
            Ok(m) => output_from_response(&m),
            Err(e) => Err(e),
        }
    }
}

/// Over any transport, which numbers the requests itself, two tool calls of which
/// the second asks some requests after the first carry different identifiers and
/// are different messages.
pub proof fn calls_ask_apart(
    first_id: u64,
    later: u64,
    first_call: (Seq<char>, JsonView),
    second_call: (Seq<char>, JsonView),
)
    requires
        later > 0,
    ensures
        first_id != id_after(first_id, later),
        request_json(
            JSONRPC_VERSION@,
            first_id,
            "tools/call"@,
            Some(call_params(first_call.0, first_call.1)),
        ) != request_json(
            JSONRPC_VERSION@,
            id_after(first_id, later),
            "tools/call"@,
            Some(call_params(second_call.0, second_call.1)),
        ),
{
    let second_id = id_after(first_id, later);
    request_ids_differ(first_id, 0, later);
    let a = request_json(
        JSONRPC_VERSION@,
        first_id,
        "tools/call"@,
        Some(call_params(first_call.0, first_call.1)),
    );
    let b = request_json(
        JSONRPC_VERSION@,
        second_id,
        "tools/call"@,
        Some(call_params(second_call.0, second_call.1)),
    );
    assert("id"@ != "method"@ && "id"@ != "params"@) by {
        reveal_strlit("id");
        reveal_strlit("method");
        reveal_strlit("params");
        assert("id"@.len() == 2);
    }
    assert(a->Object_0["id"@] == JsonView::Number(NumberView::PosInt(first_id)));
    assert(b->Object_0["id"@] == JsonView::Number(NumberView::PosInt(second_id)));
}

/// Two tools over one event stream do not get in each other's way. While both wait,
/// in whatever order the events come, each is handed the first answer to its own
/// request and no other, and what it hands back is what that answer says.
pub proof fn bridges_share_a_transport(
    first_id: u64,
    later: u64,
    waiting: SseView,
    raws: Seq<Seq<char>>,
)
    requires
        later > 0,
        waiting.pending.contains(first_id),
        waiting.pending.contains(id_after(first_id, later)),
        !after_blocks(waiting, raws).0.closed,
    ensures
        first_id != id_after(first_id, later),
        outputs(after_blocks(waiting, raws).1, first_id) == match first_answer(raws, first_id) {
            Some(m) => seq![bridged(m)],
            None => Seq::empty(),
        },
        outputs(after_blocks(waiting, raws).1, id_after(first_id, later)) == match first_answer(
            raws,
            id_after(first_id, later),
        ) {
            Some(m) => seq![bridged(m)],
            None => Seq::empty(),
        },
        first_answer(raws, first_id) matches Some(m) ==> m.id == Some(first_id),
        first_answer(raws, id_after(first_id, later)) matches Some(m) ==> m.id == Some(
            id_after(first_id, later),
        ),
{
    let second_id = id_after(first_id, later);
    request_ids_differ(first_id, 0, later);
    each_request_gets_its_own_answer(waiting, raws, first_id);
    each_request_gets_its_own_answer(waiting, raws, second_id);
    let answers = after_blocks(waiting, raws).1;
    assert(outputs(answers, first_id) =~= match first_answer(raws, first_id) {
        Some(m) => seq![bridged(m)],
        None => Seq::empty(),
    });
    assert(outputs(answers, second_id) =~= match first_answer(raws, second_id) {
        Some(m) => seq![bridged(m)],
        None => Seq::empty(),
    });
}

/// What a tool hands back once the wait for its answer over a WebSocket is over.
pub open spec fn socket_output(id: u64, frames: Seq<WsEventView>) -> Option<Outcome<OutputView>> {
    match frames_run(id, frames).ended {
        Some(Ok(m)) => Some(bridged(m)),
        Some(Err(e)) => Some(Err(e)),
        None => None,
    }
}

/// Two tools over one WebSocket do not get in each other's way. Each waits on
/// frames of its own, the one after the other. A frame that answers one passes by
/// the wait of the other, and a wait that ends well hands back what the first
/// answer to its own request says.
pub proof fn bridges_share_a_socket(
    first_id: u64,
    later: u64,
    first_frames: Seq<WsEventView>,
    second_frames: Seq<WsEventView>,
)
    requires
        later > 0,
    ensures
        first_id != id_after(first_id, later),
        forall|frame: WsEventView| #[trigger]
            answers_request(frame, first_id) ==> passes_by(frame, id_after(first_id, later)),
        forall|frame: WsEventView| #[trigger]
            answers_request(frame, id_after(first_id, later)) ==> passes_by(frame, first_id),
        frames_run(first_id, first_frames).ended matches Some(Ok(_)) ==> exists|k: int|
            {
                &&& 0 <= k < first_frames.len()
                &&& #[trigger] answers_request(first_frames[k], first_id)
                &&& all_pass_by(first_frames, k, first_id)
                &&& socket_output(first_id, first_frames) == Some(
                    bridged(message_in(first_frames[k])->0),
                )
            },
        frames_run(id_after(first_id, later), second_frames).ended matches Some(Ok(_))
            ==> exists|k: int|
            {
                &&& 0 <= k < second_frames.len()
                &&& #[trigger] answers_request(second_frames[k], id_after(first_id, later))
                &&& all_pass_by(second_frames, k, id_after(first_id, later))
                &&& socket_output(id_after(first_id, later), second_frames) == Some(
                    bridged(message_in(second_frames[k])->0),
                )
            },
{
    let second_id = id_after(first_id, later);
    request_ids_differ(first_id, 0, later);
    if frames_run(first_id, first_frames).ended matches Some(Ok(_)) {
        let k = waits_end_well_by_an_answer(first_id, first_frames);
        assert(answers_request(first_frames[k], first_id));
    }
    if frames_run(second_id, second_frames).ended matches Some(Ok(_)) {
        let k = waits_end_well_by_an_answer(second_id, second_frames);
        assert(answers_request(second_frames[k], second_id));
    }
}

/// Two tools over one pipe do not get in each other's way: a wait that ends well
/// ends with a message that carries the identifier of its own request, and not that
/// of the other.
pub proof fn bridges_share_a_pipe(
    first_id: u64,
    later: u64,
    first_messages: Seq<std::result::Result<JsonView, Seq<char>>>,
    second_messages: Seq<std::result::Result<JsonView, Seq<char>>>,
)
    requires
        later > 0,
    ensures
        first_id != id_after(first_id, later),
        wait_run(first_id, first_messages).1 matches Ok(Some(m)) ==> m.id == Some(first_id),
        wait_run(id_after(first_id, later), second_messages).1 matches Ok(Some(m)) ==> m.id == Some(
            id_after(first_id, later),
        ),
{
    let second_id = id_after(first_id, later);
    request_ids_differ(first_id, 0, later);
    if wait_run(first_id, first_messages).1 matches Ok(Some(_)) {
        let _ = waits_end_with_their_own_answer(first_id, first_messages);
    }
    if wait_run(second_id, second_messages).1 matches Ok(Some(_)) {
        let _ = waits_end_with_their_own_answer(second_id, second_messages);
    }
}

/// What a tool hands back for each answer that its request is handed.
pub open spec fn outputs(answers: Seq<(u64, RpcView)>, id: u64) -> Seq<Outcome<OutputView>> {
    handed_out(answers, id).map_values(|m: RpcView| bridged(m))
}

} // verus!
