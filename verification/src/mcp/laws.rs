//! What the messages of the protocol say to those who read them.

use crate::contained::{holds, lemma_holds_within};
use crate::error::{outcome, ErrorView, Outcome, Result};
use crate::json::{json_text, parsed_json, JsonView, NumberView};
use crate::mcp::bridge::{bridged, call_params, schema_or_any};
use crate::mcp::client::{
    called, cursor_params, failure_words, greeting, may_greet, may_list, page_of, PageView,
};
use crate::mcp::protocol::{
    block_texts, json_call_result, json_content, json_info, json_infos, json_rpc,
    notification_members, request_members, result_text, CallResultView, ContentView,
    JsonRpcResponse, RpcErrorView, RpcView, ToolInfoView, JSONRPC_VERSION,
};
use crate::mcp::server::{
    answers_keep_the_id, call_arguments, call_reply, incoming, json_incoming, may_handle, may_reply,
    response_json, tools_reply, IncomingView, McpServer, ReplyView,
};
use crate::mcp::sse::{chunk_text, gone_error, SseView};
use crate::mcp::transport::{
    http_error, may_notify, may_request, response_in, McpTransport,
};
use crate::mcp::ws_server::{internal_error, may_answer_text, INTERNAL_ERROR};
use crate::members::{affirms, counts, item, lacks, lists, may_say, says};
use crate::model::line_buffer::lossy_text;
use crate::model::types::ToolSpecView;
use crate::text::{joined, replaced, signed_decimal, stands_at};
use crate::text_laws::parts_are_replaced;
use crate::tool::OutputView;
use vstd::prelude::*;

verus! {

/// Whether a member is a value if there is one, and is missing or `null` otherwise.
pub open spec fn may_carry(v: JsonView, key: Seq<char>, value: Option<JsonView>) -> bool {
    match value {
        Some(x) => v.field(key) == Some(x) && x != JsonView::Null,
        None => lacks(v, key) || v.field(key) == Some(JsonView::Null),
    }
}

/// Whether a JSON object says an error.
pub open spec fn tells_error(v: JsonView, e: RpcErrorView) -> bool {
    &&& v is Object
    &&& v.field("code"@) == Some(
        JsonView::Number(
            if e.code < 0 {
                NumberView::NegInt(e.code)
            } else {
                NumberView::PosInt(e.code as u64)
            },
        ),
    )
    &&& says(v, "message"@, e.message)
    &&& may_carry(v, "data"@, e.data)
}

/// Whether a JSON object says an answer.
pub open spec fn tells_rpc(v: JsonView, m: RpcView) -> bool {
    &&& v is Object
    &&& says(v, "jsonrpc"@, m.jsonrpc)
    &&& match m.id {
        Some(id) => counts(v, "id"@, id as nat),
        None => lacks(v, "id"@) || v.field("id"@) == Some(JsonView::Null),
    }
    &&& may_carry(v, "result"@, m.result)
    &&& match m.error {
        Some(e) => v.field("error"@) matches Some(o) && tells_error(o, e),
        None => lacks(v, "error"@) || v.field("error"@) == Some(JsonView::Null),
    }
}

/// An answer is read whole: its identifier, its result and its error.
pub proof fn answers_are_read_whole(v: JsonView, m: RpcView)
    requires
        tells_rpc(v, m),
    ensures
        json_rpc(v) == Some(m),
{
}

/// Whether a JSON object describes a tool.
pub open spec fn tells_tool(v: JsonView, t: ToolInfoView) -> bool {
    &&& v is Object
    &&& says(v, "name"@, t.name)
    &&& may_say(v, "description"@, t.description)
    &&& v.field("inputSchema"@) == Some(t.input_schema)
}

/// A page of tools is read whole: each tool, in order, and where the next page starts.
pub proof fn pages_are_read_whole(v: JsonView, page: PageView, answer: RpcView)
    requires
        answer.error is None,
        answer.result == Some(v),
        lists(v, "tools"@, page.tools.len()),
        forall|i: int|
            0 <= i < page.tools.len() ==> tells_tool(
                item(v, "tools"@, i),
                #[trigger] page.tools[i],
            ),
        may_say(v, "nextCursor"@, page.next),
    ensures
        page_of(answer) == Ok::<PageView, ErrorView>(page),
{
    let list = v.field("tools"@)->0;
    let items = list->Array_0;
    assert forall|i: int| 0 <= i < items.len() implies json_info(#[trigger] items[i]) == Some(
        page.tools[i],
    ) by {
        assert(tells_tool(item(v, "tools"@, i), page.tools[i]));
    }
    assert(Seq::new(items.len(), |i: int| json_info(items[i])->0) =~= page.tools);
    assert(json_infos(list) == Some(page.tools));
}

/// Whether a JSON object says a block of what a tool handed back.
pub open spec fn tells_content(v: JsonView, c: ContentView) -> bool {
    v is Object && says(v, "type"@, c.content_type) && may_say(v, "text"@, c.text)
}

/// What a tool handed back is read whole: each block, in order, and whether it is an
/// error.
pub proof fn results_are_read_whole(v: JsonView, r: CallResultView)
    requires
        v is Object,
        lists(v, "content"@, r.content.len()),
        forall|i: int|
            0 <= i < r.content.len() ==> tells_content(
                item(v, "content"@, i),
                #[trigger] r.content[i],
            ),
        affirms(v, "isError"@, r.is_error) || (!r.is_error && lacks(v, "isError"@)),
    ensures
        json_call_result(v) == Some(r),
{
    let items = v.field("content"@)->0->Array_0;
    assert forall|i: int| 0 <= i < items.len() implies json_content(#[trigger] items[i]) == Some(
        r.content[i],
    ) by {
        assert(tells_content(item(v, "content"@, i), r.content[i]));
    }
    assert(Seq::new(items.len(), |i: int| json_content(items[i])->0) =~= r.content);
}

/// Every block that is text adds its text, in order, and no other block adds any.
pub proof fn text_blocks_add_up(a: Seq<ContentView>, b: Seq<ContentView>)
    ensures
        block_texts(a + b) == block_texts(a) + block_texts(b),
        forall|c: ContentView| #[trigger]
            block_texts(seq![c]) == if c.content_type == "text"@ && c.text is Some {
                seq![c.text->0]
            } else {
                Seq::empty()
            },
        result_text(a) == joined(block_texts(a), seq!['\n']),
    decreases b.len(),
{
    reveal_strlit("\n");
    assert("\n"@ =~= seq!['\n']);
    assert forall|c: ContentView| #[trigger]
        block_texts(seq![c]) == if c.content_type == "text"@ && c.text is Some {
            seq![c.text->0]
        } else {
            Seq::empty()
        } by {
        assert(seq![c].drop_last() =~= Seq::<ContentView>::empty());
        reveal_with_fuel(block_texts, 2);
        assert(block_texts(seq![c]) =~= if c.content_type == "text"@ && c.text is Some {
            seq![c.text->0]
        } else {
            Seq::empty()
        });
    }
    if b.len() == 0 {
        assert(a + b =~= a);
        assert(block_texts(a) + block_texts(b) =~= block_texts(a));
    } else {
        text_blocks_add_up(a, b.drop_last());
        assert((a + b).drop_last() =~= a + b.drop_last());
        assert(block_texts(a + b) =~= block_texts(a) + block_texts(b));
    }
}

/// A call comes to the text that the tool handed back, unless the tool or the other
/// side reports an error or says nothing.
pub proof fn calls_come_to_the_text(name: Seq<char>, answer: RpcView, v: JsonView, r: CallResultView)
    requires
        answer.result == Some(v),
        json_call_result(v) == Some(r),
    ensures
        called(name, answer) is Ok <==> answer.error is None && !r.is_error,
        called(name, answer) matches Ok(text) ==> text == joined(
            block_texts(r.content),
            seq!['\n'],
        ),
{
    text_blocks_add_up(r.content, Seq::empty());
}

/// All tools of some pages, in order.
pub open spec fn tools_of(pages: Seq<PageView>) -> Seq<ToolInfoView>
    decreases pages.len(),
{
    if pages.len() == 0 {
        Seq::empty()
    } else {
        pages[0].tools + tools_of(pages.skip(1))
    }
}

/// Whether the other side answered with a page when it was asked for the one that
/// starts at a cursor.
pub open spec fn gave_page<T: McpTransport>(
    transport: T,
    cursor: Option<Seq<char>>,
    page: PageView,
) -> bool {
    exists|answer: JsonRpcResponse|
        {
            &&& #[trigger] may_request(transport, "tools/list"@, cursor_params(cursor), Ok(answer))
            &&& page_of(answer@) == Ok::<PageView, ErrorView>(page)
        }
}

/// Whether pages were asked for one after the other, each from where the one before
/// it said that the next one starts, up to one that says of none.
pub open spec fn turned<T: McpTransport>(
    transport: T,
    cursor: Option<Seq<char>>,
    pages: Seq<PageView>,
) -> bool {
    &&& pages.len() > 0
    &&& gave_page(transport, cursor, pages[0])
    &&& forall|i: int|
        0 < i < pages.len() ==> gave_page(transport, pages[i - 1].next, #[trigger] pages[i])
    &&& forall|i: int| 0 <= i < pages.len() - 1 ==> (#[trigger] pages[i]).next is Some
    &&& pages.last().next is None
}

/// A list of tools holds the tools of every page, in order, up to the last page.
pub proof fn every_page_is_listed<T: McpTransport>(
    transport: T,
    cursor: Option<Seq<char>>,
    limit: nat,
    known: Seq<ToolInfoView>,
    tools: Seq<ToolInfoView>,
) -> (pages: Seq<PageView>)
    requires
        may_list(transport, cursor, limit, known, Ok(tools)),
    ensures
        turned(transport, cursor, pages),
        pages.len() <= limit,
        tools == known + tools_of(pages),
    decreases limit,
{
    let r = Ok::<Seq<ToolInfoView>, ErrorView>(tools);
    let answer = choose|answer: Result<JsonRpcResponse>|
        {
            &&& #[trigger] may_request(transport, "tools/list"@, cursor_params(cursor), answer)
            &&& match answer {
                Err(e) => r == Err::<Seq<ToolInfoView>, ErrorView>(e@),
                Ok(m) => match page_of(m@) {
                    Err(e) => r == Err::<Seq<ToolInfoView>, ErrorView>(e),
                    Ok(page) => match page.next {
                        None => r == Ok::<Seq<ToolInfoView>, ErrorView>(known + page.tools),
                        Some(next) => may_list(
                            transport,
                            Some(next),
                            (limit - 1) as nat,
                            known + page.tools,
                            r,
                        ),
                    },
                },
            }
        };
    let m = answer->Ok_0;
    let page = page_of(m@)->Ok_0;
    assert(may_request(transport, "tools/list"@, cursor_params(cursor), Ok(m)));
    assert(gave_page(transport, cursor, page));
    if page.next is None {
        let pages = seq![page];
        assert(pages.skip(1) =~= Seq::<PageView>::empty());
        reveal_with_fuel(tools_of, 2);
        assert(tools =~= known + tools_of(pages));
        pages
    } else {
        let rest = every_page_is_listed(
            transport,
            page.next,
            (limit - 1) as nat,
            known + page.tools,
            tools,
        );
        let pages = seq![page] + rest;
        assert(pages.skip(1) =~= rest);
        assert(tools =~= known + tools_of(pages));
        assert forall|i: int| 0 < i < pages.len() implies gave_page(
            transport,
            pages[i - 1].next,
            #[trigger] pages[i],
        ) by {
            if i > 1 {
                assert(gave_page(transport, rest[i - 2].next, rest[i - 1]));
            }
        }
        assert forall|i: int| 0 <= i < pages.len() - 1 implies (
        #[trigger] pages[i]).next is Some by {
            if i > 0 {
                assert(rest[i - 1].next is Some);
            }
        }
        assert(pages.last() == rest.last());
        pages
    }
}

/// A greeting that goes well was answered without an error, and the other side was
/// told that it was understood.
pub proof fn greetings_are_confirmed<T: McpTransport>(transport: T)
    requires
        may_greet(transport, Ok(())),
    ensures
        exists|answer: JsonRpcResponse, told: Result<()>|
            {
                &&& #[trigger] may_request(
                    transport,
                    "initialize"@,
                    Some(greeting()),
                    Ok(answer),
                )
                &&& answer@.error is None
                &&& #[trigger] may_notify(transport, "notifications/initialized"@, told)
                &&& told is Ok
            },
{
    let r = Ok::<(), ErrorView>(());
    let answer = choose|answer: Result<JsonRpcResponse>|
        {
            &&& #[trigger] may_request(transport, "initialize"@, Some(greeting()), answer)
            &&& match answer {
                Err(e) => r == Err::<(), ErrorView>(e@),
                Ok(m) => match m@.error {
                    Some(e) => r == Err::<(), ErrorView>(
                        ErrorView::Mcp(failure_words("initialize"@, e)),
                    ),
                    None => exists|told: Result<()>| #[trigger]
                        may_notify(transport, "notifications/initialized"@, told) && r == outcome(
                            told,
                        ),
                },
            }
        };
    let m = answer->Ok_0;
    assert(may_request(transport, "initialize"@, Some(greeting()), Ok(m)));
    let told = choose|told: Result<()>| #[trigger]
        may_notify(transport, "notifications/initialized"@, told) && r == outcome(told);
    assert(may_notify(transport, "notifications/initialized"@, told) && told is Ok);
}

/// A greeting says which version of the protocol is spoken and who greets.
pub proof fn greetings_say_who_greets()
    ensures
        says(greeting(), "protocolVersion"@, "2024-11-05"@),
        greeting().field("capabilities"@) is Some,
        greeting().field("clientInfo"@) matches Some(who) && says(who, "name"@, "daimon"@)
            && who.field("version"@) is Some,
{
    lemma_greeting_names();
}

proof fn lemma_greeting_names()
    ensures
        "protocolVersion"@.len() == 15,
        "capabilities"@.len() == 12,
        "clientInfo"@.len() == 10,
        "serverInfo"@.len() == 10,
        "name"@.len() == 4,
        "version"@.len() == 7,
{
    reveal_strlit("protocolVersion");
    reveal_strlit("capabilities");
    reveal_strlit("clientInfo");
    reveal_strlit("serverInfo");
    reveal_strlit("name");
    reveal_strlit("version");
}

/// A server that is greeted says which version of the protocol it speaks, what it is
/// called, and that it has tools.
pub proof fn servers_say_who_they_are(server: McpServer, params: Option<JsonView>, r: ReplyView)
    requires
        may_handle(server, "initialize"@, params, r),
    ensures
        r matches Ok(v) && says(v, "protocolVersion"@, "2024-11-05"@) && (v.field(
            "serverInfo"@,
        ) matches Some(who) && says(who, "name"@, server.server_name@) && says(
            who,
            "version"@,
            server.server_version@,
        )) && (v.field("capabilities"@) matches Some(c) && c.field("tools"@) is Some),
{
    lemma_greeting_names();
}

/// A server that is asked for its tools says of each of them, in their order, what it is
/// called, what it is for and what arguments it takes.
pub proof fn tools_are_offered_whole(tools: Seq<ToolSpecView>)
    ensures
        lists(tools_reply(tools), "tools"@, tools.len()),
        forall|i: int|
            0 <= i < tools.len() ==> {
                let v = #[trigger] item(tools_reply(tools), "tools"@, i);
                &&& says(v, "name"@, tools[i].name)
                &&& says(v, "description"@, tools[i].description)
                &&& v.field("inputSchema"@) == Some(tools[i].parameters)
            },
{
    reveal_strlit("name");
    reveal_strlit("description");
    reveal_strlit("inputSchema");
    assert("name"@.len() == 4);
    assert("description"@[0] == 'd' && "inputSchema"@[0] == 'i');
}

/// The answer to a call is one block of text: what the tool put out, with its own word on
/// whether that is an error, or the words of the error that it ended in.
pub proof fn outputs_are_answered_whole(o: Outcome<OutputView>)
    ensures
        lists(call_reply(o), "content"@, 1),
        says(item(call_reply(o), "content"@, 0), "type"@, "text"@),
        o matches Ok(output) ==> says(item(call_reply(o), "content"@, 0), "text"@, output.content)
            && affirms(call_reply(o), "isError"@, output.is_error),
        o matches Err(e) ==> says(item(call_reply(o), "content"@, 0), "text"@, e.words())
            && affirms(call_reply(o), "isError"@, true),
{
    reveal_strlit("content");
    reveal_strlit("isError");
    reveal_strlit("type");
    reveal_strlit("text");
    assert("content"@[0] == 'c' && "isError"@[0] == 'i');
    assert("type"@[1] == 'y' && "text"@[1] == 'e');
}

/// An answer says the version of the protocol and the identifier of its request, and
/// either the result or the code and the words of the refusal.
pub proof fn answers_are_sent_whole(id: JsonView, r: ReplyView)
    ensures
        says(response_json(id, r), "jsonrpc"@, "2.0"@),
        response_json(id, r).field("id"@) == Some(id),
        r matches Ok(result) ==> response_json(id, r).field("result"@) == Some(result) && lacks(
            response_json(id, r),
            "error"@,
        ),
        r matches Err(refusal) ==> lacks(response_json(id, r), "result"@) && (response_json(
            id,
            r,
        ).field("error"@) matches Some(e) && tells_error(
            e,
            RpcErrorView { code: refusal.0, message: refusal.1, data: None },
        )),
{
    answers_keep_the_id(id, r);
    reveal_strlit("jsonrpc");
    reveal_strlit("id");
    reveal_strlit("result");
    reveal_strlit("error");
    reveal_strlit("code");
    reveal_strlit("message");
    reveal_strlit("data");
    assert("jsonrpc"@.len() == 7 && "id"@.len() == 2 && "result"@.len() == 6 && "error"@.len() == 5);
    assert("code"@[0] == 'c' && "message"@[0] == 'm' && "data"@[0] == 'd');
}

/// Whether a JSON object says a request.
pub open spec fn tells_incoming(v: JsonView, request: IncomingView) -> bool {
    &&& v is Object
    &&& v.field("jsonrpc"@) matches Some(JsonView::Str(_))
    &&& says(v, "method"@, request.method)
    &&& may_carry(v, "id"@, request.id)
    &&& may_carry(v, "params"@, request.params)
}

/// A request is read whole: its method and, if it has them, its identifier and its
/// parameters.
pub proof fn requests_are_read_whole(v: JsonView, request: IncomingView)
    requires
        tells_incoming(v, request),
    ensures
        json_incoming(v) == Some(request),
{
}

/// A tool gets the arguments that a call carries.
pub proof fn arguments_are_handed_on(params: JsonView)
    ensures
        params.field("arguments"@) matches Some(a) ==> call_arguments(params) == a,
        lacks(params, "arguments"@) ==> call_arguments(params) is Object && forall|key: Seq<char>|
            #[trigger] lacks(call_arguments(params), key),
{
}

/// A request is sent with its members in this order: the version, its identifier, its
/// method and, if there are any, its parameters.
pub proof fn requests_are_sent_whole(id: u64, method: Seq<char>, params: Option<JsonView>)
    ensures
        ({
            let m = request_members(JSONRPC_VERSION@, id, method, params);
            &&& m.len() == if params is Some {
                4nat
            } else {
                3
            }
            &&& m[0] == ("jsonrpc"@, JsonView::Str("2.0"@))
            &&& m[1] == ("id"@, JsonView::Number(NumberView::PosInt(id)))
            &&& m[2] == ("method"@, JsonView::Str(method))
            &&& params matches Some(p) ==> m[3] == ("params"@, p)
        }),
{
}

/// A notification is sent with its members in this order, and without an identifier.
pub proof fn notifications_are_sent_whole(method: Seq<char>, params: Option<JsonView>)
    ensures
        ({
            let m = notification_members(JSONRPC_VERSION@, method, params);
            &&& m.len() == if params is Some {
                3nat
            } else {
                2
            }
            &&& m[0] == ("jsonrpc"@, JsonView::Str("2.0"@))
            &&& m[1] == ("method"@, JsonView::Str(method))
            &&& params matches Some(p) ==> m[2] == ("params"@, p)
        }),
{
}

/// A call names the tool and carries its arguments.
pub proof fn calls_are_sent_whole(name: Seq<char>, arguments: JsonView)
    ensures
        says(call_params(name, arguments), "name"@, name),
        call_params(name, arguments).field("arguments"@) == Some(arguments),
{
    reveal_strlit("name");
    reveal_strlit("arguments");
    assert("name"@.len() == 4 && "arguments"@.len() == 9);
}

/// What a tool of the other side hands back is what the other side says: the text of
/// its blocks, marked as an error if it is one, or the words of an error that it
/// reports.
pub proof fn bridges_hand_on_what_is_said(answer: RpcView, v: JsonView, r: CallResultView)
    ensures
        answer.error matches Some(e) ==> bridged(answer) is Ok && bridged(answer)->Ok_0.is_error
            && holds(bridged(answer)->Ok_0.content, e.message),
        answer.error is None && answer.result == Some(v) && json_call_result(v) == Some(r)
            ==> bridged(answer) is Ok && bridged(answer)->Ok_0.is_error == r.is_error && bridged(
            answer,
        )->Ok_0.content == joined(block_texts(r.content), seq!['\n']),
        answer.error is None && answer.result is None ==> bridged(answer) is Err,
{
    text_blocks_add_up(r.content, Seq::empty());
    if let Some(e) = answer.error {
        let tail = " (code "@ + signed_decimal(e.code as int) + ")"@;
        lemma_holds_within("MCP error: "@, e.message, tail);
        assert("MCP error: "@ + e.message + tail =~= "MCP error: "@ + e.message + " (code "@
            + signed_decimal(e.code as int) + ")"@);
    }
}

/// A tool that gives no schema takes any object, and one that gives one keeps it.
pub proof fn schemas_are_kept(schema: JsonView)
    ensures
        schema != JsonView::Null ==> schema_or_any(schema) == schema,
        says(schema_or_any(JsonView::Null), "type"@, "object"@),
{
}

/// An answer in a text is what the text says.
pub proof fn answers_in_texts_are_read(body: Seq<char>, v: JsonView, m: RpcView)
    requires
        parsed_json(body) == Ok::<JsonView, Seq<char>>(v),
        tells_rpc(v, m),
    ensures
        response_in(body) == Ok::<RpcView, ErrorView>(m),
{
    answers_are_read_whole(v, m);
}

/// A bad status is reported with what the other side said, and a connection that was
/// given up with its reason.
pub proof fn errors_say_what_went_wrong(status: Seq<char>, body: Seq<char>, s: SseView)
    ensures
        http_error(status, body) matches ErrorView::Mcp(words) && holds(words, status) && holds(
            words,
            body,
        ),
        gone_error(s) matches ErrorView::Mcp(words) && (s.close_reason matches Some(reason)
            ==> holds(words, reason)),
{
    lemma_holds_within("HTTP "@, status, ": "@ + body);
    assert("HTTP "@ + status + (": "@ + body) =~= "HTTP "@ + status + ": "@ + body);
    lemma_holds_within("HTTP "@ + status + ": "@, body, Seq::empty());
    assert("HTTP "@ + status + ": "@ + body + Seq::<char>::empty() =~= "HTTP "@ + status + ": "@
        + body);
    if let Some(reason) = s.close_reason {
        lemma_holds_within("SSE transport closed: "@, reason, Seq::empty());
        assert("SSE transport closed: "@ + reason + Seq::<char>::empty()
            =~= "SSE transport closed: "@ + reason);
    }
}

/// A text that cannot be read is answered over a connection with an error that says so,
/// to nobody in particular. One that can be read is answered as the server answers it.
pub proof fn connections_answer_every_text(server: McpServer, body: Seq<char>, text: Seq<char>)
    requires
        may_answer_text(server, body, text),
    ensures
        incoming(body) is Ok ==> may_reply(server, body, Ok(text)),
        incoming(body) matches Err(e) ==> exists|v: JsonView|
            {
                &&& text == #[trigger] json_text(v)
                &&& v.field("id"@) == Some(JsonView::Null)
                &&& v.field("error"@) matches Some(o) && o.field("code"@) == Some(
                    JsonView::Number(NumberView::NegInt((-32603) as i64)),
                ) && (o.field("message"@) matches Some(JsonView::Str(words)) && holds(words, e))
            },
{
    let r = choose|r: std::result::Result<Seq<char>, Seq<char>>| #[trigger]
        may_reply(server, body, r) && match r {
            Ok(t) => text == t,
            Err(e) => text == json_text(internal_error(e)),
        };
    if let Err(e) = incoming(body) {
        let words = "parse error: "@ + e;
        assert(r == Err::<Seq<char>, Seq<char>>(words));
        lemma_holds_within("parse error: "@, e, Seq::empty());
        assert("parse error: "@ + e + Seq::<char>::empty() =~= words);
        answers_keep_the_id(JsonView::Null, Err((INTERNAL_ERROR, words)));
        let v = internal_error(words);
        lemma_reply_names();
        assert(v.field("error"@) is Some);
        assert(text == json_text(v));
    }
}

proof fn lemma_reply_names()
    ensures
        "jsonrpc"@.len() == 7,
        "id"@.len() == 2,
        "error"@.len() == 5,
        "code"@.len() == 4,
        "message"@.len() == 7,
{
    reveal_strlit("jsonrpc");
    reveal_strlit("id");
    reveal_strlit("error");
    reveal_strlit("code");
    reveal_strlit("message");
}

/// Lines that end with a carriage return and a line feed end with a line feed.
pub proof fn line_ends_are_unified(bytes: Seq<u8>, before: Seq<char>, after: Seq<char>)
    requires
        lossy_text(bytes) == before + "\r\n"@ + after,
        forall|i: int|
            0 <= i < before.len() ==> !(#[trigger] stands_at(lossy_text(bytes), "\r\n"@, i)),
    ensures
        chunk_text(bytes) == before + seq!['\n'] + replaced(after, "\r\n"@, seq!['\n']),
{
    reveal_strlit("\r\n");
    reveal_strlit("\n");
    assert("\n"@ =~= seq!['\n']);
    assert("\r\n"@.len() == 2);
    parts_are_replaced(before, "\r\n"@, after, "\n"@);
}

} // verus!
