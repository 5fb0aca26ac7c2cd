//! A client: it greets the other side, learns its tools and calls them.

use crate::error::{outcome, DaimonError, ErrorView, Outcome, Result};
use crate::json::{make_object1, make_object2, make_object3, object1, object2, object3};
use crate::json::{Json, JsonMap, JsonView};
use crate::mcp::bridge::{bridged, call_params, make_call_params, McpToolBridge};
use crate::mcp::protocol::{
    extract_text, info_views, json_call_result, json_infos, read_call_result, read_infos,
    result_text, JsonRpcResponse, McpToolInfo, RpcErrorView, RpcView, ToolInfoView,
};
use crate::mcp::transport::{ask, may_notify, may_request, tell, McpTransport};
use crate::text::{cat2, cat3, cat5, decimal, decimal_text, opt_text, owned};
use crate::text::{signed_decimal, signed_decimal_text};
use crate::tool::OutputView;
use std::sync::Arc;
use vstd::prelude::*;

verus! {

/// The version of the protocol.
pub const PROTOCOL_VERSION: &'static str = "2024-11-05";

/// The name that both sides go by, unless told otherwise.
pub const PACKAGE_NAME: &'static str = "daimon";

/// The version that both sides go by, unless told otherwise.
pub const PACKAGE_VERSION: &'static str = "0.1.0";

/// How many pages of tools are read before the other side is given up.
pub const MAX_TOOL_LIST_PAGES: usize = 1024;

// ---------------------------------------------------------------------
// Greeting
// ---------------------------------------------------------------------

/// A JSON object without members.
pub open spec fn empty_object() -> JsonView {
    JsonView::Object(Map::<Seq<char>, JsonView>::empty())
}

/// The parameters of the greeting.
pub open spec fn greeting() -> JsonView {
    object3(
        "protocolVersion"@,
        JsonView::Str(PROTOCOL_VERSION@),
        "capabilities"@,
        empty_object(),
        "clientInfo"@,
        object2(
            "name"@,
            JsonView::Str(PACKAGE_NAME@),
            "version"@,
            JsonView::Str(PACKAGE_VERSION@),
        ),
    )
}

/// The parameters of the greeting.
pub fn make_greeting() -> (r: Json)
    ensures
        r@ == greeting(),
{
    make_object3(
        "protocolVersion",
        Json::text(PROTOCOL_VERSION),
        "capabilities",
        Json::object(JsonMap::new()),
        "clientInfo",
        make_object2("name", Json::text(PACKAGE_NAME), "version", Json::text(PACKAGE_VERSION)),
    )
}

/// The words for an error that the other side reports.
pub open spec fn failure_words(what: Seq<char>, e: RpcErrorView) -> Seq<char> {
    what + " failed: "@ + e.message + " (code "@ + (signed_decimal(e.code as int) + ")"@)
}

fn failure(what: &str, message: &str, code: i64) -> (r: DaimonError)
    ensures
        r@ == ErrorView::Mcp(
            what@ + " failed: "@ + message@ + " (code "@ + (signed_decimal(code as int) + ")"@),
        ),
{
    DaimonError::Mcp(
        cat5(what, " failed: ", message, " (code ", &cat2(&signed_decimal_text(code), ")")),
    )
}

/// Whether greeting the other side may end in this way.
pub open spec fn may_greet<T: McpTransport>(transport: T, r: Outcome<()>) -> bool {
    exists|answer: Result<JsonRpcResponse>|
        {
            &&& #[trigger] may_request(transport, "initialize"@, Some(greeting()), answer)
            &&& match answer {
                Err(e) => r == Err::<(), ErrorView>(e@),
                Ok(m) => match m@.error {
                    Some(e) => r == Err::<(), ErrorView>(
                        ErrorView::Mcp(failure_words("initialize"@, e)),
                    ),
                    None => exists|told: Result<()>| #[trigger]
                        may_notify(transport, "notifications/initialized"@, told) && r == outcome(
                            told,
                        ),
                },
            }
        }
}

/// Greets the other side, and tells it so once it has agreed.
pub fn greet<T: McpTransport>(transport: &T) -> (r: Result<()>)
    ensures
        may_greet(*transport, outcome(r)),
{
    let answer = ask(transport, "initialize", Some(make_greeting()));
    assert(may_request(*transport, "initialize"@, Some(greeting()), answer));
    match answer {
        Err(e) => Err(e),
        Ok(m) => {
            if let Some(e) = &m.error {
                return Err(failure("initialize", &e.message, e.code));
            }
            let told = tell(transport, "notifications/initialized");
            assert(may_notify(*transport, "notifications/initialized"@, told));
            told
        },
    }
}

// ---------------------------------------------------------------------
// Tools
// ---------------------------------------------------------------------

/// A page of tools, and where the next one starts if there is one.
pub struct PageView {
    pub tools: Seq<ToolInfoView>,
    pub next: Option<Seq<char>>,
}

/// A page of tools, and where the next one starts if there is one.
#[derive(Debug)]
pub struct ToolPage {
    pub tools: Vec<McpToolInfo>,
    pub next: Option<String>,
}

impl View for ToolPage {
    type V = PageView;

    open spec fn view(&self) -> PageView {
        PageView { tools: info_views(self.tools@), next: opt_text(self.next) }
    }
}

/// The page that an answer carries. An answer without one is an error, not an
/// empty page.
pub open spec fn page_of(answer: RpcView) -> Outcome<PageView> {
    match answer.error {
        Some(e) => Err(ErrorView::Mcp(failure_words("tools/list"@, e))),
        None => match answer.result {
            None => Err(ErrorView::Mcp("tools/list returned no result"@)),
            Some(v) => match v.field("tools"@) {
                None => Err(ErrorView::Mcp("tools/list result missing 'tools'"@)),
                Some(list) => match json_infos(list) {
                    None => Err(
                        ErrorView::Mcp("parse tools/list result: "@ + "not a list of tools"@),
                    ),
                    Some(tools) => Ok(
                        PageView {
                            tools,
                            next: match v.field("nextCursor"@) {
                                Some(JsonView::Str(c)) => Some(c),
                                _ => None,
                            },
                        },
                    ),
                },
            },
        },
    }
}

/// The page that an answer carries.
pub fn page_from_response(answer: &JsonRpcResponse) -> (r: Result<ToolPage>)
    ensures
        match r {
            Ok(page) => page_of(answer@) == Ok::<PageView, ErrorView>(page@),
            Err(e) => page_of(answer@) == Err::<PageView, ErrorView>(e@),
        },
{
    if let Some(e) = &answer.error {
        return Err(failure("tools/list", &e.message, e.code));
    }
    match &answer.result {
        None => Err(DaimonError::Mcp(owned("tools/list returned no result"))),
        Some(v) => match v.get("tools") {
            None => Err(DaimonError::Mcp(owned("tools/list result missing 'tools'"))),
            Some(list) => match read_infos(list) {
                None => Err(
                    DaimonError::Mcp(cat2("parse tools/list result: ", "not a list of tools")),
                ),
                Some(tools) => {
                    let next = match v.get("nextCursor") {
                        Some(Json::Str(c)) => Some(c.clone()),
                        _ => None,
                    };
                    Ok(ToolPage { tools, next })
                },
            },
        },
    }
}

/// The parameters that ask for a page.
pub open spec fn cursor_params(cursor: Option<Seq<char>>) -> Option<JsonView> {
    match cursor {
        Some(c) => Some(object1("cursor"@, JsonView::Str(c))),
        None => None,
    }
}

/// The parameters that ask for a page.
pub fn make_cursor_params(cursor: &Option<String>) -> (r: Option<Json>)
    ensures
        crate::mcp::protocol::opt_json(r) == cursor_params(opt_text(*cursor)),
{
    match cursor {
        Some(c) => Some(make_object1("cursor", Json::text(c))),
        None => None,
    }
}

/// The error after too many pages.
pub open spec fn pages_error() -> ErrorView {
    ErrorView::Mcp(
        "tools/list pagination exceeded "@ + decimal(MAX_TOOL_LIST_PAGES as nat) + " pages"@,
    )
}

/// Whether listing the tools may end in this way, with the pages that start at
/// a cursor still to read and some tools known already.
pub open spec fn may_list<T: McpTransport>(
    transport: T,
    cursor: Option<Seq<char>>,
    pages: nat,
    known: Seq<ToolInfoView>,
    r: Outcome<Seq<ToolInfoView>>,
) -> bool
    decreases pages,
{
    if pages == 0 {
        r == Err::<Seq<ToolInfoView>, ErrorView>(pages_error())
    } else {
        exists|answer: Result<JsonRpcResponse>|
            {
                &&& #[trigger] may_request(
                    transport,
                    "tools/list"@,
                    cursor_params(cursor),
                    answer,
                )
                &&& match answer {
                    Err(e) => r == Err::<Seq<ToolInfoView>, ErrorView>(e@),
                    Ok(m) => match page_of(m@) {
                        Err(e) => r == Err::<Seq<ToolInfoView>, ErrorView>(e),
                        Ok(page) => match page.next {
                            None => r == Ok::<Seq<ToolInfoView>, ErrorView>(known + page.tools),
                            Some(next) => may_list(
                                transport,
                                Some(next),
                                (pages - 1) as nat,
                                known + page.tools,
                                r,
                            ),
                        },
                    },
                }
            }
    }
}

/// The model of a list of tools, or of its error.
pub open spec fn infos_outcome(r: Result<Vec<McpToolInfo>>) -> Outcome<Seq<ToolInfoView>> {
    match r {
        Ok(tools) => Ok(info_views(tools@)),
        Err(e) => Err(e@),
    }
}

/// All tools of the other side, page by page until it names no next one.
pub fn list_tools<T: McpTransport>(transport: &T) -> (r: Result<Vec<McpToolInfo>>)
    ensures
        may_list(
            *transport,
            None,
            MAX_TOOL_LIST_PAGES as nat,
            Seq::empty(),
            infos_outcome(r),
        ),
{
    let mut tools: Vec<McpToolInfo> = Vec::new();
    let mut cursor: Option<String> = None;
    let mut left: usize = MAX_TOOL_LIST_PAGES;
    assert(info_views(tools@) =~= Seq::<ToolInfoView>::empty());
    while left > 0
        invariant
            left <= MAX_TOOL_LIST_PAGES,
            forall|o: Outcome<Seq<ToolInfoView>>| #[trigger]
                may_list(
                    *transport,
                    opt_text(cursor),
                    left as nat,
                    info_views(tools@),
                    o,
                ) ==> may_list(
                    *transport,
                    None,
                    MAX_TOOL_LIST_PAGES as nat,
                    Seq::empty(),
                    o,
                ),
        decreases left,
    {
        let ghost at = opt_text(cursor);
        let ghost known = info_views(tools@);
        let answer = ask(transport, "tools/list", make_cursor_params(&cursor));
        assert(may_request(*transport, "tools/list"@, cursor_params(at), answer));
        match answer {
            Err(e) => {
                let ghost o = Err::<Seq<ToolInfoView>, ErrorView>(e@);
                assert(may_list(*transport, at, left as nat, known, o));
                return Err(e);
            },
            Ok(m) => match page_from_response(&m) {
                Err(e) => {
                    let ghost o = Err::<Seq<ToolInfoView>, ErrorView>(e@);
                    assert(may_list(*transport, at, left as nat, known, o));
                    return Err(e);
                },
                Ok(page) => {
                    let ghost seen = page@;
                    let ToolPage { tools: listed, next } = page;
                    let mut listed = listed;
                    let ghost before = tools@;
                    let ghost more = listed@;
                    tools.append(&mut listed);
                    assert(info_views(tools@) =~= known + seen.tools);
                    match next {
                        None => {
                            let ghost o = Ok::<Seq<ToolInfoView>, ErrorView>(known + seen.tools);
                            assert(may_list(*transport, at, left as nat, known, o));
                            return Ok(tools);
                        },
                        Some(c) => {
                            cursor = Some(c);
                            proof {
                                assert forall|o: Outcome<Seq<ToolInfoView>>| #[trigger]
                                    may_list(
                                        *transport,
                                        opt_text(cursor),
                                        (left - 1) as nat,
                                        info_views(tools@),
                                        o,
                                    ) implies may_list(
                                    *transport,
                                    None,
                                    MAX_TOOL_LIST_PAGES as nat,
                                    Seq::empty(),
                                    o,
                                ) by {
                                    assert(may_list(*transport, at, left as nat, known, o));
                                }
                            }
                        },
                    }
                },
            },
        }
        left = left - 1;
    }
    let ghost o = Err::<Seq<ToolInfoView>, ErrorView>(pages_error());
    assert(may_list(*transport, opt_text(cursor), 0, info_views(tools@), o));
    Err(
        DaimonError::Mcp(
            cat3(
                "tools/list pagination exceeded ",
                &decimal_text(MAX_TOOL_LIST_PAGES as u64),
                " pages",
            ),
        ),
    )
}

// ---------------------------------------------------------------------
// Calls
// ---------------------------------------------------------------------

/// What calling a tool comes to, by the answer to the call.
pub open spec fn called(name: Seq<char>, answer: RpcView) -> Outcome<Seq<char>> {
    match answer.error {
        Some(e) => Err(ErrorView::Mcp(failure_words("tools/call '"@ + name + "'"@, e))),
        None => match answer.result {
            None => Err(ErrorView::Mcp("tools/call '"@ + name + "' returned no result"@)),
            Some(v) => match json_call_result(v) {
                None => Err(ErrorView::Mcp("parse tools/call result: "@ + "not a tool result"@)),
                Some(result) => if result.is_error {
                    Err(
                        ErrorView::Mcp(
                            "MCP tool '"@ + name + "' returned error: "@ + result_text(
                                result.content,
                            ),
                        ),
                    )
                } else {
                    Ok(result_text(result.content))
                },
            },
        },
    }
}

/// The model of a text, or of its error.
pub open spec fn text_outcome(r: Result<String>) -> Outcome<Seq<char>> {
    match r {
        Ok(s) => Ok(s@),
        Err(e) => Err(e@),
    }
}

/// What calling a tool comes to, by the answer to the call.
pub fn text_from_response(name: &str, answer: &JsonRpcResponse) -> (r: Result<String>)
    ensures
        text_outcome(r) == called(name@, answer@),
{
    if let Some(e) = &answer.error {
        return Err(failure(&cat3("tools/call '", name, "'"), &e.message, e.code));
    }
    match &answer.result {
        None => Err(DaimonError::Mcp(cat3("tools/call '", name, "' returned no result"))),
        Some(v) => match read_call_result(v) {
            None => Err(DaimonError::Mcp(cat2("parse tools/call result: ", "not a tool result"))),
            Some(result) => {
                let text = extract_text(&result.content);
                if result.is_error {
                    Err(
                        DaimonError::Mcp(
                            cat2(&cat3("MCP tool '", name, "' returned error: "), &text),
                        ),
                    )
                } else {
                    Ok(text)
                }
            },
        },
    }
}

/// A client that has greeted the other side and knows its tools.
pub struct McpClient<T> {
    pub transport: Arc<T>,
    pub tools: Vec<McpToolInfo>,
}

impl<T: McpTransport> McpClient<T> {
    /// Greets the other side and learns its tools.
    pub fn connect(transport: T) -> (r: Result<Self>)
        ensures
            exists|greeted: Outcome<()>| #[trigger]
                may_greet(transport, greeted) && match greeted {
                    Err(e) => r is Err && r->Err_0@ == e,
                    Ok(_) => {
                        &&& may_list(
                            transport,
                            None,
                            MAX_TOOL_LIST_PAGES as nat,
                            Seq::empty(),
                            match r {
                                Ok(client) => Ok(info_views(client.tools@)),
                                Err(e) => Err(e@),
                            },
                        )
                        &&& r is Ok ==> *r->Ok_0.transport == transport
                    },
                },
    {
        let greeted = greet(&transport);
        assert(may_greet(transport, outcome(greeted)));
        match greeted {
            Err(e) => Err(e),
            Ok(_) => match list_tools(&transport) {
                Err(e) => Err(e),
                Ok(tools) => Ok(McpClient { transport: Arc::new(transport), tools }),
            },
        }
    }

    /// The tools of the other side.
    pub fn tool_infos(&self) -> (r: &Vec<McpToolInfo>)
        ensures
            *r == self.tools,
    {
        &self.tools
    }

    /// The tools of the other side as tools of this side, in order.
    pub fn tools(&self) -> (r: Vec<McpToolBridge<T>>)
        ensures
            r@.len() == self.tools@.len(),
            forall|i: int|
                0 <= i < r@.len() ==> (#[trigger] r@[i]).info@ == self.tools@[i]@
                    && r@[i].transport == self.transport,
    {
        let mut bridges: Vec<McpToolBridge<T>> = Vec::new();
        let mut i: usize = 0;
        while i < self.tools.len()
            invariant
                i <= self.tools@.len(),
                bridges@.len() == i,
                forall|j: int|
                    0 <= j < i ==> (#[trigger] bridges@[j]).info@ == self.tools@[j]@
                        && bridges@[j].transport == self.transport,
            decreases self.tools@.len() - i,
        {
            bridges.push(McpToolBridge::new(self.transport.clone(), self.tools[i].clone()));
            i += 1;
        }
        bridges
    }

    /// Calls a tool and hands back its text.
    pub fn call_tool(&self, name: &str, arguments: &Json) -> (r: Result<String>)
        ensures
            exists|answer: Result<JsonRpcResponse>|
                {
                    &&& #[trigger] may_request(
                        *self.transport,
                        "tools/call"@,
                        Some(call_params(name@, arguments@)),
                        answer,
                    )
                    &&& match answer {
                        Ok(m) => text_outcome(r) == called(name@, m@),
                        Err(e) => text_outcome(r) == Err::<Seq<char>, ErrorView>(e@),
                    }
                },
    {
        let answer = ask(&*self.transport, "tools/call", Some(make_call_params(name, arguments)));
        assert(may_request(
            *self.transport,
            "tools/call"@,
            Some(call_params(name@, arguments@)),
            answer,
        ));
        match answer {
            Ok(m) => text_from_response(name, &m),
            Err(e) => Err(e),
        }
    }

    /// Gives the way to the other side up.
    pub fn close(&self) -> (r: Result<()>)
        ensures
            call_ensures(T::close, (&*self.transport,), r),
    {
        self.transport.close()
    }
}

/// A call through a client and one through a tool of this side come to the same:
/// a text, where one gives it, is the text of the other, and what a client
/// reports as a failure of the tool is output that says so.
pub proof fn bridge_agrees_with_client(name: Seq<char>, answer: RpcView)
    ensures
        called(name, answer) matches Ok(text) ==> bridged(answer) == Ok::<OutputView, ErrorView>(
            OutputView { content: text, is_error: false },
        ),
        bridged(answer) matches Ok(o) ==> (o.is_error <==> called(name, answer) is Err),
        bridged(answer) is Err ==> called(name, answer) is Err,
{
}

} // verus!
