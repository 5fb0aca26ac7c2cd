//! A server whose messages come over WebSocket connections.

use crate::error::{DaimonError, ErrorView, Result};
use crate::json::{json_text, Json, JsonView};
use crate::mcp::client::{PACKAGE_NAME, PACKAGE_VERSION};
use crate::mcp::server::{make_response, may_reply, response_json, McpServer};
use crate::text::cat2;
use crate::tool::ToolRegistry;
use vstd::prelude::*;

verus! {

/// The code for a failure of the server.
pub const INTERNAL_ERROR: i64 = -32603;

/// A server whose messages come over WebSocket connections.
pub struct McpWsServer {
    pub inner: McpServer,
}

/// What comes in over a connection.
#[derive(Debug)]
pub enum ServerFrame {
    /// A text frame.
    Text(String),
    /// A binary frame: its text, or why it is none.
    Binary(std::result::Result<String, String>),
    /// The other side closes the connection, or reading failed.
    Close,
    /// A frame of another kind.
    Other,
}

/// What to do with what came in.
#[derive(Debug)]
pub enum ServerAction {
    /// Send a text.
    Send(String),
    /// Read on.
    Skip,
    /// The connection is done.
    Stop,
}

/// What is sent back for words that no answer could be made of.
pub open spec fn internal_error(words: Seq<char>) -> JsonView {
    response_json(JsonView::Null, Err((INTERNAL_ERROR, words)))
}

/// Whether a text may be answered in this way over a connection.
pub open spec fn may_answer_text(server: McpServer, body: Seq<char>, text: Seq<char>) -> bool {
    exists|r: std::result::Result<Seq<char>, Seq<char>>| #[trigger]
        may_reply(server, body, r) && match r {
            Ok(t) => text == t,
            Err(e) => text == json_text(internal_error(e)),
        }
}

impl McpWsServer {
    /// A server for the tools of a registry.
    pub fn new(tools: ToolRegistry) -> (r: Self)
        ensures
            r.inner.tools == tools,
            r.inner.server_name@ == PACKAGE_NAME@,
            r.inner.server_version@ == PACKAGE_VERSION@,
    {
        McpWsServer { inner: McpServer::new(tools) }
    }

    /// A server that answers as another one does.
    pub fn from_server(server: McpServer) -> (r: Self)
        ensures
            r.inner == server,
    {
        McpWsServer { inner: server }
    }

    fn answer(&self, body: &str) -> (r: String)
        ensures
            may_answer_text(self.inner, body@, r@),
    {
        match self.inner.handle_request_raw(body) {
            Ok(text) => {
                assert(may_reply(self.inner, body@, Ok(text@)));
                text
            },
            Err(e) => {
                assert(may_reply(self.inner, body@, Err(e@)));
                make_response(Json::Null, Err((INTERNAL_ERROR, e))).to_text()
            },
        }
    }

    /// What to do with what came in. A binary frame that holds no text ends the
    /// connection with an error.
    pub fn handle_frame(&self, frame: ServerFrame) -> (r: Result<ServerAction>)
        ensures
            match frame {
                ServerFrame::Text(body) => r matches Ok(ServerAction::Send(text))
                    && may_answer_text(self.inner, body@, text@),
                ServerFrame::Binary(Ok(body)) => r matches Ok(ServerAction::Send(text))
                    && may_answer_text(self.inner, body@, text@),
                ServerFrame::Binary(Err(e)) => r is Err && r->Err_0@ == ErrorView::Mcp(
                    "invalid utf-8: "@ + e@,
                ),
                ServerFrame::Close => r matches Ok(ServerAction::Stop),
                ServerFrame::Other => r matches Ok(ServerAction::Skip),
            },
    {
        match frame {
            ServerFrame::Text(body) => Ok(ServerAction::Send(self.answer(&body))),
            ServerFrame::Binary(Ok(body)) => Ok(ServerAction::Send(self.answer(&body))),
            ServerFrame::Binary(Err(e)) => Err(DaimonError::Mcp(cat2("invalid utf-8: ", &e))),
            ServerFrame::Close => Ok(ServerAction::Stop),
            ServerFrame::Other => Ok(ServerAction::Skip),
        }
    }
}

} // verus!
