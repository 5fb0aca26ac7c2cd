use daimon::error::{DaimonError, Result};
use daimon::json::Json;
use daimon::middleware::{share, Middleware, MiddlewareAction, MiddlewareStack, SharedMiddleware};
use daimon::model::types::{ChatRequest, ChatResponse, Message, StopReason, Usage};
use daimon::tool::ToolCall;
use std::cell::RefCell;
use std::rc::Rc;

struct AppendSystemMiddleware {
    text: &'static str,
}

impl Middleware for AppendSystemMiddleware {
    fn on_request(&self, request: &mut ChatRequest) -> Result<MiddlewareAction> {
        request.messages.push(Message::system(self.text));
        Ok(MiddlewareAction::Continue)
    }
}

struct ShortCircuitMiddleware;

impl Middleware for ShortCircuitMiddleware {
    fn on_response(&self, _response: &mut ChatResponse) -> Result<MiddlewareAction> {
        Ok(MiddlewareAction::ShortCircuit(ChatResponse {
            message: Message::assistant("short-circuited"),
            stop_reason: StopReason::EndTurn,
            usage: Some(Usage::default()),
        }))
    }
}

struct Counting {
    calls: Rc<RefCell<usize>>,
    fail: bool,
}

impl Middleware for Counting {
    fn on_response(&self, response: &mut ChatResponse) -> Result<MiddlewareAction> {
        *self.calls.borrow_mut() += 1;
        if self.fail {
            return Err(DaimonError::Other("refused".to_string()));
        }
        response.message = Message::assistant("seen");
        Ok(MiddlewareAction::Continue)
    }

    fn on_tool_call(&self, call: &mut ToolCall) -> Result<MiddlewareAction> {
        *self.calls.borrow_mut() += 1;
        call.name = format!("{}+", call.name);
        Ok(MiddlewareAction::Continue)
    }
}

fn answer(text: &str) -> ChatResponse {
    ChatResponse {
        message: Message::assistant(text),
        stop_reason: StopReason::EndTurn,
        usage: None,
    }
}

#[test]
fn test_empty_stack_continues() {
    let stack = MiddlewareStack::new();
    assert!(stack.is_empty());
    assert!(MiddlewareStack::default().is_empty());
    let mut req = ChatRequest::new(vec![Message::user("hi")]);
    let action = stack.run_on_request(&mut req).unwrap();
    assert!(matches!(action, MiddlewareAction::Continue));
    assert_eq!(req.messages.len(), 1);
}

#[test]
fn test_middleware_mutates_request() {
    let mut stack = MiddlewareStack::new();
    stack.push(AppendSystemMiddleware { text: "injected by middleware" });
    assert!(!stack.is_empty());

    let mut req = ChatRequest::new(vec![Message::user("hi")]);
    assert_eq!(req.messages.len(), 1);

    stack.run_on_request(&mut req).unwrap();
    assert_eq!(req.messages.len(), 2);
    assert_eq!(req.messages[1].content.as_deref(), Some("injected by middleware"));
}

#[test]
fn test_short_circuit_stops_pipeline() {
    let mut stack = MiddlewareStack::new();
    stack.push(ShortCircuitMiddleware);

    let mut resp = answer("original");
    let action = stack.run_on_response(&mut resp).unwrap();
    match action {
        MiddlewareAction::ShortCircuit(r) => {
            assert_eq!(r.message.content.as_deref(), Some("short-circuited"));
        }
        _ => panic!("expected short-circuit"),
    }
}

#[test]
fn test_multiple_middleware_ordered() {
    let mut stack = MiddlewareStack::new();
    stack.push(AppendSystemMiddleware { text: "first" });
    stack.push(AppendSystemMiddleware { text: "second" });

    let mut req = ChatRequest::new(vec![]);
    stack.run_on_request(&mut req).unwrap();
    assert_eq!(req.messages.len(), 2);
    assert_eq!(req.messages[0].content.as_deref(), Some("first"));
    assert_eq!(req.messages[1].content.as_deref(), Some("second"));
}

#[test]
fn layers_behind_a_short_circuit_do_not_run() {
    let calls = Rc::new(RefCell::new(0));
    let mut stack = MiddlewareStack::new();
    stack.push(Counting { calls: calls.clone(), fail: false });
    stack.push(ShortCircuitMiddleware);
    stack.push(Counting { calls: calls.clone(), fail: false });
    let mut resp = answer("original");
    let action = stack.run_on_response(&mut resp).unwrap();
    assert!(matches!(action, MiddlewareAction::ShortCircuit(_)));
    assert_eq!(*calls.borrow(), 1);
    assert_eq!(resp.text(), "seen");
}

#[test]
fn layers_behind_an_error_do_not_run() {
    let calls = Rc::new(RefCell::new(0));
    let mut stack = MiddlewareStack::new();
    stack.push(Counting { calls: calls.clone(), fail: true });
    stack.push(Counting { calls: calls.clone(), fail: false });
    let mut resp = answer("original");
    let r = stack.run_on_response(&mut resp);
    assert!(matches!(r, Err(DaimonError::Other(m)) if m == "refused"));
    assert_eq!(*calls.borrow(), 1);
    assert_eq!(resp.text(), "original");
}

#[test]
fn tool_calls_pass_every_layer() {
    let calls = Rc::new(RefCell::new(0));
    let mut stack = MiddlewareStack::new();
    stack.push(Counting { calls: calls.clone(), fail: false });
    stack.push(AppendSystemMiddleware { text: "unused" });
    let shared: SharedMiddleware = share(Counting { calls: calls.clone(), fail: false });
    stack.push_shared(shared.clone());
    let mut call = ToolCall {
        id: "call_1".to_string(),
        name: "search".to_string(),
        arguments: Json::parse("{}").unwrap(),
    };
    let action = stack.run_on_tool_call(&mut call).unwrap();
    assert!(matches!(action, MiddlewareAction::Continue));
    assert_eq!(call.name, "search++");
    assert_eq!(*calls.borrow(), 2);
    // Another stack that holds the shared layer calls the same one.
    let mut other = MiddlewareStack::new();
    assert!(other.is_empty());
    other.push_shared(shared);
    assert!(!other.is_empty());
    let copy = other.clone();
    other.run_on_tool_call(&mut call).unwrap();
    copy.run_on_tool_call(&mut call).unwrap();
    assert_eq!(*calls.borrow(), 4);
    assert_eq!(call.name, "search++++");
}

struct Stopping;

impl Middleware for Stopping {
    fn on_request(&self, _request: &mut ChatRequest) -> Result<MiddlewareAction> {
        Ok(MiddlewareAction::ShortCircuit(answer("stopped")))
    }

    fn on_tool_call(&self, _call: &mut ToolCall) -> Result<MiddlewareAction> {
        Ok(MiddlewareAction::ShortCircuit(answer("stopped")))
    }
}

#[test]
fn short_circuits_settle_requests_and_tool_calls() {
    let calls = Rc::new(RefCell::new(0));
    let mut stack = MiddlewareStack::new();
    stack.push(AppendSystemMiddleware { text: "before" });
    stack.push(Counting { calls: calls.clone(), fail: false });
    stack.push(Stopping);
    stack.push(Counting { calls: calls.clone(), fail: false });
    stack.push(AppendSystemMiddleware { text: "behind" });
    let mut request = ChatRequest::new(vec![Message::user("hi")]);
    let action = stack.run_on_request(&mut request).unwrap();
    assert!(matches!(action, MiddlewareAction::ShortCircuit(r) if r.text() == "stopped"));
    assert_eq!(request.messages.len(), 2);
    assert_eq!(request.messages[1].content.as_deref(), Some("before"));
    let mut call = ToolCall {
        id: "call_1".to_string(),
        name: "search".to_string(),
        arguments: Json::parse("{}").unwrap(),
    };
    let action = stack.run_on_tool_call(&mut call).unwrap();
    assert!(matches!(action, MiddlewareAction::ShortCircuit(r) if r.text() == "stopped"));
    assert_eq!(call.name, "search+");
    assert_eq!(*calls.borrow(), 1);
}
