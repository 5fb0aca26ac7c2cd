use daimon::agent::{Agent, AgentResponse};
use daimon::error::{DaimonError, Result};
use daimon::json::Json;
use daimon::orchestration::chain::{Chain, ChainContext, ChainStep};
use daimon::orchestration::dag;
use daimon::orchestration::dag::{AgentDagNode, Dag, DagContext, DagNode, FnDagNode};
use daimon::orchestration::graph::{
    AgentNode, FnNode, Graph, GraphContext, GraphNode, NodeOutcome,
};
use daimon::orchestration::toposort::topological_levels;
use daimon::orchestration::workflow;
use daimon::orchestration::workflow::{AgentWorkflowNode, FnWorkflowNode, Workflow};

fn json(text: &str) -> Json {
    Json::parse(text).unwrap()
}

fn int_of(v: Option<&Json>) -> u64 {
    v.and_then(|v| v.as_u64()).unwrap_or(0)
}

fn words_of(e: DaimonError) -> String {
    e.message()
}

struct Shout;

impl Agent for Shout {
    fn prompt(&self, input: &str) -> Result<AgentResponse> {
        if input == "quiet" {
            return Err(DaimonError::Other("asked to be quiet".to_string()));
        }
        Ok(AgentResponse { final_text: input.to_uppercase(), iterations: 2 })
    }
}

// Levels

#[test]
fn test_levels_respect_dependencies() {
    // a -> b -> c, a -> c
    let edges = vec![(0, 1), (1, 2), (0, 2)];
    let levels = topological_levels(3, &edges, "cycle").unwrap();
    assert_eq!(levels[0], vec![0]);
    assert_eq!(levels.last().unwrap(), &vec![2]);
}

#[test]
fn test_cycle_detected() {
    let edges = vec![(0, 1), (1, 0)];
    let err = topological_levels(2, &edges, "boom").unwrap_err();
    assert!(matches!(err, DaimonError::Orchestration(m) if m == "boom"));
}

#[test]
fn levels_hold_every_node_once() {
    let levels = topological_levels(5, &vec![(3, 0), (3, 1), (0, 2), (1, 2), (0, 2)], "c").unwrap();
    assert_eq!(levels, vec![vec![3, 4], vec![0, 1], vec![2]]);
    assert!(topological_levels(1, &vec![(0, 0)], "loop").is_err());
    assert!(topological_levels(0, &vec![], "none").unwrap().is_empty());
}

// Chains

struct UppercaseStep;

impl ChainStep for UppercaseStep {
    fn process(&self, ctx: ChainContext) -> Result<ChainContext> {
        let mut ctx = ctx;
        ctx.text = ctx.text.to_uppercase();
        Ok(ctx)
    }
}

struct AppendStep {
    suffix: String,
}

impl ChainStep for AppendStep {
    fn process(&self, ctx: ChainContext) -> Result<ChainContext> {
        let mut ctx = ctx;
        ctx.text.push_str(&self.suffix);
        Ok(ctx)
    }
}

struct FailStep;

impl ChainStep for FailStep {
    fn process(&self, _ctx: ChainContext) -> Result<ChainContext> {
        Err(DaimonError::Other("step failed".to_string()))
    }
}

#[test]
fn test_chain_single_step() {
    let chain = Chain::builder().step(UppercaseStep).build().unwrap();
    let result = chain.run("hello").unwrap();
    assert_eq!(result.text, "HELLO");
}

#[test]
fn test_chain_multiple_steps() {
    let chain = Chain::builder()
        .step(UppercaseStep)
        .step(AppendStep { suffix: "!".to_string() })
        .build()
        .unwrap();
    let result = chain.run("hello").unwrap();
    assert_eq!(result.text, "HELLO!");
}

#[test]
fn test_chain_transform() {
    let chain = Chain::builder()
        .transform(|mut ctx: ChainContext| {
            ctx.text = format!("[{}]", ctx.text);
            Ok(ctx)
        })
        .build()
        .unwrap();
    let result = chain.run("test").unwrap();
    assert_eq!(result.text, "[test]");
}

#[test]
fn test_chain_metadata_propagation() {
    let chain = Chain::builder()
        .transform(|ctx: ChainContext| Ok(ctx.with_metadata("step1", json("true"))))
        .transform(|ctx: ChainContext| {
            assert_eq!(ctx.metadata.get("step1"), Some(&json("true")));
            Ok(ctx)
        })
        .build()
        .unwrap();
    chain.run("test").unwrap();
}

#[test]
fn test_chain_empty_fails() {
    let result = Chain::builder().build();
    assert_eq!(words_of(result.err().unwrap()), words_of(DaimonError::Orchestration(
        "chain must have at least one step".to_string(),
    )));
}

#[test]
fn test_chain_with_name() {
    let chain = Chain::builder().name("my_chain").step(UppercaseStep).build().unwrap();
    assert_eq!(chain.len(), 1);
    assert!(!chain.is_empty());
}

#[test]
fn test_chain_run_with_context() {
    let chain = Chain::builder().step(UppercaseStep).build().unwrap();
    let ctx = ChainContext::new("hello").with_metadata("key", json("\"val\""));
    let result = chain.run_with_context(ctx).unwrap();
    assert_eq!(result.text, "HELLO");
    assert_eq!(result.metadata.get("key"), Some(&json("\"val\"")));
}

#[test]
fn two_chains_are_one() {
    let one = Chain::builder().step(UppercaseStep).build().unwrap();
    let two = Chain::builder().step(AppendStep { suffix: "!".to_string() }).build().unwrap();
    let whole = Chain::builder()
        .step(UppercaseStep)
        .step(AppendStep { suffix: "!".to_string() })
        .build()
        .unwrap();
    let after = two.run_with_context(one.run("hello").unwrap()).unwrap();
    assert_eq!(after.text, whole.run("hello").unwrap().text);
}

#[test]
fn test_chain_error_propagation() {
    let chain = Chain::builder()
        .step(UppercaseStep)
        .step(FailStep)
        .transform(|_ctx: ChainContext| -> Result<ChainContext> { panic!("should never execute") })
        .build()
        .unwrap();
    let result = chain.run("hello");
    assert!(matches!(result, Err(DaimonError::Other(m)) if m == "step failed"));
}

#[test]
fn agents_are_steps() {
    let chain = Chain::builder().agent(Shout).build().unwrap();
    let result = chain.run("loud").unwrap();
    assert_eq!(result.text, "LOUD");
    assert_eq!(int_of(result.metadata.get("iterations")), 2);
    assert!(matches!(chain.run("quiet"), Err(DaimonError::Other(m)) if m == "asked to be quiet"));
}

// DAGs

struct SetNode {
    key: String,
    value: Json,
}

impl DagNode for SetNode {
    fn process(&self, ctx: &mut DagContext) -> Result<()> {
        ctx.set(&self.key, self.value.duplicate());
        Ok(())
    }
}

fn set_node(key: &str, value: &str) -> SetNode {
    SetNode { key: key.to_string(), value: json(value) }
}

#[test]
fn test_linear_dag() {
    let d = Dag::builder()
        .node("a", set_node("x", "1"))
        .node("b", set_node("y", "2"))
        .edge(dag::START, "a")
        .edge("a", "b")
        .edge("b", dag::END)
        .build()
        .unwrap();
    let result = d.run(DagContext::new()).unwrap();
    assert_eq!(result.get("x"), Some(&json("1")));
    assert_eq!(result.get("y"), Some(&json("2")));
}

#[test]
fn test_fan_out_fan_in() {
    let d = Dag::builder()
        .node("a", set_node("from_a", "\"A\""))
        .node("b", set_node("from_b", "\"B\""))
        .node("c", set_node("from_c", "\"C\""))
        .node(
            "merge",
            FnDagNode::new(|mut ctx: DagContext| {
                let a = ctx.get_str("from_a").unwrap_or("").to_string();
                let b = ctx.get_str("from_b").unwrap_or("").to_string();
                let c = ctx.get_str("from_c").unwrap_or("").to_string();
                ctx.set("merged", Json::text(&format!("{a}+{b}+{c}")));
                Ok(ctx)
            }),
        )
        .edge(dag::START, "a")
        .edge(dag::START, "b")
        .edge(dag::START, "c")
        .edge("a", "merge")
        .edge("b", "merge")
        .edge("c", "merge")
        .edge("merge", dag::END)
        .build()
        .unwrap();
    let result = d.run(DagContext::new()).unwrap();
    assert_eq!(result.get("from_a"), Some(&json("\"A\"")));
    assert_eq!(result.get("from_b"), Some(&json("\"B\"")));
    assert_eq!(result.get("from_c"), Some(&json("\"C\"")));
    let merged = result.get_str("merged").unwrap();
    assert!(merged.contains('A'));
    assert!(merged.contains('B'));
    assert!(merged.contains('C'));
}

#[test]
fn test_diamond_dag() {
    let d = Dag::builder()
        .node("left", set_node("left", "10"))
        .node("right", set_node("right", "20"))
        .node(
            "join",
            FnDagNode::new(|mut ctx: DagContext| {
                let l = int_of(ctx.get("left"));
                let r = int_of(ctx.get("right"));
                ctx.set("sum", Json::uint(l + r));
                Ok(ctx)
            }),
        )
        .edge(dag::START, "left")
        .edge(dag::START, "right")
        .edge("left", "join")
        .edge("right", "join")
        .edge("join", dag::END)
        .build()
        .unwrap();
    let result = d.run(DagContext::new()).unwrap();
    assert_eq!(result.get("sum"), Some(&json("30")));
}

#[test]
fn test_branch_single_select() {
    let d = Dag::builder()
        .node(
            "router",
            FnDagNode::new(|mut ctx: DagContext| {
                let input = ctx.get_str("input").unwrap_or("").to_string();
                ctx.set("routed", Json::text(&input));
                Ok(ctx)
            }),
        )
        .node("path_a", set_node("path", "\"A\""))
        .node("path_b", set_node("path", "\"B\""))
        .edge(dag::START, "router")
        .edge("router", "path_a")
        .edge("router", "path_b")
        .edge("path_a", dag::END)
        .edge("path_b", dag::END)
        .branch("router", |ctx: &DagContext| {
            let choice = ctx.get_str("input").unwrap_or("a");
            if choice == "b" {
                Ok("path_b".to_string())
            } else {
                Ok("path_a".to_string())
            }
        })
        .build()
        .unwrap();
    let result = d.run(DagContext::new().with_input("a")).unwrap();
    assert_eq!(result.get("path"), Some(&json("\"A\"")));
    let result = d.run(DagContext::new().with_input("b")).unwrap();
    assert_eq!(result.get("path"), Some(&json("\"B\"")));
}

#[test]
fn test_branch_skip_propagation() {
    let d = Dag::builder()
        .node("gate", set_node("gate", "true"))
        .node("skipped_a", set_node("a_ran", "true"))
        .node("active_b", set_node("b_ran", "true"))
        .node("only_after_a", set_node("after_a_ran", "true"))
        .edge(dag::START, "gate")
        .edge("gate", "skipped_a")
        .edge("gate", "active_b")
        .edge("skipped_a", "only_after_a")
        .edge("only_after_a", dag::END)
        .edge("active_b", dag::END)
        .branch("gate", |_ctx: &DagContext| Ok("active_b".to_string()))
        .build()
        .unwrap();
    let result = d.run(DagContext::new()).unwrap();
    assert_eq!(result.get("b_ran"), Some(&json("true")));
    assert!(result.get("a_ran").is_none(), "skipped_a should not have run");
    assert!(
        result.get("after_a_ran").is_none(),
        "only_after_a should be skipped because its only predecessor was skipped"
    );
}

#[test]
fn dag_test_cycle_detection() {
    let result = Dag::builder()
        .node("a", set_node("x", "1"))
        .node("b", set_node("y", "2"))
        .edge(dag::START, "a")
        .edge("a", "b")
        .edge("b", "a")
        .edge("b", dag::END)
        .build();
    let err = words_of(result.err().unwrap());
    assert!(err.contains("cycle"), "expected cycle error, got: {err}");
}

#[test]
fn dag_test_no_edges_fails() {
    let result = Dag::builder().node("a", set_node("x", "1")).build();
    assert!(result.is_err());
}

#[test]
fn test_unknown_node_in_edge() {
    let result = Dag::builder()
        .node("a", set_node("x", "1"))
        .edge(dag::START, "nonexistent")
        .edge("nonexistent", dag::END)
        .build();
    assert!(result.is_err());
}

#[test]
fn test_no_start_edges() {
    let result = Dag::builder().node("a", set_node("x", "1")).edge("a", dag::END).build();
    assert!(result.is_err());
}

#[test]
fn test_no_end_edges() {
    let result = Dag::builder().node("a", set_node("x", "1")).edge(dag::START, "a").build();
    assert!(result.is_err());
}

#[test]
fn test_context_with_input() {
    let d = Dag::builder()
        .node(
            "echo",
            FnDagNode::new(|mut ctx: DagContext| {
                let input = ctx.get_str("input").unwrap_or("").to_string();
                ctx.set("output", Json::text(&format!("echo: {input}")));
                Ok(ctx)
            }),
        )
        .edge(dag::START, "echo")
        .edge("echo", dag::END)
        .build()
        .unwrap();
    let result = d.run(DagContext::new().with_input("hello")).unwrap();
    assert_eq!(result.get_str("output"), Some("echo: hello"));
}

#[test]
fn test_deep_pipeline() {
    let next = |mut ctx: DagContext| {
        let prev = int_of(ctx.get("step"));
        ctx.set("step", Json::uint(prev + 1));
        Ok(ctx)
    };
    let d = Dag::builder()
        .node("s1", set_node("step", "1"))
        .node("s2", FnDagNode::new(next))
        .node("s3", FnDagNode::new(next))
        .edge(dag::START, "s1")
        .edge("s1", "s2")
        .edge("s2", "s3")
        .edge("s3", dag::END)
        .build()
        .unwrap();
    let result = d.run(DagContext::new()).unwrap();
    assert_eq!(result.get("step"), Some(&json("3")));
}

#[test]
fn test_multi_branch() {
    let d = Dag::builder()
        .node("gate", set_node("gate", "true"))
        .node("a", set_node("a_ran", "true"))
        .node("b", set_node("b_ran", "true"))
        .node("c", set_node("c_ran", "true"))
        .edge(dag::START, "gate")
        .edge("gate", "a")
        .edge("gate", "b")
        .edge("gate", "c")
        .edge("a", dag::END)
        .edge("b", dag::END)
        .edge("c", dag::END)
        .multi_branch("gate", |_ctx: &DagContext| Ok(vec!["a".to_string(), "c".to_string()]))
        .build()
        .unwrap();
    let result = d.run(DagContext::new()).unwrap();
    assert_eq!(result.get("a_ran"), Some(&json("true")));
    assert!(result.get("b_ran").is_none(), "b should be skipped");
    assert_eq!(result.get("c_ran"), Some(&json("true")));
}

#[test]
fn parallel_nodes_keep_what_the_others_wrote() {
    let d = Dag::builder()
        .node("a", set_node("x", "1"))
        .node("b", set_node("y", "2"))
        .edge(dag::START, "a")
        .edge(dag::START, "b")
        .edge("a", dag::END)
        .edge("b", dag::END)
        .build()
        .unwrap();
    let mut ctx = DagContext::new();
    ctx.set("x", json("0"));
    ctx.set("y", json("0"));
    let result = d.run(ctx).unwrap();
    assert_eq!(result.get("x"), Some(&json("1")));
    assert_eq!(result.get("y"), Some(&json("2")));
}

#[test]
fn agents_are_dag_nodes() {
    let d = Dag::builder()
        .node("shout", AgentDagNode::new(Shout, "input", "said"))
        .edge(dag::START, "shout")
        .edge("shout", dag::END)
        .build()
        .unwrap();
    let result = d.run(DagContext::new().with_input("loud")).unwrap();
    assert_eq!(result.get_str("said"), Some("LOUD"));
    assert!(d.run(DagContext::new().with_input("quiet")).is_err());
}

#[test]
fn a_branch_that_reaches_no_end_fails() {
    let build = |name: &'static str| {
        Dag::builder()
            .node("gate", set_node("gate", "true"))
            .edge(dag::START, "gate")
            .edge("gate", dag::END)
            .branch("gate", move |_ctx: &DagContext| Ok(name.to_string()))
            .build()
            .unwrap()
    };
    assert!(build(dag::END).run(DagContext::new()).is_ok());
    assert!(build("elsewhere").run(DagContext::new()).is_err());
}

// Workflows

fn field<'a>(input: &'a Json, name: &str) -> Option<&'a Json> {
    input.get(name)
}

#[test]
fn test_linear_field_mapping() {
    let wf = Workflow::builder()
        .node(
            "double",
            FnWorkflowNode::new(|input: Json| {
                let n = int_of(field(&input, "n"));
                Ok(json(&format!("{{\"result\": {}}}", n * 2)))
            }),
        )
        .edge(workflow::START, "double", vec![("value", "n")])
        .edge("double", workflow::END, vec![("result", "answer")])
        .build()
        .unwrap();
    let out = wf.run(json("{\"value\": 21}")).unwrap();
    assert_eq!(int_of(out.get("answer")), 42);
}

#[test]
fn test_parallel_merge() {
    let text_of = |input: &Json, name: &str| {
        field(input, name).and_then(|v| v.as_str()).unwrap_or("").to_string()
    };
    let wf = Workflow::builder()
        .node(
            "upper",
            FnWorkflowNode::new(move |input: Json| {
                let text = text_of(&input, "text").to_uppercase();
                Ok(json(&format!("{{\"uppercased\": \"{text}\"}}")))
            }),
        )
        .node(
            "length",
            FnWorkflowNode::new(move |input: Json| {
                let text = text_of(&input, "text");
                Ok(json(&format!("{{\"len\": {}}}", text.len())))
            }),
        )
        .node(
            "combine",
            FnWorkflowNode::new(move |input: Json| {
                let upper = text_of(&input, "upper_text");
                let len = int_of(field(&input, "text_len"));
                Ok(json(&format!("{{\"summary\": \"{upper} ({len} chars)\"}}")))
            }),
        )
        .edge(workflow::START, "upper", vec![("input", "text")])
        .edge(workflow::START, "length", vec![("input", "text")])
        .edge("upper", "combine", vec![("uppercased", "upper_text")])
        .edge("length", "combine", vec![("len", "text_len")])
        .edge("combine", workflow::END, vec![("summary", "result")])
        .build()
        .unwrap();
    let out = wf.run(json("{\"input\": \"hello\"}")).unwrap();
    assert_eq!(out.get("result"), Some(&json("\"HELLO (5 chars)\"")));
}

#[test]
fn test_passthrough_edge() {
    let wf = Workflow::builder()
        .node("echo", FnWorkflowNode::new(|input: Json| Ok(input)))
        .edge_passthrough(workflow::START, "echo")
        .edge_passthrough("echo", workflow::END)
        .build()
        .unwrap();
    let out = wf.run(json("{\"a\": 1, \"b\": 2}")).unwrap();
    assert_eq!(int_of(out.get("a")), 1);
    assert_eq!(int_of(out.get("b")), 2);
}

#[test]
fn test_diamond_with_field_mapping() {
    let wf = Workflow::builder()
        .node(
            "left",
            FnWorkflowNode::new(|input: Json| {
                let n = int_of(field(&input, "n"));
                Ok(json(&format!("{{\"val\": {}}}", n + 10)))
            }),
        )
        .node(
            "right",
            FnWorkflowNode::new(|input: Json| {
                let n = int_of(field(&input, "n"));
                Ok(json(&format!("{{\"val\": {}}}", n * 2)))
            }),
        )
        .node(
            "join",
            FnWorkflowNode::new(|input: Json| {
                let l = int_of(field(&input, "left_val"));
                let r = int_of(field(&input, "right_val"));
                Ok(json(&format!("{{\"sum\": {}}}", l + r)))
            }),
        )
        .edge(workflow::START, "left", vec![("number", "n")])
        .edge(workflow::START, "right", vec![("number", "n")])
        .edge("left", "join", vec![("val", "left_val")])
        .edge("right", "join", vec![("val", "right_val")])
        .edge("join", workflow::END, vec![("sum", "total")])
        .build()
        .unwrap();
    let out = wf.run(json("{\"number\": 5}")).unwrap();
    assert_eq!(int_of(out.get("total")), 5 + 10 + 5 * 2);
}

#[test]
fn workflow_test_cycle_detection() {
    let result = Workflow::builder()
        .node("a", FnWorkflowNode::new(|_: Json| Ok(json("{}"))))
        .node("b", FnWorkflowNode::new(|_: Json| Ok(json("{}"))))
        .edge(workflow::START, "a", vec![])
        .edge("a", "b", vec![])
        .edge("b", "a", vec![])
        .edge("b", workflow::END, vec![])
        .build();
    let err = words_of(result.err().unwrap());
    assert!(err.contains("cycle"), "expected cycle error, got: {err}");
}

#[test]
fn test_unknown_node_fails() {
    let result = Workflow::builder()
        .edge(workflow::START, "nonexistent", vec![])
        .edge("nonexistent", workflow::END, vec![])
        .build();
    assert!(result.is_err());
}

#[test]
fn workflow_test_no_edges_fails() {
    let result = Workflow::builder()
        .node("a", FnWorkflowNode::new(|_: Json| Ok(json("{}"))))
        .build();
    assert!(result.is_err());
}

#[test]
fn test_selective_field_mapping() {
    let wf = Workflow::builder()
        .node(
            "producer",
            FnWorkflowNode::new(|_: Json| Ok(json("{\"a\": 1, \"b\": 2, \"c\": 3}"))),
        )
        .node(
            "consumer",
            FnWorkflowNode::new(|input: Json| {
                let mut keys = Vec::new();
                if let Json::Object(members) = &input {
                    for i in 0..members.len() {
                        keys.push(format!("\"{}\"", members.name(i)));
                    }
                }
                Ok(json(&format!("{{\"received_keys\": [{}]}}", keys.join(", "))))
            }),
        )
        .edge(workflow::START, "producer", vec![])
        .edge("producer", "consumer", vec![("a", "x"), ("c", "z")])
        .edge("consumer", workflow::END, vec![("received_keys", "keys")])
        .build()
        .unwrap();
    let out = wf.run(json("{}")).unwrap();
    let keys = out.get("keys").unwrap().as_array().unwrap();
    let key_strs: Vec<&str> = keys.iter().filter_map(|v| v.as_str()).collect();
    assert!(key_strs.contains(&"x"));
    assert!(key_strs.contains(&"z"));
    assert!(!key_strs.contains(&"b"));
}

#[test]
fn agents_are_workflow_nodes() {
    let wf = Workflow::builder()
        .node("shout", AgentWorkflowNode::new(Shout, "question"))
        .edge(workflow::START, "shout", vec![("q", "question")])
        .edge_passthrough("shout", workflow::END)
        .build()
        .unwrap();
    let out = wf.run(json("{\"q\": \"loud\"}")).unwrap();
    assert_eq!(out.get("text"), Some(&json("\"LOUD\"")));
    assert!(wf.run(json("{\"q\": \"quiet\"}")).is_err());
}

#[test]
fn a_node_that_fails_fails_the_workflow() {
    let wf = Workflow::builder()
        .node(
            "bad",
            FnWorkflowNode::new(|_: Json| Err(DaimonError::Other("bad node".to_string()))),
        )
        .edge(workflow::START, "bad", vec![])
        .edge("bad", workflow::END, vec![])
        .build()
        .unwrap();
    assert!(matches!(wf.run(json("{}")), Err(DaimonError::Other(m)) if m == "bad node"));
}

// Graphs

struct SetValueNode {
    key: String,
    value: Json,
}

impl GraphNode for SetValueNode {
    fn process(&self, ctx: &mut GraphContext) -> Result<NodeOutcome> {
        ctx.set(&self.key, self.value.duplicate());
        Ok(NodeOutcome::Continue)
    }
}

fn set_value(key: &str, value: &str) -> SetValueNode {
    SetValueNode { key: key.to_string(), value: json(value) }
}

struct DoneNode;

impl GraphNode for DoneNode {
    fn process(&self, _ctx: &mut GraphContext) -> Result<NodeOutcome> {
        Ok(NodeOutcome::Done)
    }
}

struct RouterNode;

impl GraphNode for RouterNode {
    fn process(&self, ctx: &mut GraphContext) -> Result<NodeOutcome> {
        let target = ctx.get_str("route_to").unwrap_or("default").to_string();
        Ok(NodeOutcome::Route(target))
    }
}

struct LoopNode;

impl GraphNode for LoopNode {
    fn process(&self, _ctx: &mut GraphContext) -> Result<NodeOutcome> {
        Ok(NodeOutcome::Continue)
    }
}

struct FanOutNode;

impl GraphNode for FanOutNode {
    fn process(&self, _ctx: &mut GraphContext) -> Result<NodeOutcome> {
        Ok(NodeOutcome::FanOut {
            branches: vec!["a".to_string(), "b".to_string()],
            merge: "merge".to_string(),
        })
    }
}

struct CounterNode;

impl GraphNode for CounterNode {
    fn process(&self, ctx: &mut GraphContext) -> Result<NodeOutcome> {
        let count = int_of(ctx.get("count"));
        ctx.set("count", Json::uint(count + 1));
        Ok(NodeOutcome::Continue)
    }
}

#[test]
fn test_graph_simple_linear() {
    let graph = Graph::builder()
        .node("start", set_value("x", "1"))
        .node("end", DoneNode)
        .edge("start", "end")
        .build()
        .unwrap();
    let result = graph.run(GraphContext::new()).unwrap();
    assert_eq!(result.get("x"), Some(&json("1")));
}

#[test]
fn test_graph_conditional_routing() {
    let graph = Graph::builder()
        .node("check", set_value("checked", "true"))
        .node("branch_a", set_value("branch", "\"a\""))
        .node("branch_b", set_value("branch", "\"b\""))
        .node("end", DoneNode)
        .conditional_edge("check", "branch_a", |ctx: &GraphContext| {
            ctx.get_str("input").unwrap_or("") == "go_a"
        })
        .conditional_edge("check", "branch_b", |_ctx: &GraphContext| true)
        .edge("branch_a", "end")
        .edge("branch_b", "end")
        .build()
        .unwrap();
    let ctx = GraphContext::new().with_input("go_a");
    let result = graph.run(ctx).unwrap();
    assert_eq!(result.get("branch"), Some(&json("\"a\"")));
    let ctx = GraphContext::new().with_input("anything_else");
    let result = graph.run(ctx).unwrap();
    assert_eq!(result.get("branch"), Some(&json("\"b\"")));
}

#[test]
fn the_first_edge_without_a_condition_is_taken() {
    let graph = Graph::builder()
        .node("start", set_value("x", "1"))
        .node("other", set_value("x", "2"))
        .node("first", set_value("branch", "\"first\""))
        .node("second", set_value("branch", "\"second\""))
        .node("end", DoneNode)
        .edge("other", "end")
        .edge("start", "first")
        .edge("start", "second")
        .edge("first", "end")
        .edge("second", "end")
        .build()
        .unwrap();
    let result = graph.run(GraphContext::new()).unwrap();
    assert_eq!(result.get("branch"), Some(&json("\"first\"")));
}

#[test]
fn test_graph_explicit_routing() {
    let graph = Graph::builder()
        .node("router", RouterNode)
        .node("target", DoneNode)
        .node("default", DoneNode)
        .build()
        .unwrap();
    let mut ctx = GraphContext::new();
    ctx.set("route_to", json("\"target\""));
    let result = graph.run(ctx);
    assert!(result.is_ok());
}

#[test]
fn test_graph_max_steps() {
    let graph = Graph::builder()
        .node("loop", LoopNode)
        .edge("loop", "loop")
        .max_steps(5)
        .build()
        .unwrap();
    let result = graph.run(GraphContext::new());
    assert!(result.is_err());
}

#[test]
fn test_graph_fan_out() {
    let graph = Graph::builder()
        .node("start", FanOutNode)
        .node("a", set_value("from_a", "true"))
        .node("b", set_value("from_b", "true"))
        .node("merge", DoneNode)
        .build()
        .unwrap();
    let result = graph.run(GraphContext::new()).unwrap();
    assert_eq!(result.get("from_a"), Some(&json("true")));
    assert_eq!(result.get("from_b"), Some(&json("true")));
}

#[test]
fn fan_outs_count_every_branch() {
    let graph = |steps: usize| {
        Graph::builder()
            .node("start", FanOutNode)
            .node("a", set_value("from_a", "true"))
            .node("b", set_value("from_b", "true"))
            .node("merge", DoneNode)
            .max_steps(steps)
            .build()
            .unwrap()
    };
    let words = "graph exceeded max steps (3) — possible infinite loop".to_string();
    match graph(3).run(GraphContext::new()) {
        Err(DaimonError::Orchestration(m)) => assert_eq!(m, words),
        _ => panic!("expected an orchestration error"),
    }
    assert!(graph(2).run(GraphContext::new()).is_err());
    let done = graph(4).run(GraphContext::new()).unwrap();
    assert_eq!(done.get("from_a"), Some(&json("true")));
}

#[test]
fn branches_keep_what_others_wrote() {
    let graph = Graph::builder()
        .node("start", FanOutNode)
        .node("a", set_value("x", "1"))
        .node("b", set_value("y", "2"))
        .node("merge", DoneNode)
        .build()
        .unwrap();
    let mut ctx = GraphContext::new();
    ctx.set("x", json("0"));
    ctx.set("y", json("0"));
    let done = graph.run(ctx).unwrap();
    assert_eq!(done.get("x"), Some(&json("1")));
    assert_eq!(done.get("y"), Some(&json("2")));
}

#[test]
fn contexts_and_outcomes_are_cloned_whole() {
    let mut ctx = GraphContext::new();
    ctx.set("x", json("[1]"));
    let mut copy = ctx.clone();
    assert_eq!(copy, ctx);
    copy.set("x", json("2"));
    assert_eq!(ctx.get("x"), Some(&json("[1]")));
    let mut ctx = DagContext::new();
    ctx.set("x", json("1"));
    assert_eq!(ctx.clone(), ctx);
    let ctx = ChainContext::new("t").with_metadata("k", json("null"));
    assert_eq!(ctx.clone(), ctx);
    let outcome = NodeOutcome::FanOut {
        branches: vec!["a".to_string(), "b".to_string()],
        merge: "m".to_string(),
    };
    assert_eq!(outcome.clone(), outcome);
    assert_eq!(NodeOutcome::Route("r".to_string()).clone(), NodeOutcome::Route("r".to_string()));
    let mapping = workflow::FieldMapping {
        source_field: "s".to_string(),
        target_field: "t".to_string(),
    };
    assert_eq!(mapping.clone(), mapping);
}

#[test]
fn test_graph_cycle_with_counter() {
    let graph = Graph::builder()
        .node("counter", CounterNode)
        .node("done", DoneNode)
        .conditional_edge("counter", "done", |ctx: &GraphContext| int_of(ctx.get("count")) >= 3)
        .edge("counter", "counter")
        .build()
        .unwrap();
    let result = graph.run(GraphContext::new()).unwrap();
    assert_eq!(result.get("count"), Some(&json("3")));
}

#[test]
fn test_graph_empty_fails() {
    let result = Graph::builder().build();
    assert!(result.is_err());
}

#[test]
fn test_graph_missing_entry() {
    let result = Graph::builder().entry("nonexistent").build();
    assert!(result.is_err());
}

#[test]
fn functions_and_agents_are_graph_nodes() {
    let graph = Graph::builder()
        .node("shout", AgentNode::new(Shout, "input", "said"))
        .node(
            "judge",
            FnNode::new(|mut ctx: GraphContext| {
                let loud = ctx.get_str("said") == Some("LOUD");
                ctx.set("judged", Json::Bool(loud));
                Ok((ctx, NodeOutcome::Done))
            }),
        )
        .edge("shout", "judge")
        .entry("shout")
        .build()
        .unwrap();
    let result = graph.run(GraphContext::new().with_input("loud")).unwrap();
    assert_eq!(result.get("judged"), Some(&json("true")));
    assert!(graph.run(GraphContext::new().with_input("quiet")).is_err());
}

#[test]
fn graphs_say_what_is_missing() {
    let graph = Graph::builder().node("only", LoopNode).build().unwrap();
    assert!(graph.run(GraphContext::new()).is_err());
    let graph = Graph::builder().node("router", RouterNode).build().unwrap();
    assert!(graph.run(GraphContext::new()).is_err());
    assert!(Graph::builder().node("a", DoneNode).entry("b").build().is_err());
}
