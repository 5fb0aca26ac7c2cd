use daimon::double::{clamp, is_below, order_key};
use daimon::error::{DaimonError, Result};
use daimon::json::Json;
use daimon::model::traits::{AnyModel, Model, SharedModel};
use daimon::model::types::{
    ChatRequest, ChatResponse, Message, Role, StopReason, ToolSpec,
};
use daimon::routing::registry::{CostModel, ModelCost, ModelRegistration, SharedCostModel};
use daimon::routing::router::{ModelRouter, ModelRouterBuilder, TierBands, FALLBACK_DIFFICULTY};
use daimon::routing::scorer::{
    judge_snapshot, last_user_message, parse_judge_reply, read_signals, LlmScorer,
    SharedTaskScorer, StaticScorer, TaskScorer,
};
use daimon::routing::tier::ModelTier;
use daimon::stream::StreamEvent;
use std::cell::RefCell;
use std::sync::Arc;

fn bits(x: f64) -> u64 {
    x.to_bits()
}

fn judged(text: &str) -> f64 {
    f64::from_bits(parse_judge_reply(text))
}

fn priced(input_per_token: f64, output_per_token: f64) -> ModelCost {
    ModelCost { ordering_key: order_key(bits(input_per_token + output_per_token)) }
}

fn cost(key: i64) -> ModelCost {
    ModelCost { ordering_key: key }
}

#[test]
fn tiers_are_ordered() {
    assert!(ModelTier::Small < ModelTier::Medium);
    assert!(ModelTier::Medium < ModelTier::Large);
    assert!(ModelTier::Small < ModelTier::Large);
    assert!(ModelTier::Large.at_least(&ModelTier::Medium));
    assert!(ModelTier::Medium.at_least(&ModelTier::Medium));
    assert!(!ModelTier::Small.at_least(&ModelTier::Medium));
}

struct FixedCostModel;

impl CostModel for FixedCostModel {
    fn cost_of(&self, _model_id: &str) -> ModelCost {
        priced(1.0e-6, 2.0e-6)
    }
}

struct FailingScorer;

impl TaskScorer for FailingScorer {
    fn score(&self, _request: &ChatRequest) -> Result<u64> {
        Err(DaimonError::Model("scorer down".to_string()))
    }
}

fn scored<M>(difficulty: f64) -> ModelRouterBuilder<M> {
    ModelRouter::builder(StaticScorer(bits(difficulty)))
}

fn empty_request() -> ChatRequest {
    ChatRequest::new(vec![Message::user("test")])
}

#[test]
fn explicit_cost_wins_over_fallback() {
    let fallback = Some(SharedCostModel::new(FixedCostModel));
    let explicit = priced(9.0e-6, 9.0e-6);
    let reg = ModelRegistration::new(ModelTier::Small, "stub-model", ()).with_cost(explicit);
    assert_eq!(reg.effective_cost(&fallback), Some(explicit));
}

#[test]
fn fallback_used_when_no_explicit_cost() {
    let fallback = Some(SharedCostModel::new(FixedCostModel));
    let reg = ModelRegistration::new(ModelTier::Small, "stub-model", ());
    assert_eq!(reg.effective_cost(&fallback), Some(priced(1.0e-6, 2.0e-6)));
}

#[test]
fn no_cost_metadata_sorts_last() {
    let reg = ModelRegistration::new(ModelTier::Small, "stub-model", ());
    assert_eq!(reg.effective_cost(&None), None);
    let router = scored(0.1)
        .register(ModelTier::Small, "unknown", 1)
        .register_with_cost(ModelTier::Small, "dear", 2, cost(i64::MAX))
        .build()
        .unwrap();
    let routed = router.route(1, &empty_request()).unwrap();
    assert_eq!(routed.decision.selected_model_id, "dear");
}

#[test]
fn tier_bands_edges() {
    let bands = TierBands::default();
    assert_eq!(bands.tier_for(bits(0.32)), ModelTier::Small);
    assert_eq!(bands.tier_for(bits(0.33)), ModelTier::Medium);
    assert_eq!(bands.tier_for(bits(0.65)), ModelTier::Medium);
    assert_eq!(bands.tier_for(bits(0.66)), ModelTier::Large);
    assert_eq!(f64::from_bits(bands.small_below), 0.33);
    assert_eq!(f64::from_bits(bands.medium_below), 0.66);
}

#[test]
fn empty_router_fails_build() {
    let result = scored::<()>(0.1).build();
    assert!(matches!(result, Err(DaimonError::Builder(_))));
}

#[test]
fn selects_cheapest_in_adequate_tier() {
    let router = scored(0.1)
        .register_with_cost(ModelTier::Small, "small-expensive", "a", cost(18))
        .register_with_cost(ModelTier::Small, "small-cheap", "b", cost(2))
        .register_with_cost(ModelTier::Large, "large", "c", cost(100))
        .build()
        .unwrap();
    let routed = router.route(1, &empty_request()).unwrap();
    assert_eq!(routed.decision.selected_model_id, "small-cheap");
    assert_eq!(routed.decision.selected_tier, ModelTier::Small);
    assert_eq!(routed.decision.escalated_from, None);
    assert_eq!(routed.decision.iteration, 1);
    assert_eq!(*routed.handle, "b");
}

#[test]
fn shared_models_are_handed_on() {
    let model = Arc::new("shared");
    let reg = ModelRegistration::shared(ModelTier::Small, "stub-model", model.clone());
    assert!(Arc::ptr_eq(&reg.model, &model));
    let router =
        scored(0.1).register_shared(ModelTier::Small, "small", model.clone()).build().unwrap();
    let routed = router.route(1, &empty_request()).unwrap();
    assert_eq!(routed.decision.selected_model_id, "small");
    assert!(Arc::ptr_eq(&routed.handle, &model));
}

#[test]
fn cloned_routers_route_alike() {
    let router = scored(0.1)
        .registration(ModelRegistration::new(ModelTier::Small, "a", "a").with_group("g"))
        .register_with_cost(ModelTier::Small, "b", "b", cost(2))
        .cost_model(FixedCostModel)
        .build()
        .unwrap();
    let copy = router.clone();
    let one = router.route(1, &empty_request()).unwrap();
    let other = copy.route(1, &empty_request()).unwrap();
    assert_eq!(one.decision.selected_model_id, other.decision.selected_model_id);
    assert!(Arc::ptr_eq(&one.handle, &other.handle));
    let decision = one.decision.clone();
    assert_eq!(decision.selected_group, one.decision.selected_group);
    assert_eq!(decision.selected_tier, ModelTier::Small);
    assert_eq!(decision.difficulty, one.decision.difficulty);
}

struct EchoModel;

impl Model for EchoModel {
    fn generate(&self, request: &ChatRequest) -> Result<ChatResponse> {
        Ok(ChatResponse {
            message: request.messages[0].clone(),
            stop_reason: StopReason::EndTurn,
            usage: None,
        })
    }

    fn generate_stream(&self, _request: &ChatRequest) -> Result<Vec<StreamEvent>> {
        Err(DaimonError::Model("no stream".to_string()))
    }
}

#[test]
fn models_of_different_types_stand_in_one_router() {
    let echo: SharedModel = Arc::new(AnyModel::new(EchoModel));
    let router = scored(0.9)
        .register(ModelTier::Small, "judge", AnyModel::new(judge("0.5")))
        .register_shared(ModelTier::Large, "echo", echo)
        .build()
        .unwrap();
    let routed = router.route(1, &empty_request()).unwrap();
    assert_eq!(routed.decision.selected_model_id, "echo");
    let said = routed.handle.generate(&empty_request()).unwrap();
    assert_eq!(said.message.content.as_deref(), Some("test"));
    assert!(routed.handle.generate_stream(&empty_request()).is_err());
}

#[test]
fn shared_judges_are_asked() {
    let model = Arc::new(judge("0.85"));
    let req = request_with(vec![Message::user("anything")], vec![]);
    let scorer = LlmScorer::shared(model.clone());
    assert_eq!(scorer.score(&req, None).map(f64::from_bits).unwrap(), 0.85);
    assert_eq!(model.requests.borrow().len(), 1);
}

#[test]
fn falls_up_when_tier_unpopulated() {
    let router = scored(0.1)
        .register_with_cost(ModelTier::Medium, "medium", (), cost(2))
        .build()
        .unwrap();
    let routed = router.route(1, &empty_request()).unwrap();
    assert_eq!(routed.decision.selected_tier, ModelTier::Medium);
}

#[test]
fn best_effort_when_required_tier_exceeds_all() {
    let router = scored(0.95)
        .register_with_cost(ModelTier::Small, "small", (), cost(2))
        .build()
        .unwrap();
    let routed = router.route(1, &empty_request()).unwrap();
    assert_eq!(routed.decision.required_tier, ModelTier::Large);
    assert_eq!(routed.decision.selected_tier, ModelTier::Small);
}

#[test]
fn ties_break_by_registration_order() {
    let router = scored(0.1)
        .register_with_cost(ModelTier::Small, "first", (), cost(2))
        .register_with_cost(ModelTier::Small, "second", (), cost(2))
        .build()
        .unwrap();
    let routed = router.route(1, &empty_request()).unwrap();
    assert_eq!(routed.decision.selected_model_id, "first");
}

#[test]
fn explicit_cost_beats_fallback_for_ordering() {
    struct FallbackPricing;
    impl CostModel for FallbackPricing {
        fn cost_of(&self, _model_id: &str) -> ModelCost {
            priced(100e-6, 100e-6)
        }
    }
    let router = scored(0.1)
        .register(ModelTier::Small, "fallback-priced", ())
        .register_with_cost(ModelTier::Small, "explicit-cheap", (), priced(1e-6, 1e-6))
        .cost_model(FallbackPricing)
        .build()
        .unwrap();
    let routed = router.route(1, &empty_request()).unwrap();
    assert_eq!(routed.decision.selected_model_id, "explicit-cheap");
}

#[test]
fn scorer_failure_degrades_to_default_difficulty() {
    let router = scored(0.1)
        .register_with_cost(ModelTier::Small, "small", (), cost(2))
        .register_with_cost(ModelTier::Medium, "medium", (), cost(4))
        .scorer(FailingScorer)
        .build()
        .unwrap();
    let routed = router.route(1, &empty_request()).unwrap();
    assert_eq!(f64::from_bits(routed.decision.difficulty), 0.5);
    assert_eq!(routed.decision.required_tier, ModelTier::Medium);
    assert_eq!(routed.decision.selected_tier, ModelTier::Medium);
    assert_eq!(routed.decision.selected_model_id, "medium");
}

#[test]
fn scores_are_brought_between_zero_and_one() {
    let router = scored(0.0).register(ModelTier::Small, "small", ()).build().unwrap();
    for (score, counts) in [(7.5, 1.0), (-7.5, 0.0), (f64::NEG_INFINITY, 0.0), (0.25, 0.25)] {
        let routed = router.route_scored(1, Ok(bits(score)), &vec![None]).unwrap();
        assert_eq!(f64::from_bits(routed.decision.difficulty), counts);
    }
    let routed = router.route_scored(1, Ok(bits(f64::NAN)), &vec![None]).unwrap();
    assert!(f64::from_bits(routed.decision.difficulty).is_nan());
    assert_eq!(routed.decision.required_tier, ModelTier::Large);
    let routed = router.route_scored(1, Err(DaimonError::Cancelled), &vec![None]).unwrap();
    assert_eq!(f64::from_bits(routed.decision.difficulty), 0.5);
}

#[test]
fn bands_and_shared_scorers_are_used() {
    let bands = TierBands { small_below: bits(0.1), medium_below: bits(0.2) };
    let router = scored(0.0)
        .register(ModelTier::Small, "small", ())
        .register(ModelTier::Medium, "medium", ())
        .register(ModelTier::Large, "large", ())
        .shared_scorer(SharedTaskScorer::new(StaticScorer(bits(0.15))))
        .bands(bands)
        .build()
        .unwrap();
    let routed = router.route(2, &empty_request()).unwrap();
    assert_eq!(routed.decision.selected_model_id, "medium");
    assert_eq!(f64::from_bits(routed.decision.difficulty), 0.15);
}

#[test]
fn bits_compare_as_doubles() {
    let all = [
        0.0,
        -0.0,
        0.5,
        -0.5,
        1.0,
        -1.0,
        f64::MIN_POSITIVE,
        f64::MAX,
        f64::MIN,
        f64::INFINITY,
        f64::NEG_INFINITY,
        f64::NAN,
        -f64::NAN,
        5e-324,
    ];
    for a in all {
        for b in all {
            assert_eq!(is_below(bits(a), bits(b)), a < b, "{a} {b}");
            if !a.is_nan() && !b.is_nan() {
                assert_eq!(order_key(bits(a)) < order_key(bits(b)), a < b, "{a} {b}");
            }
        }
        if !a.is_nan() {
            assert_eq!(clamp(bits(a), bits(-0.5), bits(0.5)), bits(a.clamp(-0.5, 0.5)));
        }
    }
}

#[test]
fn escalate_moves_to_next_populated_tier() {
    let router = scored(0.1)
        .register_with_cost(ModelTier::Small, "small", (), cost(2))
        .register_with_cost(ModelTier::Large, "large", (), cost(100))
        .build()
        .unwrap();
    let routed = router.route(1, &empty_request()).unwrap();
    let escalated = router.escalate(&routed.decision).unwrap();
    // Medium is unpopulated, so escalation skips straight to Large.
    assert_eq!(escalated.decision.selected_tier, ModelTier::Large);
    assert_eq!(escalated.decision.escalated_from, Some(ModelTier::Small));
    // No tier above Large: escalation is exhausted.
    assert!(router.escalate(&escalated.decision).is_none());
}

#[test]
fn escalation_stays_in_the_group() {
    let router = scored(0.0)
        .registration(ModelRegistration::new(ModelTier::Small, "a-small", ()).with_group("a"))
        .registration(
            ModelRegistration::new(ModelTier::Medium, "b-medium", ())
                .with_group("b")
                .with_cost(cost(1)),
        )
        .registration(ModelRegistration::new(ModelTier::Large, "a-large", ()).with_group("a"))
        .build()
        .unwrap();
    let routed = router.route(3, &empty_request()).unwrap();
    assert_eq!(routed.decision.selected_model_id, "a-small");
    assert_eq!(routed.decision.selected_group.as_deref(), Some("a"));
    let escalated = router.escalate(&routed.decision).unwrap();
    assert_eq!(escalated.decision.selected_model_id, "a-large");
    assert_eq!(escalated.decision.iteration, 3);
}

#[test]
fn parse_plain_number() {
    assert!((judged("0.85") - 0.85).abs() < 1e-9);
}

#[test]
fn parse_number_from_prose() {
    assert!((judged("I'd say 0.7.") - 0.7).abs() < 1e-9);
}

#[test]
fn parse_clamps_above_one() {
    assert!((judged("1.5") - 1.0).abs() < 1e-9);
}

#[test]
fn parse_negative_is_stripped_to_positive() {
    assert!((judged("-0.5") - 0.5).abs() < 1e-9);
}

#[test]
fn parse_whitespace_only_falls_back() {
    assert!((judged("   ") - 0.5).abs() < 1e-9);
}

#[test]
fn parse_empty_string_falls_back() {
    assert!((judged("") - 0.5).abs() < 1e-9);
}

#[test]
fn parse_non_ascii_digits_falls_back() {
    assert!((judged("一二三") - 0.5).abs() < 1e-9);
}

#[test]
fn parse_picks_first_number_when_multiple() {
    assert!((judged("0.3 then 0.9") - 0.3).abs() < 1e-9);
}

#[test]
fn parse_handles_trailing_dot() {
    assert!((judged("0.75.") - 0.75).abs() < 1e-9);
}

#[test]
fn replies_are_read_as_the_float_parser_reads_them() {
    assert_eq!(judged("score: 0"), 0.0);
    assert_eq!(judged("1e-3"), 0.001);
    assert_eq!(judged("(.25)"), 0.25);
    assert_eq!(judged("0.1.2 0.4"), 0.4);
    assert_eq!(judged("007"), 1.0);
    assert_eq!(parse_judge_reply("none"), FALLBACK_DIFFICULTY);
}

struct JudgeModel {
    reply: &'static str,
    fail: bool,
    cancel: bool,
    requests: RefCell<Vec<ChatRequest>>,
}

fn judge(reply: &'static str) -> JudgeModel {
    JudgeModel { reply, fail: false, cancel: false, requests: RefCell::new(Vec::new()) }
}

impl Model for JudgeModel {
    fn generate(&self, request: &ChatRequest) -> Result<ChatResponse> {
        if self.cancel {
            return Err(DaimonError::Cancelled);
        }
        if self.fail {
            return Err(DaimonError::Model("judge down".to_string()));
        }
        let mut seen = ChatRequest::new(request.messages.clone());
        seen.max_tokens = request.max_tokens;
        self.requests.borrow_mut().push(seen);
        Ok(ChatResponse {
            message: Message::assistant(self.reply),
            stop_reason: StopReason::EndTurn,
            usage: None,
        })
    }

    fn generate_stream(&self, _request: &ChatRequest) -> Result<Vec<StreamEvent>> {
        Ok(Vec::new())
    }
}

fn request_with(messages: Vec<Message>, tools: Vec<ToolSpec>) -> ChatRequest {
    let mut request = ChatRequest::new(messages);
    request.tools = tools;
    request
}

fn ask(model: JudgeModel) -> Result<f64> {
    let req = request_with(vec![Message::user("anything")], vec![]);
    LlmScorer::new(model).score(&req, None).map(f64::from_bits)
}

#[test]
fn llm_scorer_parses_plain_number() {
    assert_eq!(ask(judge("0.85")).unwrap(), 0.85);
}

#[test]
fn llm_scorer_parses_number_from_prose() {
    assert_eq!(ask(judge("I'd say 0.7.")).unwrap(), 0.7);
}

#[test]
fn llm_scorer_falls_back_on_garbage() {
    assert_eq!(ask(judge("hard to say")).unwrap(), 0.5);
}

#[test]
fn llm_scorer_falls_back_on_error() {
    let mut model = judge("");
    model.fail = true;
    assert_eq!(ask(model).unwrap(), 0.5);
}

#[test]
fn llm_scorer_propagates_cancelled() {
    let mut model = judge("");
    model.cancel = true;
    assert!(matches!(ask(model), Err(DaimonError::Cancelled)));
}

#[test]
fn llm_scorer_blend_clamps_judge_to_heuristic_band() {
    let req = request_with(vec![Message::user("anything")], vec![]);
    let scorer = LlmScorer::new(judge("0.85")).with_heuristic_blend(bits(0.25));
    let range = Some((bits(0.0), bits(0.351)));
    let score = f64::from_bits(scorer.score(&req, range).unwrap());
    assert!(score < 0.4, "judge 0.85 clamped by band 0.25 must stay below 0.4, got {score}");
    assert!(score > 0.3, "clamped score must stay near upper bound 0.35, got {score}");
}

#[test]
fn replies_without_a_number_are_not_blended() {
    let req = request_with(vec![Message::user("anything")], vec![]);
    let range = Some((bits(0.0), bits(0.35)));
    for reply in ["hard to say", ""] {
        let scorer = LlmScorer::new(judge(reply)).with_heuristic_blend(bits(0.25));
        assert_eq!(f64::from_bits(scorer.score(&req, range).unwrap()), 0.5);
    }
}

#[test]
fn llm_scorer_blend_default_off() {
    let req = request_with(vec![Message::user("anything")], vec![]);
    let range = Some((bits(0.0), bits(0.35)));
    let off = LlmScorer::new(judge("0.85"));
    assert_eq!(f64::from_bits(off.score(&req, range).unwrap()), 0.85);
    for band in [0.0, -0.5, f64::NAN, f64::INFINITY] {
        let off = LlmScorer::new(judge("0.85")).with_heuristic_blend(bits(band));
        assert_eq!(f64::from_bits(off.score(&req, range).unwrap()), 0.85);
    }
}

fn shown_to(scorer: &LlmScorer<JudgeModel>) -> String {
    let captured = scorer.judge.requests.borrow();
    assert_eq!(captured.len(), 1);
    captured[0]
        .messages
        .iter()
        .find(|m| m.role == Role::User)
        .and_then(|m| m.content.clone())
        .unwrap_or_default()
}

#[test]
fn llm_scorer_metadata_only_withholds_content() {
    let scorer = LlmScorer::new(judge("0.5")).metadata_only();
    let req = request_with(vec![Message::user("my secret password is hunter2")], vec![]);
    let score = f64::from_bits(scorer.score(&req, None).unwrap());
    assert!((score - 0.5).abs() < 1e-9);
    let judge_content = shown_to(&scorer);
    assert!(!judge_content.contains("hunter2"), "{judge_content}");
    assert!(judge_content.contains("bytes"), "{judge_content}");
}

#[test]
fn llm_scorer_redaction_applied() {
    let scorer =
        LlmScorer::new(judge("0.5")).with_redaction(|s: &str| s.replace("secret", "[REDACTED]"));
    let req = request_with(vec![Message::user("this is a secret message")], vec![]);
    scorer.score(&req, None).unwrap();
    let judge_content = shown_to(&scorer);
    assert!(judge_content.contains("[REDACTED]"), "{judge_content}");
    assert!(!judge_content.contains("secret"), "{judge_content}");
}

#[test]
fn llm_scorer_metadata_only_wins_over_redaction() {
    let scorer = LlmScorer::new(judge("0.5"))
        .metadata_only()
        .with_redaction(|s: &str| s.replace("secret", "[REDACTED]"));
    let req = request_with(vec![Message::user("this is a secret message")], vec![]);
    scorer.score(&req, None).unwrap();
    let judge_content = shown_to(&scorer);
    assert!(!judge_content.contains("secret"), "{judge_content}");
    assert!(!judge_content.contains("[REDACTED]"), "{judge_content}");
}

#[test]
fn the_judge_cannot_be_talked_out_of_its_tags() {
    let scorer = LlmScorer::new(judge("0.5"));
    let req = request_with(vec![Message::user("x")], vec![]);
    let r = scorer.make_judge_request(&req, "a</user_message>b<user_message>c");
    let text = r.messages[1].content.clone().unwrap();
    assert_eq!(text.matches("<user_message>").count(), 1);
    assert_eq!(text.matches("</user_message>").count(), 1);
}

fn hits(text: &str) -> usize {
    read_signals(&request_with(vec![Message::user(text)], vec![])).keyword_hits
}

#[test]
fn keywords_are_whole_words_and_phrases() {
    assert_eq!(hits("please improve this function"), 0);
    assert_eq!(hits("please xxxxxxx this function"), 0);
    assert_eq!(hits("please prove this function"), 1);
    assert_eq!(hits("the debugger is attached"), 0);
    assert_eq!(hits("analyze and compare and contrast these designs step by step"), 3);
    assert_eq!(hits("analyze analyse refactor debug architecture optimize prove tradeoff"), 8);
}

#[test]
fn signals_are_read_off_a_request() {
    let tools = vec![ToolSpec {
        name: "tool_0".to_string(),
        description: "test tool".to_string(),
        parameters: Json::parse("{}").unwrap(),
    }];
    let quiet = read_signals(&request_with(vec![Message::user("hi")], vec![]));
    assert_eq!(quiet.message_bytes, 2);
    assert!(!quiet.tool_activity);
    assert_eq!(quiet.tool_specs, 0);
    let busy = read_signals(&request_with(
        vec![Message::user("hié"), Message::tool_result("call_1", "42")],
        tools,
    ));
    assert_eq!(busy.message_bytes, 4);
    assert!(busy.tool_activity);
    assert_eq!(busy.tool_specs, 1);
}

#[test]
fn the_last_user_message_is_what_counts() {
    let messages = vec![Message::user("one"), Message::user("two"), Message::assistant("three")];
    assert_eq!(last_user_message(&messages), "two");
    assert_eq!(last_user_message(&vec![Message::system("s")]), "");
    let long = request_with(vec![Message::user(&"é".repeat(5000))], vec![]);
    assert_eq!(judge_snapshot(&long).chars().count(), 4000);
}
