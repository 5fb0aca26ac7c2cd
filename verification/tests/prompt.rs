use daimon::map::NameMap;
use daimon::prompt::dynamic::ErasedDynamicContext;
use daimon::prompt::{DynamicContext, FewShotTemplate, PromptBuilder, PromptTemplate};

#[test]
fn test_basic_interpolation() {
    let tpl = PromptTemplate::new("Hello {name}, you are a {role}.")
        .var("name", "Alice")
        .var("role", "developer");
    assert_eq!(tpl.render_static(), "Hello Alice, you are a developer.");
}

#[test]
fn test_missing_variable_preserved() {
    let tpl = PromptTemplate::new("Hello {name}, {unknown}.").var("name", "Bob");
    assert_eq!(tpl.render_static(), "Hello Bob, {unknown}.");
}

#[test]
fn test_render_with_overrides() {
    let tpl = PromptTemplate::new("{greeting} {name}")
        .var("greeting", "Hello")
        .var("name", "Alice");

    let mut overrides = NameMap::new();
    overrides.insert("name".to_string(), "Bob".to_string());

    assert_eq!(tpl.render_with(&overrides), "Hello Bob");
}

#[test]
fn test_empty_template() {
    let tpl = PromptTemplate::new("");
    assert_eq!(tpl.render_static(), "");
}

#[test]
fn test_no_placeholders() {
    let tpl = PromptTemplate::new("Just plain text.");
    assert_eq!(tpl.render_static(), "Just plain text.");
}

#[test]
fn test_vars_bulk() {
    let tpl = PromptTemplate::new("{a} {b}").vars(vec![("a", "1"), ("b", "2")]);
    assert_eq!(tpl.render_static(), "1 2");
}

#[test]
fn test_value_containing_placeholder_not_reexpanded() {
    let tpl = PromptTemplate::new("{outer}")
        .var("outer", "{inner}")
        .var("inner", "surprise");
    assert_eq!(tpl.render_static(), "{inner}");
}

#[test]
fn test_unclosed_brace_preserved() {
    let tpl = PromptTemplate::new("a {name and {b}").var("b", "2");
    assert_eq!(tpl.render_static(), "a {name and 2");
}

#[test]
fn test_doubled_braces_inner_placeholder() {
    let tpl = PromptTemplate::new("{{name}}").var("name", "Alice");
    assert_eq!(tpl.render_static(), "{Alice}");
}

#[test]
fn test_builder_persona_only() {
    let tpl = PromptBuilder::new().persona("You are a bot.").build();
    assert_eq!(tpl.render_static(), "You are a bot.");
}

#[test]
fn test_builder_full() {
    let tpl = PromptBuilder::new()
        .persona("You are helpful.")
        .instruction("Be concise.")
        .constraint("No profanity.")
        .example("Q: Hi\nA: Hello!")
        .build();

    let rendered = tpl.render_static();
    assert!(rendered.contains("You are helpful."));
    assert!(rendered.contains("Be concise."));
    assert!(rendered.contains("No profanity."));
    assert!(rendered.contains("Q: Hi\nA: Hello!"));
}

#[test]
fn test_builder_with_variables() {
    let tpl = PromptBuilder::new()
        .persona("You are {role}.")
        .build()
        .var("role", "a teacher");
    assert_eq!(tpl.render_static(), "You are a teacher.");
}

#[test]
fn builder_lays_out_every_section() {
    let tpl = PromptBuilder::new()
        .section("Tone", "warm")
        .example("one")
        .example("two")
        .constraint("short")
        .instruction("a")
        .instruction("b")
        .persona("P")
        .build();
    assert_eq!(
        tpl.render_static(),
        "P\n\n## Instructions\n- a\n- b\n\n## Constraints\n- short\n\n## Examples\none\n\ntwo\n\n## Tone\nwarm"
    );
}

#[test]
fn test_basic_few_shot() {
    let tpl = FewShotTemplate::new()
        .example("What is 2+2?", "4")
        .example("Capital of France?", "Paris");
    let rendered = tpl.render();
    assert!(rendered.contains("Input: What is 2+2?"));
    assert!(rendered.contains("Output: 4"));
    assert!(rendered.contains("Input: Capital of France?"));
    assert!(rendered.contains("Output: Paris"));
}

#[test]
fn test_with_prefix() {
    let tpl = FewShotTemplate::new()
        .with_prefix("Examples:")
        .example("hi", "hello");
    let rendered = tpl.render();
    assert!(rendered.starts_with("Examples:"));
}

#[test]
fn test_custom_labels() {
    let tpl = FewShotTemplate::new()
        .with_input_label("Q")
        .with_output_label("A")
        .example("question", "answer");
    let rendered = tpl.render();
    assert!(rendered.contains("Q: question"));
    assert!(rendered.contains("A: answer"));
}

#[test]
fn test_empty() {
    let tpl = FewShotTemplate::new();
    assert!(tpl.is_empty());
    assert_eq!(tpl.len(), 0);
    assert_eq!(tpl.render(), "");
}

#[test]
fn few_shot_layout_is_exact() {
    let tpl = FewShotTemplate::new()
        .with_prefix("Look:")
        .example("1", "one")
        .example("2", "two");
    assert_eq!(
        tpl.render(),
        "Look:\n\nInput: 1\nOutput: one\n\nInput: 2\nOutput: two"
    );
    assert_eq!(FewShotTemplate::default().example("x", "y").render(), ": x\n: y");
}

struct StaticContext {
    key: String,
    value: String,
}

impl DynamicContext for StaticContext {
    fn key(&self) -> &str {
        &self.key
    }
    fn resolve(&self) -> String {
        self.value.clone()
    }
}

#[test]
fn test_dynamic_context_resolve() {
    let ctx = StaticContext {
        key: "name".into(),
        value: "Alice".into(),
    };
    assert_eq!(DynamicContext::key(&ctx), "name");
    assert_eq!(ctx.resolve(), "Alice");
}

#[test]
fn providers_fill_what_the_variables_leave() {
    let tpl = PromptTemplate::new("{a} {b} {c} {d}").var("a", "0");
    let a = StaticContext { key: "a".into(), value: "9".into() };
    let b = StaticContext { key: "b".into(), value: "2".into() };
    let again = StaticContext { key: "b".into(), value: "{a}".into() };
    let d = StaticContext { key: "d".into(), value: "3".into() };
    assert_eq!(tpl.render_dynamic(&[&a, &b, &again, &d]), "0 {a} {c} 3");
    assert_eq!(tpl.render_dynamic(&[]), "0 {b} {c} {d}");
}

struct Shouted(&'static str);

impl DynamicContext for Shouted {
    fn key(&self) -> &str {
        self.0
    }

    fn resolve(&self) -> String {
        self.0.to_uppercase()
    }
}

#[test]
fn providers_of_different_types_stand_in_one_list() {
    let tpl = PromptTemplate::new("{name} is a {role}");
    let name = StaticContext { key: "name".into(), value: "Alice".into() };
    assert_eq!(tpl.render_dynamic(&[&name, &Shouted("role")]), "Alice is a ROLE");
}

#[test]
fn cloned_templates_render_alike() {
    let tpl = PromptTemplate::new("{a} {b} {c}").var("a", "1").var("b", "{a}");
    let copy = tpl.clone().var("c", "3");
    assert_eq!(tpl.render_static(), "1 {a} {c}");
    assert_eq!(copy.render_static(), "1 {a} 3");
    let shots = FewShotTemplate::new().with_prefix("Try:").example("1", "2");
    let more = shots.clone().example("3", "4");
    assert_eq!(shots.len(), 1);
    assert_eq!(more.len(), 2);
    assert_eq!(shots.clone().render(), shots.render());
}

#[test]
fn test_erased_dynamic_context() {
    let ctx: Box<dyn ErasedDynamicContext> =
        Box::new(StaticContext { key: "role".to_string(), value: "developer".to_string() });
    assert_eq!(ctx.key(), "role");
    assert_eq!(ctx.resolve_erased(), "developer");
}
