# daimon

The building blocks of tool-using language model agents, with contracts that
Verus proves: requests to model services and their streamed answers, memory in
several tiers, prompts, retrieval, routing by difficulty, middleware, graphs of
steps, and both sides of the Model Context Protocol.

## Layout

- `src/` is the library. What it computes is verified. Where it calls an outside
  crate, or a function of the standard library that Verus does not know, the call
  stands in a small function or declaration whose contract is believed: its doc
  comment names the outside function and says what is claimed of it.
  - `text`, `split`, `json`, `map`, `double`, `decode`, `ranking`: what the rest
    is written with.
  - `error`, `tool`, `stream`, `agent`: errors, tools, events and agents.
  - `model`: chat requests and answers of Anthropic, OpenAI and Ollama, and
    embeddings.
  - `memory`: sliding and token windows, summaries, core, archival and episodic
    memory, and how they are laid out in Redis and SQLite.
  - `prompt`: templates, examples and the prompt builder.
  - `middleware`: layers around requests, answers and tool calls.
  - `orchestration`: chains, graphs, acyclic graphs and workflows.
  - `retriever`: documents, vector stores, knowledge bases and the search tool.
  - `routing`: tiers, costs, scorers and the model router.
  - `mcp`: messages, transports, client, server and bridge.
- `app/` is ordinary Rust around it: HTTP, WebSockets, child processes, databases
  and arithmetic on doubles.
- `tests/` runs the library.

## How to read the contracts

Types that hold data have a view or public fields, and the contract of a function
says what it returns over these. What a view leaves out, such as the limit of a
window, has a spec function of its own. A public proof function states a law that several
functions share. Where an outside crate decides, such as the JSON parser, the
result has a name (`parsed_json`), and what the library makes of it is stated
over that name. Doubles do not occur: a score is a JSON number, the bits of a
double, or an integer in the order of the doubles.

Models, tools, retrievers and the like are traits for the user of the library to
implement. The contract of a function that calls one says what holds for
whatever the implementation hands back.
