# converge-domain

Domain agents for the Converge alignment engine, with their behaviour stated
and proved in Verus.

Each domain (growth strategy, meeting scheduling, resource routing, release
readiness, supply chain, inventory rebalancing, strategic sourcing, catalog
enrichment, CRM account health, compliance monitoring) is a set of agents that
read a shared context and propose facts, and invariants that judge the
context. Every agent states, as spec functions, exactly when it runs
(`runs_on`) and what it proposes (`proposes`); every invariant states its
verdict. Proof functions state the laws that span calls: each agent runs once
per context, rankings are stable permutations ordered by score, the solver
never exceeds a resource's capacity, every violation gets a remediation, and
so on.

Layout:

- `src/` — the verified library: the context model (`context`), the agent and
  invariant traits and fact queries (`agent`), text and ranking helpers
  (`text`, `rank`), one module per domain, and the domain evals (`evals`).
- `tests/` — scenario tests, run against a small convergence loop written in
  each test file.
- `app/` — the bridge to the `converge_core` engine: trait impls for the
  library's agents, invariants and evals, context conversion, and the parts
  that read decimal numbers (prices, delivery days, percentages).

The domains here are the deterministic ones. LLM-backed variants of the
domains (agents that propose facts through a language-model provider) are not
part of this crate: they need `converge_core::llm` and `converge_provider`,
which the `converge-core` release this crate builds on does not provide.
