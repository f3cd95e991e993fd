# sparql_planner

A query planner for SPARQL, verified with Verus.

`PlanBuilder::build` turns the algebra of a query into a plan. In the plan every variable is a
position in a tuple, and every RDF term is the code under which a store keeps it.
`PlanBuilder::build_graph_template` does the same for the triples of a `CONSTRUCT` template.

Not every query has a plan: property paths, `SERVICE` and aggregation are not supported.
`PlanBuilder::try_build` takes any query and says so.

## Layout

- `algebra`, `model`: queries and RDF terms.
- `plan`: plans.
- `store`: what is asked of a store. Any store will do; nothing is taken for granted about it.
- `semantics`: what planning does, as a function of the query and of the store's answers.
- `builder`: the planner, proved to do that.
- `expression`, `numbering`, `ordering`, `record`, `xsd`, `error`: its parts.
- `laws`: what holds of planning as a whole.
