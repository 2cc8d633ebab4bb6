# submora

A multi-user subscription aggregator: an administrator keeps, per user, a
list of upstream source links; the public route `GET /{username}` fetches
those sources live and serves them merged, in link order, as plain text.

The rules of the service are a library verified with Verus:

- `src/rules.rs`: usernames, passwords, source URLs and link normalization.
- `src/config.rs`, `src/overrides.rs`: checking the server settings and
  building the fetch host overrides.
- `src/netaddr.rs`, `src/subscriptions/target.rs`: which addresses a fetch may
  reach, and the screening of fetch and redirect targets.
- `src/subscriptions/fetch.rs`: what a fetch does with each upstream response.
- `src/subscriptions/mod.rs`, `html.rs`, `merge.rs`: body limits, HTML to
  text, and the in-order merge of the fetched parts.
- `src/routes/`: the checks made by the API endpoints.
- `src/console/`: the administration console's editing rules, controls and
  labels.
- `src/error.rs`, `src/shared/`: the API's error and message shapes.

Calls into `url`, `http`, `scraper`/`ego-tree`, `metrics` and `time` stand
behind small trusted functions whose contracts say what the library relies
on.

`app/` is the server around the library: environment settings, DNS lookups,
HTTP requests, the Prometheus endpoint and the JSON encodings.
