# virtioz_core

The decision logic of a small task-routing swarm, verified with Verus.

A router takes shell tasks from a local dashboard, finds the hosts (agents)
of its cluster through a signaling server, and hands each task to an idle
host, walking the open hosts round-robin in lexicographic order. Agents run
the tasks and stream their output back.

Layout:

- `src/` — the verified library:
  - `text`: prefixes, substrings, equality and lexicographic order of strings;
  - `json`: framing of compact JSON text (string escaping is `serde_json`'s);
  - `wire`: reading received bytes as UTF-8 and the fields of JSON messages
    (parsed by `serde_json`);
  - `ids`: fresh task ids and peer ids (random values from `uuid`);
  - `strmap`: finite maps and sets of strings;
  - `order`: sorting strings;
  - `signaling`: the signaling server's registry, host discovery and relaying;
  - `messages`: the JSON messages between router, agents and dashboard;
  - `dispatch`: the router's load balancer;
  - `router`: the dashboard's login and requests, and the hosts already known;
  - `mesh`: the router's session with the signaling server (registering,
    discovering hosts, connecting to each new host once);
  - `agent`: the agent's session with the signaling server, and which
    messages are tasks for an agent;
  - `laws`: properties that span several operations.
- `app/` — the programs around it: network I/O, WebRTC, processes. Run with
  `signaling`, `agent` or `test-ps` as the first argument; without one, the
  router daemon starts.
- `tests/` — tests of the library on concrete values.
