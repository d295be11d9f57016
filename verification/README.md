# waterfurnace_symphony

A client for the WaterFurnace Symphony service, an HTTP gateway in front of
it, and a mock of the service for tests, written in Verus.

- `src/` is the verified library: the protocol messages and reading lists
  (`protocol`), the table of commands in flight (`transactions`), the
  session states and the parsing of the login and configuration replies
  (`session`), the decisions of the client on replies and events
  (`client`), the answers and the supervisor of the HTTP gateway
  (`gateway`), and the settings and request checks of the mock service
  (`mock`).  Each public function states what it returns in its contract;
  the `law_*` proof functions state what holds across calls.
- `app/` is the plain Rust around it: the asynchronous client, the HTTP
  and WebSocket plumbing, serialisation, and the gateway's command line.
- `tests/` exercises the library on concrete values.
