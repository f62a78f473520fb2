# message-io

An event queue and the bookkeeping of a network adapter, written in Verus.

- `src/` is the verified library.
  - `events`, `timers`, `clock`, `channel`, `inbox`: a queue of events that are sent at once, with
    priority or after a delay. The channels are those of `crossbeam`.
  - `books`, `ledger`: the accounts of a queue, what it has asked for and been given, and what it
    holds back.
  - `network_adapter`, `address`, `text`: the resources of a network adapter, the endpoints that
    they reach, and what to do about the events that they report.
  - `adapters::web_socket`, `status`: what a web socket adapter does about the outcome of its calls.
  - `event_laws`, `network_laws`: what holds of the queue and of the resources as a whole.
- `app/` makes the calls on sockets that the library decides on, with `mio`, `net2` and
  `tungstenite`.
- `tests/` runs the library.
