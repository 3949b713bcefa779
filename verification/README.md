# pivagen

A chat bot that learns the messages of its chats and answers with text from
Markov chains. A backend trains the chains and answers over TCP; Telegram,
VK and console frontends relay chat messages to it.

- `src/` is the verified library (Verus): the wire format and its round-trip
  laws (`codec`), the first frontend wire format (`legacy`), byte search and
  decimal notation (`text`), the backend's rules for learning, dataset files
  and keyword chains (`backend`), and the frontends' models and decisions
  (`vk`, `vk_legacy`, `telegram`). Random draws go through `chance`.
- `app/` holds the programs: sockets, HTTP calls, the database, the Markov
  chains themselves, and the loops that carry out the library's decisions.
  The first argument picks the program: `backend`, `cli`, `telegram`, `vk`
  or `vk-legacy`.
- `tests/` runs the library on concrete values.
