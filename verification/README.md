# llm-loop

A daemon that connects chat channels (Feishu, Telegram, QQ) to language model
providers. The decisions of the daemon are a Verus library; reading, sending and
waiting are ordinary Rust around it.

- `src/` is the library. Every function states what it returns or changes, and
  Verus proves it. Laws that span functions are public proof functions whose
  names start with `law_`.
- `app/` is the program: the command line, files, sockets and HTTP.
- `tests/` runs the library on concrete values.

Modules of the library:

| Module | What it holds |
| --- | --- |
| `channel` | what each platform sends and is sent, and questions that wait for answers |
| `daemon` | the course of a message, running turns, the reports |
| `context`, `context_window` | the instructions of a session and the size of its history |
| `config`, `home`, `cli` | the configuration, the directories, the command line |
| `message`, `session`, `ids`, `error`, `logger`, `plan_store` | the types they share |
| `json`, `text`, `numbers`, `path`, `assoc`, `order`, `sorting` | the foundations |

What the library takes from outside is declared where it is used, with the claim
that is made of it: `serde_json` in `json`, `uuid` and the system clock in `ids`,
`chrono` in `logger`, and a few functions of the standard library.
