# toolcase-gateway

A small HTTP gateway for clients of chat models. It passes requests on to an
upstream, restores the letter case of tool names in what comes back, tries
other models when one fails, and offers completions by Prism behind the usual
chat interface.

`src/` is the library, verified with Verus: it reads and writes the messages,
decides where a request goes, which model is tried when and after which delay,
rewrites bodies, and says what is made of each reply. It does no I/O. `app/` is
the program around it: sockets, threads, the environment, JSON and the calls to
Prism.

| Module | What it holds |
| --- | --- |
| `text`, `bytes`, `numbers` | texts as sequences of characters, their bytes, and numbers in them |
| `http`, `chunked`, `reader` | heads, chunked bodies, and requests as they come in |
| `relay` | responses as they are passed on, and errors |
| `rewrite` | the model in a request and the tool names in a response |
| `config`, `routes` | the settings and where a request goes |
| `omniroute`, `routing` | the attempts at a request |
| `ids`, `prism`, `prism_reply`, `completion` | completions by Prism |
| `laws_*` | what holds of all of this, for every input |

Texts are modelled as `Seq<char>`, bodies as `Seq<u8>`. Each function says in
its `ensures` what it returns in terms of a specification function of the same
module.
