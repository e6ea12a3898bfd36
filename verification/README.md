# bond

The verified core of bond, an LLM orchestration tool: a model talks to the
user through channels of messages and calls functions through a single
gateway tool, with calls written in a small command language.

- `src/` is the library, verified with Verus: the tag and command
  languages, messages, channels and the agent's decisions, the function
  registry, the request bodies and reply reading of the OpenRouter and
  OpenAI interfaces, the shell's choice of files, prompts and functions,
  the configuration, and the logic of the builtin tools (`tools/`).
- `app/` is the program around it: the async runtime, HTTP requests, the
  web-socket server, the file system, processes and the clock.
- `tests/` runs the library on concrete inputs.
