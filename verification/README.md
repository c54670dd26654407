# spark-server

An inference server with the OpenAI and Anthropic APIs, written in Rust and
verified with Verus.

- `src/` is the library. It decides everything that can be decided on plain
  values: which requests are let in, what goes into the chat template and the
  sampler, how decoded text becomes reasoning, content and tool calls, what a
  client is sent, streamed or whole, and what is kept. Each function states what
  it returns, and Verus proves it. The promises that span functions are the
  proof functions whose names begin with `law_`.
- `tests/` runs the library on values.
- `app/` is the server around the library: the command line, HTTP, the channels
  to the scheduler, the engine, and the grammar compiler, which is a C++
  library.

What the proofs rest on is marked in `src/`: each function with
`external_body`, and each `assume_specification`, names the outside function
that it stands for and says what it claims of it.

A model's thinking scanner and its tool-call detector implement two traits of
the library. What they make of a text is theirs to say: their traits hold
relations between a call, its result and what it leaves behind, and what is
proved of a completion says which call each result came from.
