# rar-chat

Terminal chat over any OpenAI-compatible streaming chat-completions endpoint.
The logic is a library verified with Verus; the program around it is ordinary
Rust.

## Layout

- `src/` is the library. It frames the byte stream, normalizes chunks, decides
  when a call is complete, runs the clocks of an attempt, spends the retry
  allowance, keeps the history, and says what goes on record. It does no I/O.
- `app/` is the program: it dials, reads, sleeps and writes, and hands the
  library plain values. JSON is read and written there. The throughput average
  is computed there, because it is floating point.
- `tests/` runs the compiled library.

## Run

    rar-chat [ENV_FILE]

`ENV_FILE` holds `KEY=VALUE` lines (comments `#`, optional `export`, optional
matching quotes). Keys in the file override the process environment; without an
argument the process environment alone is used. Protect the file: it holds a
key.

| key                                | required | default                     |
|------------------------------------|----------|-----------------------------|
| `OPENAI_API_KEY`                   | yes      |                             |
| `OPENAI_MODEL`                     | yes      |                             |
| `OPENAI_BASE_URL`                  | no       | `https://api.openai.com/v1` |
| `OPENAI_SYSTEM`                    | no       | none                        |
| `OPENAI_INCLUDE_USAGE`             | no       | `1`                         |
| `OPENAI_STALL_SECS`                | no       | `30`                        |
| `OPENAI_FIRST_BYTE_BACKSTOP_SECS`  | no       | `120`                       |
| `OPENAI_OVERALL_DEADLINE_SECS`     | no       | `600`                       |
| `OPENAI_THROUGHPUT_FLOOR_BPS`      | no       | `1`                         |
| `OPENAI_THROUGHPUT_SUSTAINED_SECS` | no       | `20`                        |
| `OPENAI_RETRY_ALLOWANCE`           | no       | `1`                         |
| `OPENAI_SEND_BUCKETS`              | no       | `1`                         |
| `OPENAI_BUS_CAPACITY`              | no       | `4096`                      |
| `OPENAI_CAPTURE_DIR`               | no       | none                        |

A `FAILOVER_OPENAI_BASE_URL`, with `_MODEL` and `_API_KEY` beside it, names a
second endpoint. Commands at the prompt are `/quit`, `/exit` and `/reset`.

## What is proved

- A turn commits only from a finish reason. Neither `[DONE]` nor end of stream
  completes a call. What is committed is exactly what was shown.
- A truncated, aborted or stalled stream commits nothing and leaves the history
  as it was.
- How the network cuts the bytes into reads does not matter. Framing loses no
  byte and splits no character, and the buffer is bounded.
- Every way out of an attempt is on record exactly once, and brings every
  oddity on record that was found up to it.
- A complete frame that is rejected ends its attempt with the error that was
  stated for it.
- Comments keep a stream alive but are no throughput.
- A turn makes no more retries than it was granted. A cancelled turn makes
  none.
- A turn returns every send bucket that it took, and closes with exactly one
  trailer.
- Configuration errors, the opening line, the body of a request and the course
  of a turn do not depend on the value of an API key.
