# gemini-openai-gateway

An OpenAI-compatible gateway in front of the Google Gemini API, run as a
Cloudflare Worker. The gateway's logic is a library verified with Verus; the
Worker around it only performs I/O.

## Layout

- `src/` — the verified library.
  - `auth` — proxy-token check in constant time.
  - `config` — configuration defaults, key-pool parsing, account templates.
  - `runtime` — runtime overrides, discrete secrets, key-pool selection, API keys.
  - `accounts`, `scheduler` — account health and LRU scheduling with quota
    domains; the scheduler's laws (rotation, cooldowns, disabling).
  - `retry`, `router` — classification of upstream answers, the first-byte
    guard and the attempt loop; routing of incoming requests.
  - `classifier`, `models` — smart routing and model-name resolution.
  - `error`, `metrics`, `upstream`, `text` — errors, request ids, the fixed
    upstream URL and character-level helpers.
- `tests/` — tests of the library.
- `app/` — the Worker: environment reads, HTTP, JSON (de)serialisation, the
  upstream fetch and the smart router's call to the classifier model.
