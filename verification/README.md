# oLLM

The policy of a disk-cache proxy in front of llama.cpp's `llama-server`, verified
with Verus.

llama.cpp persists KV state to disk only when it is asked to
(`/slots/{id}?action=save|restore`). oLLM decides when to ask: it restores a
session's blob into a slot before a turn is forwarded, and publishes the slot's
state when the turn is over.

## Rules

1. **Write lock.** A lookup holds it shared, a publish holds it exclusively
   (`src/lock.rs`).
2. **Transactional publish.** Scratch file, sync, rename, sync of the directory: a
   visible blob is complete (`src/publish.rs`).
3. **Dirty slots.** A slot whose state is unpublished is neither restored over nor
   taken by another session; its owner is published first, and if that fails the
   slot is not taken. A slot is reserved in the step that wins it and stays the
   session's until its turn is over, whatever turns run side by side
   (`src/registry.rs`, `src/admission.rs`, `src/policy.rs`).
4. **Compatibility.** Blob names hold the backend's signature, a digest of what
   `/props` says of the model, the slots, the context, the template, the cache
   types and the draft. Unless two shortened digests collide, a blob saved under
   one backend is not looked for under one that differs in any of these
   (`src/keys.rs`).

## Layout

- `src/`: the decisions, from plain values to plain values. Whatever talks to the
  backend or the disk is a small state machine: `action` names the next step,
  `resume` takes what came of it. The laws that hold across functions are the
  public `law_*` proof functions.
- `app/`: the server that performs those steps.
- `tests/`: examples.

## Environment

| variable | default | meaning |
|---|---|---|
| `OLLM_BACKEND_URL` | `http://127.0.0.1:1245` | the backend |
| `OLLM_BACKEND_API_KEY` | none | bearer key for the backend |
| `OLLM_CACHE_DIR` | `~/.ollm/cache` | blob directory; must equal the backend's `--slot-save-path` |
| `OLLM_BIND` | `0.0.0.0:1247` | listen address |
| `OLLM_CACHE_LIMIT_MB` | `51200` | cap; the least recently used blobs go first |
| `OLLM_SESSION_HEADER` | `x-session-id` | header that names a conversation |
