# hub_mesh

A hub that nodes dial into, and the rules that decide what the mesh looks
like: who is connected, which link answers a routed call, what consumers of
the live topology are told, how a node backs off between dial attempts, and
which file paths a rooted files connector may touch.

- `src/` is the library, written in Verus: every function carries a
  contract, and the laws that tie operations together (a removal undoes a
  registration, a snapshot is determined by the registry, replaying events
  on a snapshot gives the next snapshot, the backoff doubles up to its cap)
  are stated in those contracts or as proof functions.
- `tests/` exercises the library on concrete values.
- `app/` is the program around it: the `hub` and `node` roles, TCP and the
  RPC framework, async plumbing, the JSON payload codec and the file system.
