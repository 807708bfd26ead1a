# candle_graph

CUDA graphs for candle: capture what some code launches once, and replay it on new inputs.

The library in `src/` decides. It looks at tensors as plain values (an address, a layout, a
device) and answers with plain values: a kernel launch, a copy, the next request to the driver.
The functions there are verified with Verus, but for five short wrappers around candle and cudarc
(in `tensor` and `copy2d`) and the contract of `str::trim` (in `dump`), which are trusted.

- `shape`, `tensor`, `dtype`, `error`: tensors and what can go wrong with them
- `copy2d`, `extension`: writing a slice of a tensor, at an offset or at a position that lives on
  the device
- `inplace`: copying a tensor over another
- `memory`: what launches and copies do to the memory of a device, with a memory on the host to
  try them on
- `cache`: `Cache` and `KvCache`, filled by `append` or written at a position by `append_at`
- `input`, `graph`, `node`, `dump`: the inputs of a graph, its life from capture to end, its
  nodes, and how it is written out
- `slice_laws`, `cache_laws`, `cache_runs`, `input_laws`, `graph_laws`, `replay_laws`: what holds of
  these together, up to what a cache holds after any number of appends or replays

`app/` carries the decisions out on candle's tensors, through the CUDA driver. What candle exposes
only when it is built for CUDA comes in through the trait `Backend`.

`tests/` runs the library on a memory on the host.
