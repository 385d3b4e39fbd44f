# bevy_oozlum logs

Verified logs for reversible game state. Every log keeps a present value together with the
values that stepping backward and forward through already run frames swaps in and out, and
each is specified over a mathematical model of what it holds:

- `log::DenseStateLog`, `log::DenseStatesLog`, `log::FramedStateLog`, `log::FrameStateLog`
  keep one state (or one group of values) per push, modelled as a `StateTimeline`.
- `log::DenseTransitionLog`, `log::DenseTransitionsLog` keep transitions, modelled as a
  `TransitionTimeline`.
- `log::RareStateLog`, `log::SparseStateLog`, `log::RareValueLog`, `log::RareStatesLog`,
  `log::RareValuesLog`, `log::RareTransitionLog`, `log::RareTransitionsLog` count pushes
  without a value as skips, modelled as a `RareStateView` or `RareTransitionView`.
- `log::InitNoneLog` and `log::InitiallyNoneStateLog` may hold no state before their first
  push and after undoing it.
- `log::FrameTransitionLog` stores the frames a system ran at as byte coded offsets
  (`log::offset_code`), read back by `log::OffsetIter`.
- `log::PastLenLog` records the frames something was updated at, several times a frame if
  need be, and gives the past length to keep for logs updated along with it; its limits
  (`log::past_len::limits`) tell when the world moved past a frame at which it had to change.
- `log::packed_uint` and `log::packed_int` store unsigned and signed integers as
  little-endian bytes with an alignment of `1`; the reduced sizes check their range.
- `frame::last_run` answers which frame a system last ran at, for each direction the
  schedule moves in; `hook` tells which direction a component hook sees.

Layout: `src/` is the verified library; `tests/` runs it; `app/` holds serde forms of the
plain types, the per-entity bookkeeping of last runs around the verified functions, and the
world's record of past length log limits reported from any thread.
