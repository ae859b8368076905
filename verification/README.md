# cilk

Pieces of a small compiler back end, written in Verus with their contracts
proved.

- `types`: the IR type table. Compound types (pointers, arrays, function and
  struct types) are interned in an `id_arena::Arena`, so equal types get equal
  ids; struct layout (field offsets, size, alignment); element types reached
  by index paths; the text of a type.
- `machine`: the machine-level code that the back end passes read: functions
  of basic blocks of instructions, with per-block liveness sets.
- `liveness`: liveness analysis over that code (def, live-in and live-out sets
  of each block, phi operands taken from their source block only) and the
  live intervals it builds, one segment per block, instructions numbered
  across the block layout.
- `dag`: the selection DAG of a function: blocks, and nodes kept in an
  arena, each block's nodes chained from its entry.
- `register`: the x86-64 register classes, argument and return registers.
- `mc_convert`: the conversion of a DAG function into a machine function:
  blocks mapped in layout order, each node's instructions selected once
  (calls, returns, remainders, phis, branches, copies, machine nodes), and
  the choice of move instructions for an operand.
- `text`: decimal numbers and separator trimming used by the type text.
- `arena`, `fxhash`: the calls into `id_arena` and `rustc_hash` that the rest
  makes, each with the contract that the library relies on.

The public proof functions `lemma_*` state the laws that hold across calls:
interning, struct layout, parameter lowering, element paths, segment
interference, making a function type twice, and what liveness propagation
and the whole analysis establish.
