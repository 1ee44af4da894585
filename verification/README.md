# lxr_core

The core of a garbage collector that counts references and collects garbage
cycles by trial deletion, verified with Verus.

- `src/util/`: addresses, side metadata and where its tables lie, reference
  counts, the sanity trace that checks a heap after a collection, options and
  how they are read from text.
- `src/vm/heap.rs`: the object graph that the collector works on.
- `src/plan/lxr/`: the plan itself: the field barrier, the pools of candidates,
  the cycle collector, counts that overflow, reports and counters.
  - `cycle_model.rs` says what each step of the traversals does, `cycle_phases.rs`
    what a phase over all candidates does, and `gc_work.rs` is the code.
  - `cycle_laws.rs`, `cycle_grey.rs`, `cycle_soundness.rs`, `cycle_complete.rs`,
    `cycle_reclaim.rs` and `cycle_held.rs` prove what a collection as a whole
    does: counts agree with the references there are, only garbage is reclaimed,
    all that the scan found to be garbage is, and all garbage that candidates
    reach and that has neither a strong reference nor a logged slot; what is left
    is black, has the count of what is left, and is held by a strong reference or
    is a candidate. `cycle_tags.rs` proves that a candidate stays in the pool whose
    tag it carries.
  - `buffer_laws.rs` proves what comes out of a pool after any history of several
    producers, and that a walk over buffers visits each element once while it
    removes some.
  - `readiness.rs` tests whether a collection can begin.
- `app/`: files, the environment, the console and serialised forms. It is not
  verified.

The collector is modelled as one thread that is alone with the tables while it
works. Calls into `num_cpus`, `regex` and `serde_json` stand behind small
functions whose contracts are stated and not proved; each says which outside
function it calls.
