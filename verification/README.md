# slobster

A slab allocator and the system layer beneath it, with contracts that Verus proves.

A slab is a block of pages with a header and slots for objects of one type. Free slots are
linked to each other, slabs with free slots and used-up slabs form two lists, and the slab of
a slot is found by masking the slot's address.

- `src/slab.rs` is the allocator. `src/slab/model.rs` says what each operation does,
  `lists.rs` what a well-formed heap is, and `laws.rs`, `places.rs` and `runs.rs` what follows
  from that.
- `src/pointer.rs` walks over arrays by address.
- `src/sys/` covers errors of system calls, page sizes, memory mappings, the states of a
  coroutine, and io_uring: setting up a ring step by step, and claiming entries.

The library makes no system calls. It takes their results as plain values and returns what is
to be asked of the operating system; `app/` makes the calls.
