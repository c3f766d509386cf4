# scrappy

A WebAssembly runtime for a system of seven cells that talk to each other and
to the kernel by mail, with the boot, rescue and watchdog logic of that system.

- `src/` is the library. Its functions carry contracts that Verus proves: the
  binary format, the interpreter, the system interface, the cells, and the two
  boot layers. The laws (`law_*`) state what holds across functions.
- `app/` is the outer part: floating-point instructions (with `libm`), running
  calls to their end, host functions from closures, the binaries on disk, and
  the main loop.
- `tests/` runs the library on concrete modules and messages.

## Running a module

`ScrappyWasmRunner::load` puts a binary in a free cell and
`ScrappyWasmRunner::call` starts one of its exports. A call is a value of type
`Signal`: `proceed` takes it on for a number of steps and comes back when it
has ended, or when it waits for the result of a floating-point instruction.
`app/run.rs` does this in a loop.

An `end` opcode closes the innermost block, whose results stay on the stack;
outside of any block it ends the function.
