# causal

A record and replay debugger for Linux x86-64 processes of one thread.

`causal record` runs a program under `ptrace` and writes its syscalls, the data its reads
returned, the changes of its memory map and the signals it received to a trace. `causal replay`
runs the program again so that `getpid`, `read` and signals come out of the trace. `causal dump`
prints a trace, and `causal maps` prints the memory map as it was after a given event.

The library under `src/` is verified with Verus: every function has a contract that says what it
returns or changes, and every error with the inputs on which it comes. The modules whose names
end in `laws` prove what holds across functions, among them:

- a written trace reads back, and a trace that was read writes back byte for byte;
- the difference of two memory maps, applied to the first, leads to the second;
- a printed memory map reads back, in whatever order its lines come;
- a writer numbers the events from 1 without gaps, and what it wrote cannot be read before it
  was told to finish, nor if it is cut short or followed by other bytes;
- what a recorder writes to its end reads back as the events it recorded, as long as the kernel
  keeps to its rules; it can be replayed if a substituted syscall returned or a signal was
  delivered, and the process ids in it are in the range that replay accepts;
- a process that does what the trace holds is never taken to diverge, and one that does something
  else is.

What rests on contracts that are not proved: the functions of `libc` that take a wait status
apart, and a few of the standard library's (lossy and strict UTF-8 decoding, the parsing of
numbers, pushing a character to a string, the words for a system error). Their doc comments say
what is claimed of each.

`app/` is the program around the library: arguments, files, and the system calls that control a
traced process. `tests/` exercises the library on concrete values.
