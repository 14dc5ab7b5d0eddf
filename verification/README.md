# shell

A small interactive shell whose command logic is verified with Verus.

- `src/` is the verified library: tokenising a command line (quotes and
  continuation lines included), choosing what a command line runs, and the
  decisions and output of the built-ins `ls`, `cp`, `mv`, `rm`, `mkdir`,
  `cd`, `pwd`, `cat` and `echo`. Functions take plain values (what the file
  system was found to hold) and return what is to be printed or done.
- `app/` is the program around it: the prompt loop, signals, forking, and
  every file-system, user-database, clock and terminal access.
- `tests/` runs the library on concrete inputs.
