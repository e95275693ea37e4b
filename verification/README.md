# Taskmaster

A process supervisor that runs in the foreground. It launches configured programs, looks
after their processes, records what happens to them and offers a control shell.

## Layout

- `src/` is the verified library. It holds what the supervisor knows and decides:
  - `config`: programs, their defaults, and what makes a configuration valid
  - `instance`: how one process is launched, watched and stopped
  - `manager`: all instances of a program, with retries, restarts and states
  - `supervisor`: all programs, and the change from one configuration to another
  - `shell`: the commands, the texts and the course of a session
  - `signals`, `logger`, `single_log`, `platform`: requests, log lines, and what differs
    between systems
  - `names`, `order`, `numbers`, `text`: maps by name, sorting, decimal numbers and texts
- `app/` is the program around it: files, processes, threads, signals and the terminal.
- `tests/` runs the library on concrete values.

## How the two parts work together

The library never touches the system. A function that needs the system to act returns what
is to be done (launch these instances, send this signal, write this line), and another
function takes notice of what came of it. Moments are nanoseconds on a clock that never runs
backwards. So every decision is a function of plain values, and its contract says what it is.

Properties that span several functions stand beside them as public proof functions: that a
reload leaves unchanged programs and their processes alone, that an instance which keeps
dying early is given up after its retries, that a stop gives a process group its time before
it kills what survived.
