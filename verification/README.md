# pacpurge

Finds space worth reclaiming on an Arch system and helps you take it back.
The analysis is a Verus library: what is installed, who needs what, what a
removal would really free, when a package was last used, and the exact commands
that would run.

    src/    the library, with its contracts and proofs
    tests/  its tests
    app/    the program around it: files, processes, sockets and the terminal

The library takes what was read as plain values and hands plain values back.

| Module | What it holds |
| --- | --- |
| `localdb` | pacman's on-disk database format |
| `graph` | dependencies, removal cascades, breakage, protection |
| `usage` | access times and home state as evidence of use |
| `filter`, `sort` | the package table's rows and their order |
| `plan`, `session` | from a selection to the commands that run |
| `janitor`, `targets` | space outside the package set |
| `scan`, `capability` | what to read, and what it adds up to |
| `app`, `keys`, `ui` | the interactive interface, short of drawing it |
| `report`, `format`, `cli`, `web` | the other ways in and out |
| `model` | the types they share |
| `text`, `split`, `number`, `path`, `sets`, `textmap`, `tally` | the groundwork |

Public proof functions beside the code state what holds across functions: that
removing more never frees less, that an accepted offer can run, that nothing
runs that was not confirmed, that a size is never overstated.
