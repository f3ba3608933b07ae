# A multiplayer game

The rules of a small multiplayer shooter, written in Verus: the messages that
client and server exchange, the world that the server keeps, and what a client
makes of the snapshots that it receives. Every rule has a contract that Verus
proves.

* `src/` is the library.
  * `protocol`: the messages.
  * `scalar`: real-valued quantities, carried as bit patterns.
  * `slots`, `arena`: tables whose entries have handles with generations. They are
    arenas of the crate `generational_arena`; what is assumed of that crate
    stands in `arena`.
  * `entity`, `world`: the players and bullets, and who joins, leaves and steers.
  * `step`: one step of the world.
  * `connection`: which messages a reading task hands over, what a writing task
    writes, and when they end.
  * `server`: what the server does about everything that happens to it.
  * `timeline`, `input`, `client`: what a client keeps, sends and draws.
  * `laws`: what holds of the game as a whole.
* `app/` is the program around it: sockets, timers, the window, the wire format
  and the physics, which is floating-point arithmetic.
* `tests/` runs the library on examples.

The library never computes with real numbers. A step asks the caller's physics how
a player moves, whether a bullet is spent, and so on; which question is asked when,
and what becomes of the answers, is what the library decides and proves.
