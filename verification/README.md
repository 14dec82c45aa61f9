# Waldo Royale

A multiplayer "Where's Waldo" game. Players join a lobby, get the same procedurally
generated 3D planet, and race to click Waldo. The fastest finder wins the round; the
highest total wins the game.

The rules are a library written in Verus: executable Rust whose behaviour is stated in
contracts and proved.

## Layout

`src/` is the library.

- `lobby` is the lobby as a state machine with no I/O. `model` says in mathematical terms
  what each event does to it, and `laws` what holds whatever happens.
- `rng`, `scoring`, `protocol`: the random stream every player shares, what a round is
  worth, and what players and the lobby say to each other.
- `server` routes messages between connections and lobbies; `netplay` does the same in the
  browser of a player who hosts, and leads a joiner to them.
- `rendezvous`, `signal`, `peer`: talking to the service that introduces peers.
- `net`, `state`, `session`, `ui`, `scene`, `figure`: what the client knows, shows and draws.
- `worldgen`, `shapes`: what is decided about a round's world.
- `ordering`, `text`: searching, ranking, and strings.

`tests/` exercises the library from outside.

`app/` is the program around it: the server's sockets and timers, the browser client's
screens, renderer and connections, and the floating-point geometry of the planets. It
measures distances and hands them to the library as the bits of non-negative
single-precision numbers, which order as the numbers do.

## What is not proved

A few functions of the standard library and of `serde_json` are taken at their word: each is
declared with its contract and a note of what it claims. Everything in `app/` is ordinary
Rust.
