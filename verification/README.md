# newbbs

A Discord-shaped BBS you reach over ssh. Rust, ratatui, SQLite -- with its logic
verified by [Verus](https://github.com/verus-lang/verus).

Identity is your ssh key and the board is invite only: an admin adds your key,
you connect, you are you.

## Layout

- `src/` is the verified library. It does no I/O: it takes plain values and gives
  plain values back.
  - `model` -- users, roles, conversations, messages, events and their routing
    tags.
  - `db` -- the event log and the tables derived from it: the statements each
    event runs (`projection`), what a statement does (`tables`), what can be read
    (`query`), ids that sort by time (`uuid`), and what a fresh board starts with
    (`bootstrap`, `seed`, `script`).
  - `bus` -- requests, subscriptions, deliveries, and who is online.
  - `roles` -- role operations and what they say.
  - `ssh` -- who gets in, invitations, one session per person; `ssh::input` turns
    bytes into keys.
  - `ui` -- a session: `app` (what it shows), `keys`, `command`, `switcher`,
    `markdown`, `ansi`, `theme`, and `render`, which makes the lines of the screen.
  - `text`, `number`, `order`, `seqs` -- what the rest is built from.
- `app/` is the program around it: the command line, SQLite, the terminal, the ssh
  server and the tasks that connect them.
- `tests/` runs the library on concrete values.

## What is proved

The functions of the library have contracts over mathematical models of their data.
Beyond those, `pub proof fn`s state what holds across functions. Among them:

- appending an event to the log keeps the tables what the log adds up to, no event
  breaks the rules of the schema, and a refused event leaves nothing half done;
- a read straight after a write sees it, and a committed event can be resolved by
  its uuid;
- a session that fell behind is told to resync before it is sent anything else, and
  what was tagged for a session either arrives or leaves it owed a resync, unless
  the session is gone;
- someone's arrival is published with their first subscription, and their leaving
  with the end of the last;
- an account created with a key that nobody had is identified by it, and nobody is
  identified but by a key that is listed for them; an account without a key never
  gets one;
- the bytes of a terminal can arrive cut anywhere but right after an escape, which is
  not waited on;
- wrapping a message drops nothing but whitespace, and a wrapped line passes the
  width only by a single character, or by a piece whose characters fit one by one;
  every piece keeps the style of its span, and no line starts with a gap;
- commands for admins are refused to everyone else, and ctrl-c ends a session in
  any state.

What the library takes from other crates and from `std` without proof stands in
functions marked `#[verifier::external_body]` and in `assume_specification` items,
each with a comment that says what is claimed.

## Running it

```sh
newbbs serve                    # the ssh listener
newbbs invite bob bob.pub
newbbs console                  # the admin TUI (the only way in as admin)
newbbs grant bob sysop          # or --revoke
newbbs motd                     # show the splash message, or set it
newbbs art banner.txt           # set the splash art (a file, or - for stdin)
newbbs log --limit 20           # the event log, as JSON
newbbs snapshot                 # render one frame to stdout, no tty needed
```
