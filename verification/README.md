# dsh_tools

Tools for agents that work together on several devices: a board that they read and
follow, a bus with a queue of tasks, workflows, checks of plugins before they are deployed
or before a restart, versions and changelogs, the two remotes of a repository, audits of
channels and resources, and the upkeep of a pile of messages.

## Layout

- `src/` is the library. It decides: what a request means, what becomes of a task, what is
  found, printed, written or run next. Every function is verified with Verus against a
  contract over plain values; the public proof functions state what holds across functions.
- `app/` is the program. It reads files, runs commands and talks to services, and hands
  what it got to the library.
- `tests/` runs the library on examples.

## Modules

| Module | What it holds |
|--------|---------------|
| `text`, `num`, `order`, `table`, `path`, `args` | text, numbers, sorting, counting, paths, arguments |
| `json`, `http`, `clock`, `stamp` | values, requests and answers, times |
| `board`, `follow` | reading the board, following it |
| `bus`, `bus_http`, `cli` | the queue of tasks and its service |
| `messages`, `handoff`, `assess` | messages between agents, tasks handed over, advice on tools |
| `workflow` | steps, their budgets and their rounds |
| `release`, `report`, `deploy`, `guard` | checks of plugins |
| `version`, `raise`, `repo`, `ledger` | versions, remotes, the ledger of repositories |
| `noise`, `channel`, `gate`, `health`, `pitfalls` | audits |
| `drain`, `condense` | the pile of messages |
| `proxy` | the entry from other devices |

## What is trusted

Verus believes the contracts of a few items without proof: those around `serde_json`
(`json`), `chrono` and the system clock (`clock`), and a few functions of the standard
library (`text`, `messages`). Each says in its comment what it claims.
