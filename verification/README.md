# dispatch

The verified core of a dispatcher for coding agents. Tasks stand on a board; each
one that is dispatched gets a git worktree and a tmux window of its own, and gives
them back when it is done. Epics can be filled by feeds: commands whose output is
synced into the board.

The library in `src/` decides; it does not act. A procedure that needs something
from outside (a git command, a look at the disk, a row in the store) is a function
of the answers that it got so far. It returns what to do next, or what came of it
all. Whoever runs it does that, appends the answer, and calls again. So its
contract can say exactly what happens for every course of events.

- `worktree`: where a task's branch starts (`start`), giving it a worktree and a
  window (`provision`, `windows`), bringing its branch home (`finish`) and taking
  everything away again (`teardown`).
- `feed`: reading an emission (`parse`), which role a pull request has (`routing`),
  repositories and base branches (`repos`, `exec`), syncing into the board
  (`ingest`), one cycle (`cycle`), and when a feed is due (`runner`). What a sync
  makes of the board is proved in `ingest::grouped_board` and
  `ingest::reviews_board`, over what each action does to it (`board`).
- `editor`, `sections`: the sheets on which tasks and epics are edited.
- `trust`, `json`: the settings file that says which repositories are trusted.
- `models`, `paths`, `process`, `git`, `prompts`, `text`: what the others stand on.

`app/` holds the processes, the disk, the clock and the background tasks around it.
