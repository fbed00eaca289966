# weztui

A terminal interface for WezTerm's windows, tabs, panes and sessions: a tree
view with vim-style keys, a fuzzy finder, a live pane preview, renaming,
moving and closing, session save and restore, a settings editor, and an
installer for the Cmd+Shift+G keybinding.

## Layout

- `src/` is the library, verified with Verus. Each public function states
  what it returns or changes in its `ensures`, over spec functions and views:
  - `model` builds the window, tab and pane tree from `wezterm cli list`;
  - `tree`, `outline`, `screen` and `preview` compute the tree view's items,
    labels and connectors, the titles and the preview text, and the move
    preview;
  - `search` builds the fuzzy-search entries and filters them with
    fuzzy-matcher's skim matcher;
  - `layout` scales pane geometry into a rectangle and truncates text;
  - `session` captures a session and recovers each tab's split tree from pane
    geometry; `restore` plans a restore and runs it as a state machine that
    asks for one WezTerm command at a time; `store` validates session names
    and lists sessions newest first;
  - `install` and `markers` edit WezTerm's configuration text: the
    keybinding block between marker comments, and the commenting-out of a
    conflicting binding;
  - `ipc` builds the escape sequences that set WezTerm user variables;
  - `settings` holds the settings editor's position and its integer and
    option steps;
  - `app` is the interactive controller: a key press and the current state
    give the next state and the command for the terminal side to run.
- `app/` is the program around it: argument parsing, the terminal, calls to
  the `wezterm` CLI, files, JSON, the settings catalog with its float values,
  and drawing with ratatui.
- `tests/` exercises the library on concrete values.

The laws that relate several functions (the recovered split tree's leaves
are the panes, each once; a restore without failures creates the saved
windows, tabs and panes; a restored tab gets one split per further pane;
a day count maps to the valid calendar date that many days after
1970-01-01; scaled panes
stay inside their rectangle, reinstalling keeps one keybinding block,
removing it right after installing gives back the commented-out text, Esc
leaves every prompt, and others) are public proof functions next to the
functions they speak of.
