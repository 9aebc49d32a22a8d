# Gooey

A reader for 5ch-style bulletin boards. The library `gooey` (in `src/`) is
written in Verus: each public function states what it returns in its
contract, and Verus proves the code against it. Where a result comes from
the machine (the local time zone, the platform's path separators), the
contract states what holds of every outcome.

- `textseq`, `strmap`: text as sequences of characters, and a map from text
  keys kept in key order.
- `html`, `urls`: the clean-up of names and bodies, links in bodies, thread
  URLs, cache file names.
- `boards`, `menu`: thread lists (`subject.txt`), threads (`.dat`), the
  board menu (`bbsmenu.json`) and its tree.
- `cookies`, `post`: the post form, cookies, and what the board answered.
- `gestures`, `table`: mouse gestures, key bindings, the thread table.
- `reader`, `session`: the reader's state and every action on it; the saved
  session.
- `laws`: properties across operations (a saved session restores the tabs,
  a thread never gets two tabs, and more).

The program in `app/` draws the window, downloads, and keeps the files; it
hands the library plain values and carries out the effects it returns.
