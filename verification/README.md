# petphrase

A pet on the desktop that keeps your phrases at hand: a click on it opens a
panel, a click on a phrase copies it.

The library under `src/` is the logic of the program, verified with Verus:

- `text`: trimming, searching, numerals
- `storage`: phrases, groups, settings
- `import`: putting data from elsewhere right before it is taken in
- `files`: writing files so that an interruption loses nothing, and finding a
  copy that can be read
- `session`: what the user does to the phrases; `laws`: what holds whatever the
  user does
- `anim`, `pet`: the animations, and where the pet may stand
- `panel`, `page`, `icons`, `notices`: what the windows show and when
- `update`: looking for a new version and installing it
- `clock`: chance and new ids, from the system's clock

`app/` is the host process around it: files, clipboard, autostart, and a line
protocol to the process that draws the windows.
