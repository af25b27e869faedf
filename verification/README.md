# bookmarks

Bookmarks of a text editor, as a verified library with its user interface around it.

- `src/` decides which rows a toggle touches and what happens on each (`toggling`, `editor`),
  what the name prompt hands to the bookmark store (`prompt`), where a jump lands (`navigation`),
  and how the list of all bookmarks of a project is built, searched, ordered, drawn and opened
  (`project_bookmarks`). `text`, `order` and `position` hold what these rest on; `editor_laws` and
  `list_laws` prove what holds over whole runs.
- `app/` looks things up for the library and carries out the effects with which it answers.
- `tests/` runs the library on concrete values.

The library never calls the host. A command says what has to be looked up, the host answers, and
the library returns the effects to carry out, in order. Handles of the host (buffers, anchors,
paths, locations) are type parameters: the library passes them on and reads nothing in them.
