# supabase_viewer

A desktop viewer for the tables of a Supabase project, with its logic verified
by Verus.

- `src/` is the verified library: the order on text and the stable sort of
  rows (`text`, `ordering`, `table`), the JSON response taken apart into a
  table (`json`, `table`), the request and the handling of its reply
  (`request`), CSV export (`csv`), the viewer's state and what each control
  does to it (`viewer`), and properties across operations (`laws`).
- `app/` is the egui window around it: drawing, the HTTP request on a thread,
  the file dialog, the bookmark file, and reading cells as floating-point
  numbers for sorting.
- `tests/` exercises the library on concrete values.
