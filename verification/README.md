# nextbom

The logic of a desktop tool that turns the component list of a schematic into a Bill of
Materials: generic part IDs are resolved to manufacturer part numbers from a shared parts
database (`.nextdb`), through a working file (`.nextbom`), and exported to an Excel sheet,
optionally by filling a template.

`src/` is a library verified with Verus. Its functions carry contracts, and the properties
that span several functions are proved as lemmas. What the SQLite files hold is outside the
library's model: the functions that only send statements to them state the statements and
parameters through verified helpers, and what holds of every answer.

- `bom`: the imported entries, the CSV reader, and the grouping of resolved entries into
  export rows.
- `db`, `nextdb`, `export`: what is written to and read from the SQLite files.
- `template`: the placeholders of a BOM template and the plan that fills it; the default
  sheet.
- `xml_text`, `hf_drawing`: restoring the header/footer drawings of a template in the
  written workbook.
- `project_data`, `recent_projects`, `state`, `commands`: the project, the recent-projects
  list, and the decisions of the application's commands.
- `text`, `clock`: strings as sequences of characters, and the current time.

`app/` is the unverified application around it: the shared state behind a lock, the command
handlers, files, workbooks and serialisation. `tests/` holds the tests.
