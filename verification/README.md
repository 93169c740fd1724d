# tep

`tep` keeps a local graph of **entities** (named concepts), **anchors**
(tagged places in files) and **links** between entities, read from tags
written in the files themselves:

```txt
#!#tep:(entity_name){ref="./docs/x.md", description="..."}     #tepignore
#!#tep:(from)->(to){description="..."}                          #tepignore
#!#tep:[anchor_name](entity1,entity2){description="..."}        #tepignore
```

A line holding `#tepignore` is never scanned; nothing after the first
`#tepignoreafter` is scanned.

## Layout

- `src/` — the library, verified with Verus:
  - `tep_tag`, `anchor`, `entity`, `names`: the tag language, its parser and
    the naming rules, with the laws that every parsed tag is read from the
    text in order, outside ignored regions, under accepted names;
  - `service/`: the rules of the commands as state machines fed with what
    the store answers — anchor sync, entity auto-declaration, the health
    audit, the breadth-first link context, snippets around anchors;
  - `filter`, `utils`: path normalization, scan order, positions in text;
  - `dto`, `output`: the result records and their plain-text renderings;
  - `db`: workspace layout, schema and migration planning.
- `app/` — the `tep` program: command line, SQLite store, directory walks,
  JSON output.
- `tests/` — tests of the library.
