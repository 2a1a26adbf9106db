# docx_engine

A verified engine for reading, checking, editing and generating Word
`.docx` packages, written in Verus.

- `src/` is the library. Packages are read and written through `zip`
  (`zip_io`), markup is tokenized with `quick-xml` (`xml_scan`), pictures are
  probed with `image` (`docx_pkg`); every other step is verified code: the
  XML tree (`xml_dom`), the document model (`docx_model`, `styles`,
  `numbering`), block location (`locate`), text extraction (`docx`),
  projections (`docx_inspect`), assertions (`docx_validate`), paragraph and
  table surgery (`docx_edit`, `table_edit`), edit batches (`edit_batch`),
  style and numbering definition edits (`def_edit`), package additions
  (`docx_pkg`) and template-based generation (`docx_write`).
- `tests/` exercises the library on concrete documents.
- `app/` holds what stays outside the verified library: reading picture
  files, the format edits and picture widths given as floating-point
  numbers, and serializable copies of reports and assertions.
