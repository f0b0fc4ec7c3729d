# universal-devops-converter

Converts CI reports between the formats of one category: code coverage, test
results, code quality and security findings. Bills of materials have a model,
readers and writers too, and no entry in the registry yet. Every reader fills
one of four models, every writer draws on one of them, and what a format has no
room for is told in a notice.

The library under `src/` is verified with Verus. Each function states what it
returns for every input; the laws that span functions are public proof
functions.

| Module | What it holds |
| --- | --- |
| `model` | The four models, with merging, path mapping and canonical order |
| `formats` | A reader and a writer per format; `*_trip` holds the round trips |
| `registry`, `detect`, `convert`, `listing` | Choosing formats and planning a run |
| `xml`, `echo` | Reading and writing XML, and how written XML reads |
| `json`, `json_echo` | Decoding and building JSON values, and how built values decode |
| `text`, `value`, `order`, `hash`, `paths`, `warn`, `error` | What the rest is built on |

XML is parsed by `quick-xml`; what the library takes from it is stated in `xml`.
JSON text and floating point numbers stay in `app/`, which is also the command
line program: it parses arguments, reads and writes files, and hands the library
plain values.
