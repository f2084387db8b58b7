# Job watcher

The job watcher reads the postings of a search on 104 and of LinkedIn's job
alerts, compares them with the postings it knows, keeps what it found in SQLite,
writes a history of each day's changes, and tells of them by mail and through
LINE.

## Layout

- `src/` is the library. All of it is verified with Verus: each function states
  what it returns or changes, and laws that span functions stand as public proof
  functions whose names start with `law_`.
  - `text` says what operations on text mean, `scan` has the operations
    themselves; `number`, `encoding`, `html` and `json` build on them.
  - `clock` has dates and points in time, as Taipei's clocks show them.
  - `job`, `change` and `summary` have postings, how two states of one differ,
    and what a run changed.
  - `source` reads postings from mail: `gmail` finds the HTML texts of messages,
    `alert` the postings they link to, `header` and `page` what a posting's page
    says, `acquisition` which pages are fetched, and `linkedin` is the source.
  - `store` has the statements that keep the table of postings, and says what
    they do to it.
  - `listing` and `batch` have the search's pages and the files of postings.
  - `sync` takes a run from step to step: what is to be done next, given what
    came of what was done before.
  - `search` says what the steps of a run come to as a whole: which pages are
    opened, which postings are kept and told of, and what the files hold.
  - `report`, `smtp`, `mail`, `line` and `service` have the digests, the dialogue
    with a mail server, the mails, the LINE bot, and the service.
- `app/` does what the library asks for: it opens pages, runs statements, reads
  and writes files, and sends requests.
- `tests/` runs the library.

## What is trusted

A few functions of `chrono`, `base64`, `serde_json` and the standard library are
called through small wrappers, each with a comment that says what is taken for
granted of the function it calls. They stand in `clock`, `encoding`, `json` and
`scan`.

## Commands

`job-watcher` runs the service. `job-watcher update-jobs` and
`job-watcher update-jobs-all` make one run each; `search-linkedin-alerts`,
`send-latest-changes`, `gmail-auth` and `--test-email` do what they are called.
