# wikidot_fi

The verified core of WiFi, the Wikidot Forum indexer: a service that downloads
Wikidot forums into a MariaDB database and answers queries about them over HTTP.

- `src/` is the library, with its specifications and proofs:
  - `text`: character-level string operations (trim, splits, `i32` parsing, decimal
    rendering) with their specifications;
  - `db_structs`: the stored records and their key-based equality;
  - `errors`: the API's errors, their HTTP status and text;
  - `config`: the configuration, its defaults, the database URL, write tokens, and
    the steps of the search for the configuration file;
  - `api`: orders, write tokens, paging and the answer trees of the HTTP API;
  - `html`: the calls into `scraper`, `regex` and `chrono`; each element carries
    its place in its page, so that what is read from it is tied to the page text;
  - `scraping`: reading categories, threads and messages out of forum pages;
  - `tools`: retry decisions and splitting results.
- `app/` is the program around it: configuration file, HTTP server, database
  queries, downloads and the concurrent orchestration of a forum download.
- `tests/` runs the library on concrete pages and values.
