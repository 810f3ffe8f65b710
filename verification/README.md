# texture_downloader

Downloads the textures and skyboxes offered on freestylized.com.

- `src/` is the verified library (Verus): settings and directories (`app`),
  path joining (`path`), string operations (`text`), element selection with
  `scraper` (`scrape`), the download decisions (`download`), the run-wide
  download queue (`schedule`) and the reports (`report`). Every function
  there carries a contract; the laws are public proof functions beside the
  functions they speak of.
- `app/` is the program: argument parsing, HTTP requests, file writes and the
  asynchronous scheduling, each step decided by the library.
- `tests/` runs the library on concrete pages, paths and counts.
