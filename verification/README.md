# doubangen

A desktop tool that builds BBCode / JSON introductions of films and series
from DoubanInfo and TMDB, merging the two with Douban first.

- `src/` is the verified library: the JSON model (`json`), text utilities
  (`text`), shared data and request addresses (`common`), the DoubanInfo and
  TMDB readings (`doubaninfo`, `tmdb`), the record schema with BBCode, merge
  and cleaning (`schema`), input recognition and request planning (`input`),
  the configuration sections (`config`) and the window state (`session`).
- `app/` is the egui application: HTTP, files, threads and drawing.
- `tests/` runs the library on concrete values.
