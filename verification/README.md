# tui_book_search

Search several book catalogs from the terminal and download what you pick.

- `src/` is the library, verified with Verus: the catalogs and what their pages
  mean (`source`), the state of the program and how keys, the mouse and replies
  change it (`app`), what the rows on the screen say (`app::rows`, `theme`),
  the texts that are edited (`field`), files and preferences (`files`,
  `preferences`), and the texts, words, numbers and orders that all of these
  are made of.
- `app/` is the program around it: the terminal, the network, the disk and the
  browser. It performs the actions that the library decides on and hands back
  what came of them.
- `tests/` runs the library on concrete values.

Texts are modelled as sequences of characters, and the program as a value
`AppView`; every method of `App` is stated as a function of that value. What
`scraper`, `reqwest::Url`, `tui_input`, `unicode_width`, `ratatui` and
`throbber_widgets_tui` compute is named in `html`, `url`, `field` and `theme`,
next to the calls.
