# tuxflow

The logic of TuxFlow, a Linux dev environment manager, as a library whose
behaviour is stated in contracts and proved by Verus.

- `src/text.rs` — character-level string tools (trimming, splitting, lines
  and words, infix search, UTF-8 sizes, number parsing) with their
  mathematical definitions.
- `src/util/` — port and URL detection in process output, project icon
  candidates, per-process CPU tick bookkeeping and `/proc` text parsing,
  process trees, notification sounds and texts.
- `src/ui/` — accent colours and their CSS, terminal colour schemes, the
  command palette's entries and query matching, status bar and sidebar
  texts, terminal tab names, keyboard switching, the clipboard gate and the
  mouse-selection gesture bookkeeping.
- `app/` — the GTK side: widgets, `/proc` and disk reads, notifications and
  sound playback, and the floating-point display rules.
- `tests/` — tests of the library on concrete values.

Each module states its laws as public proof functions named `law_*`.
