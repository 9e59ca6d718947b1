# mascot

A desktop mascot: a VRM character that lives on the taskbar, reacts to what
the user does (typing in an editor, idling, sleeping after fifteen minutes,
crying when clicked, a cursor chase after too long a coding session) and
obeys Russian voice commands ("помощник открой телеграм",
"помощник ютуб в браузере").

The behaviour is a verified library; the program around it draws, moves the
window and talks to the operating system.

## Layout

- `src/` — the library, verified with Verus.
  - `mascot.rs` — the behaviour state machine (states, timers, clips to play)
    and its laws.
  - `voice.rs` — the voice-command grammar, the application and site
    indexes, and its laws.
  - `matching.rs` — fuzzy matching of spoken names against index keys, with
    exact fractional scores.
  - `levenshtein.rs`, `translit.rs`, `urlenc.rs`, `text.rs` — edit distance
    (a proved metric), Cyrillic transliteration and sound skeletons,
    URL encoding and search templates, text utilities.
  - `sites.rs` — hosts of browser-history URLs and the site index built from
    visit counts.
  - `platform.rs`, `config.rs`, `audio.rs` — values derived from what the OS
    reports, start-up settings, microphone downmixing.
- `tests/` — tests of the library.
- `app/` — the program: Bevy systems and physics, WinAPI calls, the Vosk
  listener, the browser-history reader, the settings file.
