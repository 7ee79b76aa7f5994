# compositefont

Composite fonts for AviUtl2 text objects: each character is drawn with the
font and the size, tracking and baseline adjustments that its profile assigns
to the character's class (kanji, kana, Latin, digits, symbols, ...), with
fallback fonts where the first choice lacks the glyph.

The library under `src/` is written in Verus and verified:

- `classify`, `codepoint`: character classes and single-codepoint input.
- `profile`, `document`: profiles, their adjustments and fallbacks, the
  profile store and the rules a saved profile document must follow.
- `fallback`, `coverage`: the fallback search as a state machine, and the
  selection driven by a glyph-coverage query.
- `control_text`: the parser for AviUtl2 control text (the `<s..>`, `<@..>`
  and `<#..>` tags between plain text), with the format state it tracks.
- `runs`, `layout`, `decorate`: runs of equally resolved characters, the
  per-line layout view, and the generation of the decorated control text.
- `editor`: the profile editor's model (create, rename, delete, update).
- `staging`: planning which font files are copied for the next launch.
- `text`: string helpers (decimal output, trimming).

`app/` holds what Verus does not see: the host plugin entry points, the Win32
editor window, DirectWrite glyph coverage, JSON storage, the floating-point
metrics and the file-system walk. `tests/` exercises the library through its
public API.
