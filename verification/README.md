# nihongo_run

An endless runner for learning kana and Japanese vocabulary: each gate shows a
word, and the runner answers by passing the sign with its reading. Answers feed
an SM-2 style review scheduler, counted in gate passes.

- `src/` is the verified library (Verus):
  - `sr`: review state per word, the SM-2 update after an answer, and which
    word each gate asks: a due word when there is one, otherwise the word due
    soonest.
  - `stats`: new / due / learning / mature counts and per-card status.
  - `raster`: the integer steps of text baking: canvas layout, glyph
    compositing and the square max-filter that draws outlines.
  - `textbake`: outline radius per kind of text and the bake cache.
  - `supabase`: fetched vocabulary rows to `(hiragana, display)` pairs.
  - `gesture`: the swipe-to-dash gesture state.
- `app/` is the game itself (Bevy, egui, HTTP, fonts, floating-point motion and
  colour), built on the library.
- `tests/` exercise the library on concrete values.
