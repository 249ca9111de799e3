# lotus_racer

A retro pseudo-3D arcade racer in the style of early-1990s Amiga racing
games, split into a verified library and a thin program around it.

## Layout

- `src/` — the library, written in Verus and verified:
  - `framebuffer`: the deduplicating 256-color palette and the indexed
    software framebuffer (pixels, lines, rectangles, RGBA conversion).
  - `font`, `hud`: the 3x5 bitmap font, text drawing and text widths.
  - `sprite`, `assets`: character-map sprites, the game's car and scenery
    maps, and registering all asset colors in the palette.
  - `background`, `theme`: sky band registration, hill strip drawing and
    palette-cycled skies.
  - `track`: the seeded scenery scatter along a track.
  - `standings`: the finishing order of a race.
  - `menu`, `keys`, `cli`: the screen flow, key and control mapping, sound
    cues, and command-line parsing.
  - `png`: PNG framing around the zlib stream (CRC-32 and zlib come from
    `crc32fast` and `flate2`).
  - `circuit`, `lane`: screen flow, held-key controls, lap count and place
    of the two smaller racer prototypes.
- `app/` — the program: SDL2 window and input, rodio sound, the
  floating-point driving physics, road projection and rendering, best-lap
  saving, and the headless `--shot` / `--sim` modes. The prototypes start
  with `--spline`, `--lanes` and `--quad`.
- `tests/` — tests of the library on concrete values.
