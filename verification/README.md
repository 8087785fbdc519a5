# ukebox

A ukulele chord toolbox whose behaviour is stated in contracts and proved:
chord names and chord types,
chord voicings on the fretboard, chord charts, chord names for fret patterns
and voice leading for chord sequences.

## Layout

- `src/` is the library. Every function carries a `requires` / `ensures`
  contract over spec functions and views, and Verus proves it.
  - `pitch_class`, `staff_position`, `interval`, `note`: notes and their
    names, intervals, transposition.
  - `chord_type`, `chord`, `chord_sequence`: chord types with their intervals
    and symbols, chords with their names and voicings, chord sequences.
  - `fret_pattern`, `voicing`, `fingering`, `distance`: how chords are played
    on the four strings, which fingers press them and how far apart two
    voicings are.
  - `finger_order`, `voicing_order`: how fingers are laid on the strings;
    that every way to play a chord is among its voicings, and that they come
    in strictly increasing order.
  - `chord_chart`: the text chart of a voicing.
  - `chord_shape`: movable chord shapes.
  - `voicing_graph`: voice leading, a graph of the voicings of a chord
    sequence kept in a `petgraph` graph; the graph library is reached through
    a few wrappers whose contracts are trusted.
  - `combinations`, `text`: Cartesian products, strings and characters.
- Public proof functions named `law_...` state properties of the library as
  a whole, such as that every chord name is read back as its chord, or that
  the first voice leading suggested is the lightest one.
- Notes are compared by the pitch class they sound (C# and Db are the same
  note), as chords and voicings need: a voicing built from frets spells its
  notes sharp, and still plays chords written with flats.
- The library follows the chord, voicing and voice-leading API; the older
  ukulele, string and diagram types are not part of it.
- `tests/` runs the library on concrete values.
- `app/` is the command line program (`chart`, `name`, `voice-lead`,
  `chords`), built with `clap`.
