# colorgetter

A solver for "water sort" puzzles in which some units of water start out with an unknown
color: bottles hold stacked units of colored water, a pour moves the top run of one color
from one bottle onto a matching top (or an empty space) of another, and the puzzle is solved
when every bottle is empty or full of a single color.

The library under `src/` is verified with Verus:

- `colored_water`: the colors, runs of one color, and units whose color may be unknown.
- `bottle`: bottles whose colors are all known, and bottles with units of unknown color at
  the bottom; pouring in and out, setting colors, resizing, the estimate of the pours a bottle
  still needs, and the standard order of bottles.
- `gamestate`: game states of either kind, pours and their validity, equivalence of states
  (the same bottles in any order) and their standard order, the units a state holds, and
  collapsing a state with unknown units into the known states it could be (all of them, or
  random ones).
- `solution`: breadth-first search for the shortest solving pour sequences, rating which
  unknown unit to reveal next, and recording what revealing units shows.
- `ui`: the decisions behind the terminal screens: key handling of the setup, save and
  solution viewer screens, and the layout of a game state on screen.

`app/` is the terminal program around the library: argument handling, loading and saving game
states as JSON, drawing with crossterm, and the loops that wait for keys or for a search
running on another thread.

Bottles and game states hold their units and bottles in `Vec`s. The bounds `MAX_CAP` and
`MAX_BCOUNT` are kept as the type parameters they are, checked where bottles and game states
are made (`try_from_bottles`, the constructors and resizing of bottles) and stated as
preconditions where storage matters. A bounded `heapless::Vec` is not used: Verus refuses to
declare it (it is an alias of a type with more generic parameters than it shows), and keeping it
in an opaque struct of the library would need a specification function generic over the bound to
say what it holds, and the library keeps its uninterpreted specification functions free of
generics.
The map from states to the pours that reach them is a `Vec` of the states found, searched for an
equivalent state, in place of a bidirectional hash map: its keys are game states, generic over
the same bounds, so what it holds could not be named without generics either, and it finds a
state through hand-written `Hash` and `Eq` impls (equality up to the order of bottles) that no
contract could rest on.
