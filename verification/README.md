# rhythm_engine

The discrete logic of a rhythm game engine, verified with Verus.

The game itself works on floating point times, curves and colours; those parts
live in `app/`. The library in `src/` holds what decides rather than measures:

- `harmonizer::arranger`: channel coverage ranges, their joining, the
  condensed form kept by `ChannelCoverage` (repeats dropped, ranges ordered by
  start, neighbours joined through `itertools`' `coalesce`), the channels a
  coverage lists, and source picking for delegated channels.
- `hit`: how sheets respond to hits (commence, switch, toggle, follow), their
  delegation and where they seek to, generic over the time type.
- `automation::hit_response`: the same for automation clips that redirect
  their output.
- `play::chart` and `foundation::chart::playlist`: chart item responses, their
  time translation and output routing.
- `automation::anchor`: sub wave mode cycling.
- `sheet`: per-channel tables.

Each module states its laws as public proof functions next to the code.
