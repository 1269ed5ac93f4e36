# astesiabot_rust

The logic of an Arknights helper bot, written in Verus and proved against
its contracts: recruitment-tag matching and combination search, the
frame-kill catalog and sheet search, operator, item, skill and zone name
tables, operator cost and combat tables, and the stage side of the
sanity-value calculator: which stages count as main or event stages, which
drop records count for them, the stage categories and their starting
choice, the decisions of a stage search, and the layout of the
mastery-cost statistics.

- `src/` is the verified library. Each module states what it computes as
  spec functions over plain values (`Seq`, `Map`-like association lists,
  integers) and proves its executable functions against them. Numbers that
  the logic only carries (drop rates, costs, attack values) are of a type
  parameter chosen by the caller.
- `tests/` runs the library on concrete values.
- `app/` is the program around it: fetching and parsing the game tables,
  reading the data files, floating-point formatting and the recruitment
  command-line entry point.

Outside the library: the sanity-value solver itself (a floating-point linear
system solved with nalgebra), the floating-point efficiency ranking of
stages and materials, the operator cost statistics and item-cost sums, the
chat bot and the web API. The library supplies the integer and text
decisions these are built on.
