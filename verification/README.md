# parser

The state keeping of an on-chain data parser, with its contracts proved by
Verus.

- `src/parse`: a sparse vector that stores only the indexes that were set and
  the gaps between them; output indexes and their integer keys.
- `src/states`: what each cohort of outputs and of addresses holds (supply,
  outputs, amounts by price paid, liquidity split), the days and blocks kept,
  and the amount of each unspent output.
- `src/actions`: parsing a block (its outputs, inputs, fees and sats
  destroyed, over all its transactions), checked or on a chain known to be
  consistent; the day of a block and the decisions of the walk over the
  blocks, with what holds over a whole walk; and the choice of where parsing
  resumes.
- `src/datasets`, `src/databases`: where datasets and databases stop being
  safe, and the pending writes of a database.
- `app`: the walk over the blocks around the library's decisions, fetching
  prices over the network, dates, error reports, the floating-point
  unrealized and realized states, and the serialized forms of the library's types.
- `tests`: tests of the library.
