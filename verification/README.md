# stratum_dsp

Audio analysis for DJs: tempo, key, beat grid, and how sure each of them is.

The library is verified with Verus. It computes with its own binary32 numbers
(`src/float.rs`), which are specified down to the last bit, so that its contracts
say exactly which number comes out. What only machine floats can do, Fourier
transforms and functions such as `exp` and `log2`, stands outside: the library says
what they are applied to and takes the results as arguments.

| Where | What |
| --- | --- |
| `src/float.rs`, `src/rounding.rs`, `src/float_laws.rs`, `src/float_sizes.rs` | numbers, rounding, and their laws |
| `src/sorting.rs`, `src/statistics.rs`, `src/vector.rs`, `src/spectrogram.rs` | sorting and sums over numbers |
| `src/number_text.rs`, `src/shortest_decimal.rs`, `src/wide_nat.rs`, `src/text.rs` | numbers in messages |
| `src/features/onset` | onset detectors and their vote |
| `src/features/period` | tempo from onsets and from tempograms |
| `src/features/chroma` | chroma, harmonic profiles, tuning |
| `src/features/key` | key detection |
| `src/features/beat_tracking` | beat grid, meter, tempo along the track |
| `src/pipeline` | what a whole analysis decides |
| `src/analysis`, `src/config.rs`, `src/error.rs` | results, settings, errors |
| `src/ml` | where models will be run |
| `app` | a whole analysis with machine floats |
| `tests` | tests on concrete values |

The files named `laws.rs` or ending in `_laws.rs`, and the public `lemma_` functions
next to the definitions, state what holds of every input.
