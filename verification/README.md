# rsomics-anderson-darling

Anderson-Darling goodness-of-fit tests: the one-sample test against a fitted
`norm`, `expon`, `logistic`, `gumbel_l` or `gumbel_r` distribution, and the
Scholz-Stephens k-sample test (midrank or right variant).

## Layout

- `src/` — the verified library (Verus). Observations enter it as the bit
  patterns of IEEE-754 doubles; it holds no floating point. It decides and
  proves:
  - `ieee`: the order key of a double (numeric order, both zeros equal, NaN
    refused);
  - `order`, `search`, `counting`: merge sort, insertion points, de-duplication
    and the counting facts behind them;
  - `onesample`: the refusals of the one-sample test, the stable ascending
    order of the observations, and whether a sample is constant;
  - `ksample`: the refusals of the k-sample test and its rank counts (distinct
    pooled values; observations below, at and at-or-below each, pooled and
    per sample), with the laws that tie them together;
  - `dist`: distribution names, their parsing, and the tabulated significance
    levels and critical values;
  - `input`: the one-value-per-line input format;
  - `error`: the refusals and their messages.
- `app/` — the command-line program and the floating-point formulas (normal
  CDF, distribution fits, the A² statistics, normalization, p-values).
- `tests/` — tests of the library.
