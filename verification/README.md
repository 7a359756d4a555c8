# plow_logic

The decision logic of plow, a JavaScript/TypeScript project analyzer,
written in Verus and proved against its contracts.

- `src/` is the verified library. It covers the following, each with a contract and with proof functions for the laws that hold across calls:
  - the suffix array and file boundaries of clone detection;
  - the CSS and markup tokenizer;
  - script-reference parsing;
  - change anchors and walkthrough validation;
  - runtime-coverage verdicts and change scoping;
  - coverage gaps;
  - `--group-by` health grouping;
  - unused Svelte events;
  - report text;
  - the cloud request;
  - the PR comment marker;
  - config fixability;
  - what each framework plugin does with the values it reads from a config.
- `tests/` runs the library on concrete inputs.
- `app/` is the unverified rim:
  - JSON wire types;
  - the HTTP exchange;
  - file-system walks;
  - the progress spinner;
  - the report columns that format floating-point numbers.
