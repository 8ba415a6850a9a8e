# cands

An implementation of Collins and Stabler 2016, "A Formalization of Minimalist
Syntax" (Syntax 19:1, pp. 43--78), verified with Verus.

You describe a lexicon, a Universal Grammar and a sequence of stages in a small
command language, and `cands` checks whether the stages are a derivation.

## Layout

- `src/` is the verified library.
  - `feature`, `utils`: features, feature sets and finite sets kept without
    repetition.
  - `deriv`: lexical items, tokens, syntactic objects (containment, sisters,
    c-command, occurrences, projections, drawing), stages, workspaces and the
    derivation check (Select, Merge, Transfer).
  - `labels`: trigger features and labels.
  - `ops`: Select, Merge, Transfer and Cyclic-Transfer.
  - `conv`: convergence of a derivation.
  - `cli`: the command language: its grammar and parser, types, type checking,
    evaluation, conversion of values to the objects of the theory, messages,
    and the engine that runs statements.
  - `laws`: properties that hold across the operations, proved.
- `tests/`: tests of the library.
- `app/`: the program around it: reading files and the prompt, logging, and
  rendering syntax errors.

Sets of syntactic objects have no order: a derivation step is checked up to
the order in which the members of sets are written.

A step of a derivation is Select, Merge or Transfer (Cyclic-Transfer
included).  Agree is not among them: the operation itself, and the feature
predicates it rests on (which features are valued, uninterpretable or
match), are nowhere defined, so there is nothing to check a step of Agree
against.
