# oxc_passes

Passes over the syntax trees of JavaScript and TypeScript programs, with contracts that Verus
proves.

* `ast`, `semantic`, `traverse`, `lint`, `transform`, `sites`: the tree, its scopes and symbols, and
  what the passes share.
* `require_atomic_updates`: reports writes that rest on values read before a suspension.
* `consistent_this`: reports variables that hold `this` under other names than agreed on.
* `member_ordering`: reports members of classes, interfaces and type literals that are out of order.
* `env`: environments that predefine global variables.
* `prefresh`: makes components and contexts exchangeable while a program runs.
* `signals`: makes components and hooks follow the signals that they read.
* `text`, `uid`, `fx`: texts, names that are not used yet, and hash maps.

`src/` is the library. `tests/` reads whole programs with a small parser of its own, runs the passes
and compares what comes out. `app/` reads configurations.
