# wrecc

Two parts of a C compiler, verified with Verus: the folding of constant
expressions and the generation of x86-64 assembly.

* `src/common` holds what both parts share: tokens, types, errors and scopes.
* `src/parser` folds constant expressions. `fold_spec.rs` says what becomes of
  an expression and `fold.rs` computes it. `operator_laws.rs` states what holds
  of single operators, `fold_laws.rs` what holds of every expression, and
  `fold_defined_laws.rs` when folding is defined.
* `src/codegen` generates assembly from checked statements. `model.rs` says what
  is emitted for each construct, `codegen.rs` emits it. The laws are in
  - `frame_laws.rs` and `statement_laws.rs`: what stays as it was,
  - `register_laws.rs` and `statement_register_laws.rs`: scratch registers,
  - `label_text.rs`, `label_laws.rs` and `statement_label_laws.rs`: every label is
    defined at most once,
  - `progress_laws.rs` and `statement_progress_laws.rs`: when code can be
    generated,
  - `memory_laws.rs`: which values are in memory when they are stored,
  - `stack_laws.rs`: stack frames and calls,
  - `error_laws.rs`: which errors there are.
* `app` writes the generated assembly to disk.

Checked programs are taken for granted: where an expression or a statement is
none that passes checking, or needs more scratch registers than there are, the
specifications say `Stuck`, and the functions must not be called.

The scratch registers are `%r8` to `%r11`. The first two of them are also the
registers of the fifth and the sixth argument: with more than four arguments, a
call can overwrite an argument that is already in its register, or a value that
is in use in `%r8` or `%r9`. `law_argument_registers` says that up to four
arguments leave the scratch registers alone.

The value of an assignment through a pointer stays where it was stored. Where it
is itself stored in a variable, as in `x = (*p = 3)`, the `mov` for it has both
operands in memory. `law_value_place` says which expressions have such a value.
