# aor1

An interpreter for a small stack language in the style of Aocla, written in
Verus.  The functions of the library carry contracts that Verus proves, but
for four small trusted wrappers around std calls whose contracts Verus
takes as given: `debug_string` (`format!("{:?}")` on a string),
`char_is_alphanumeric`, `char_lowercase` and `text_to_lowercase`.

## The language

A program is a sequence of values separated by runs of white space
(spaces, tabs, line ends); white space may also lead and trail, so a
program may be laid out over indented lines:

* integers `42`, strings `"hello"`, symbols `'name`;
* the operators `+ - * / > <` and `<= >= == !=` (they pop the top as
  `op1` and the value below as `op2` and compute `op2 - op1` and so on:
  `10 3 -` gives `7`, `10 3 >` gives `1`, `3 3 ==` gives `1`);
* captures `(a b)` that pop one value per name and bind the names in the
  order in which the values were pushed: `10 20 (x y)` binds `x` to 10 and
  `y` to 20; names are made of ASCII letters, digits, `_` and `-`;
* variable reads `$a`, and words (a letter or `_`, then name characters),
  which push the value of the variable or run it when it is a procedure;
* quoted lists `[...]` (`[]` is the empty list), pushed as they are;
* booleans `#t` and `#f`, and quoted tuples `'(a b c)`, pushed as they
  are;
* the words of the built-in commands: `eval`, `if`, `ifelse`, `while`,
  `def`, `dup`, `swap`, `first`, `rest`, `cat`, `len`, `map` and
  `printnl`.

A test (of `if`, `ifelse`, `while`) counts as true when it leaves the
integer 1 or `#t`; the comparison operators give the integers 1 and 0.
`printnl` adds a line to the output that `run_program` collects; `interp`
runs a program without keeping it.  Variables live in one environment
shared by every procedure.

## Layout

* `src/value.rs` – the values (`AoType`), their model (`Val`) and the faults.
* `src/lexer.rs` – the grammar as spec functions on characters, and the
  lexer (`l_ao_all`) proved against it.
* `src/arith.rs` – the operators.
* `src/machine.rs` – the evaluator's semantics as spec functions and the
  evaluator (`interp`, `interp_ao_type`, `call_interp`) proved against it.
* `src/display.rs` – the text by which the editor shows a value.
* `src/laws.rs` – laws that relate several evaluations.
* `src/output_laws.rs` – laws on printed lines: they never steer a run, so
  separate runs chain into one.
* `src/editing.rs` – what each key of the editor does.
* `src/ao2.rs`, `src/ao3.rs`, `src/demo.rs` – earlier stages of the
  language.
* `src/uri.rs` – readers for the pieces of an http URI.
* `app/` – the terminal editor and the demonstration programs.
* `tests/` – tests on concrete programs.
