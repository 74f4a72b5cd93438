# json_instance

Borrowed views of JSON instances, JSON Schema equality between them, and the
`oneOf` keyword over them, verified with Verus.

An `InstanceRef` looks at a value where it is: in an `OwnedValue`, in a value that
`jiter` parsed, or in a graph of Python objects. Every view offers the same
questions, and every answer is stated in terms of the value itself, so that two
views of one value give the same answers. The exceptions are conversions of an integer
that `jiter` holds as a big integer: `as_i64` and `as_u64` give nothing for it, whatever
its size, and `as_f64`, where it has more than 96 binary digits, may look at the 64
highest only; and `as_f64` of a Python integer beyond all finite floats gives nothing.

## Layout

- `src/value.rs`, `src/integer.rs`, `src/float64.rs`, `src/text.rs`: the data model.
  Floats are held as their bit patterns and compared in integer arithmetic.
- `src/serde_values.rs`, `src/jiter_values.rs`, `src/python.rs`,
  `src/python_snapshot.rs`, `src/python_capture.rs`: values of `serde_json`, `jiter`
  and Python, read into the data model.
- `src/instance.rs`, `src/number.rs`, `src/array.rs`, `src/object.rs`: the views.
- `src/owned.rs`: owned values made from views.
- `src/well_formed.rs`: tests of well-formedness, for callers outside of the library.
- `src/big_rounding.rs`: the float nearest to an integer of any size.
- `src/equality.rs`, `src/materialize.rs`, `src/rounding.rs`, `src/one_of_laws.rs`:
  laws, each a public proof function.
- `src/paths.rs`, `src/compiler.rs`, `src/error.rs`, `src/evaluation.rs`,
  `src/validator.rs`: what the keyword works with.
- `src/discriminator.rs`, `src/one_of.rs`, `src/single_one_of.rs`: the keyword.
- `app/`: iterators, addresses and `serde_json` values around the library.

## What is trusted

Calls into `serde_json`, `jiter`, `num-bigint`, `num-cmp`, `ahash` and `pyo3` stand in
functions marked `external_body`. The doc comment of each names the call and says
what is taken on trust.
