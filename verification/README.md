# struqture_spins

Spin operators and their products, verified with Verus.

A product such as `0X2Z` (X on spin 0 times Z on spin 2) is a list of
`(spin, single-site operator)` entries, kept in order of the spin and free of
identities. Three kinds of products are offered: Pauli products (`X`, `Y`,
`Z`), decoherence products (`X`, `iY`, `Z`) and plus/minus products (`+`,
`-`, `Z`). The complex prefactors that their algebra produces are powers of
`i`, or such powers over powers of two, and are carried exactly (`Phase`,
`Prefactor`).

## Layout

- `src/`: the verified library.
  - `items.rs`: the sequence model of a product and its lemmas (setting a
    spin, looking one up, the stable sort, multiplication spin by spin).
  - `single.rs`: the single-site operators, their multiplication tables and
    the conversions between the bases.
  - `pauli_product.rs`, `decoherence_product.rs`, `plus_minus_product.rs`:
    the product types, stored in a `tinyvec::TinyVec`.
  - `text.rs`: the string form and its parser.
  - `matrix.rs`: matrix entries of products, row by row, and the proof that
    each row's entry is the one nonzero element of the tensor product of the
    operators' matrices.
  - `tables.rs`: the single-site multiplication tables are the products of
    the operators' matrices.
  - `expand.rs`: products rewritten in another basis; `basis.rs`: writing
    them back gives the product again.
  - `order.rs`, `phase.rs`, `operate.rs`, `error.rs`.
  - `laws.rs`: properties that relate the operations to each other.
- `tests/`: tests of the library.
- `app/`: what is left to ordinary Rust: complex floating-point numbers,
  serde serialization, and the sparse matrices that come from summing, over
  slices of `(product, coefficient)` terms, the exact entries that the
  library computes, with floating-point coefficients.

Operators, Hamiltonians and noise models (sums of products with symbolic or
floating-point coefficients) and the mappings of spin products to fermions
are not part of this crate.
