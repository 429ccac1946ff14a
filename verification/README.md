# mllib

Integer inference for two neural networks (an MNIST convolutional network
and the DLRM recommendation model), written for zero-knowledge virtual
machines, together with the Merkle-path and ECDSA checks of the same
benchmark suite. The library in `src/` is verified with Verus: every public
function states, over nested sequences, exactly what it returns, and on which
inputs it runs without reading past its inputs or overflowing `i32`.

- `src/util.rs`: views of nested vectors, rounding toward zero, index lemmas.
- `src/processing.rs`: the model description (layers and tensors).
- `src/shape.rs`: transpose, concatenation, reshaping.
- `src/helper.rs`: tensor lookup and row-major unfolding.
- `src/op.rs`: convolution, pooling, scaling, bias, fully connected layers.
- `src/layer_checks.rs`: deciders for the conditions under which the
  convolutional network's layers run.
- `src/mnist.rs`, `src/dlrm.rs`: the two models; `mnist_checked` and
  `dlrm_checked` run a model read from outside only when it can run, and
  return `None` exactly when it cannot.
- `src/merkle.rs`: Keccak-256 Merkle paths (`sha3`).
- `src/ecdsa.rs`: secp256k1 signatures (`k256`).
- `src/risc0_ml.rs`, `src/sp1_ml.rs`: the DLRM inputs of the two zkVMs.
- `app/`: the zkVM hosts and guests, and JSON loading.
