# gpu_host

The verified core of a GPU host runtime: what host and device agree on, what the kernels
compute, and what the host makes of their results.

- `libc`: errno, memory and string functions for device code, and the device heap.
- `hostcall`: the buffer through which device code calls the host, its listener, its file
  descriptors and its requests.
- `stdio`: standard output and input of device code.
- `scalar`, `half`, `tensor`, `kernels`: the compute kernels, over any arithmetic.
- `reference`, `exact`, `agreement`: the same model computed plainly, and where the kernels
  agree with it.
- `search`: the vector search, from its files to its top matches.
- `warp`: tasks that the lanes of a warp run in step.
- `programs`: programs that run on the device and call the host.
- `inference`: preparing, planning and judging forward passes of GPT-2, and generation.
- `model`, `tokenizer`: GPT-2 weights from safetensors files, and its tokenizer.
- `checks`: what is expected of kernels and programs, and whether it came.

Floating-point arithmetic is not modelled: numeric code is written over the trait `Scalar`,
and its contracts say which operations are applied to which elements, in which order. The
directory `app` has the arithmetic of `f32` and `f64`, the CUDA calls, the threads and the
files.

What is taken on trust stands behind small functions marked `external_body`, in `model`
(safetensors), `tokenizer` (tiktoken-rs) and `text` (UTF-8 validation by the standard
library). Each says what is claimed.
