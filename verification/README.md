# cl

A store of byte buffers in OpenCL global arrays, verified with Verus.

- `src/` is the verified library. It decides everything the store does:
  which block and which global array a buffer goes to (`ocl_v7`, `ocl_v5`),
  the keys that name them and how those keys are read back, the OpenCL
  program source for every layout (`ocl_v1`, `ocl_v3`, `ocl_v6`, `ocl_v7`),
  how buffers are laid out for the kernels and decoded from them, how a
  buffer is cut into pipe packets (`ocl_v2`, `process`), and the file
  layers that map paths to arrays (`ocl_fs`, `ocl_fs_2`, `ocl_fs_3`). It
  also holds the small building blocks of the command-line programs (`cli`),
  a runtime builder (`rs_core`) and the summing helpers (`rs_macro`,
  `rs_extra`, `cool`).
- `app/` is ordinary Rust around it: the OpenCL devices, kernels and
  buffers, the process-wide state of the file layers, directory walks, the
  JavaScript binding, dynamic libraries, threads, and the programs' `main`
  bodies.
- `tests/` runs the library on concrete values.
