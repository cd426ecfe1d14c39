# Hearth

The logic of a local inference engine for language and image models, written and proved in Verus.

* `src/` is the library.  It holds the GGUF container, tokenisation and chat templates, model
  configuration and loading, the key/value cache, the integer side of the quantised formats, the
  plans of forward passes on the processor and on a graphics device, the sharing of work among
  threads, text generation as a state machine, the choices of the sampler, and the layout side of
  image generation.  Real numbers appear there as IEEE-754 bit patterns.
* `tests/` runs the library on concrete values.
* `app/` is the engine around it: files, threads, the device, and all floating-point arithmetic.

Functions whose names begin with `law_` state what holds of the library as a whole.
