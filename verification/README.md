# monjolo

A deterministic runtime for continuous dynamic process simulation, written and proved in Verus.

A plant is made of components that trade signals by name. A component offers keys and needs keys; the
registry finds a place for every key, in whatever order the components come. In a tick the commands
from outside are written, the physics takes one step of Runge and Kutta's method, and the result is
confirmed as a whole. Sensors read confirmed values only. A supervisor may pause, pace, replace or end
the plant, and an OPC UA server may show it to the outside.

Signal values are the bit patterns of doubles. The library decides which operation is applied to which
value; the arithmetic on doubles is handed in.

## Layout

- `src/` is the library. Every public function has a contract, and Verus proves it.
  - `state_registry`, `links`, `catalog`, `resolution`: slots, handles, requests, and what holds of them
  - `dynamic_model`, `component`, `order`: models, their composition, and the order of evaluation
  - `numerical_method`, `arithmetic`, `double`: integration over doubles
  - `sensor`, `actuator`, `controller`, `sharing`: what is read, commanded and controlled
  - `plant`, `simulation`, `runtime`, `runtime_control`: the tick, how a plant comes up, and who replaces it
  - `adapter`, `io_image`, `table`: the boundary to the outside
  - `snapshot`, `text`, `chemistry`: configuration, text, and the properties of mixtures
  - `declaration`: components that are declared by annotated items instead of code
- `tests/` runs the library on concrete values.
- `app/` is ordinary Rust around it: threads, files, the OPC UA server and a client, the arithmetic and the
  noise of doubles, and the code that annotations stand for.

## What is trusted

The library calls the `syn`, `proc-macro2` and `toml` crates through a few functions whose contracts are
stated and not proved: `declaration::source` and `snapshot`. Of the standard library, the same holds of
the debug format of text in `order` and of `Rc::clone` in `sharing`. Each of these functions says what is claimed of the code behind it.
