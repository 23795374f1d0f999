# mabd

Multi-affine-body dynamics for ball-joint nets, verified with Verus.

A net of `N x N` hubs is joined by rods through ball joints. Every body is affine and carried
by four control points. A step predicts where velocity and gravity take the points, then runs
rounds of co-rotated shape projection, a direct joint solve and contact projection. Three demos
use it: a net that hangs from one edge, a net draped over a cylinder, and a net that catches
three balls.

- `src/` is the solver. It runs on any number type that implements `scalar::Scalar`, whose
  operations are functions of their operands and nothing more. What the functions promise
  therefore holds to the last bit, in floating point as well as in the fixed-point numbers of
  `fixed`. One operation is no such function everywhere: the precision of `powf` on `f32`
  and `f64` is not fixed, so in floating point what rests on a power, the damping of the steps,
  holds as far as the machine gives equal powers for equal operands.
- The modules whose names end in `_laws`, with `laws` and `exact`, relate the functions to one
  another. `field`, `order` and `rotation_laws` say what arithmetic that does not round is, for
  the laws that hold only there: that the joint solve closes every joint and moves the bodies no
  more than it must, that a contact parts what it pushes, that the boxes around parts of the
  net change no contact, that the gradient of a rod is the matrix its rest shape went through,
  that the closest rotation is a rotation.
- `tests/` runs the solver on double precision, on fixed-point numbers and on fractions.
- `app/` is the viewer: window, input, drawing, threads and the rigid-body engine that the
  demos can be compared with. It needs Bevy with its window and rendering features; in a browser
  the engine is loaded by a script, `physx_bridge.js`, which is not part of this crate.
