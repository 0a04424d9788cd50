# flyctrl

A flight controller for a multirotor whose logic is verified with Verus: numbers, message
bus, telemetry and commands, flight modes, failure detection, guidance, controllers,
estimators, sensor drivers and tasks.

## Layout

- `src/single` holds IEEE-754 single precision numbers as bit patterns. Addition,
  subtraction, multiplication, division, square root, comparison and conversion are proved
  to be correctly rounded; `laws.rs` holds what follows for callers, such as that rounding
  keeps the order.
- `src/bus.rs`, `src/ring.rs` are the message bus and the bounded queues under it.
- `src/comm` is the message layer: frames with checksums, messages, telemetry, the link and
  the bridge to a ground station.
- `src/flightmode.rs`, `src/fdir.rs`, `src/guidance.rs`, `src/filter.rs` are the modes, the
  failure detection, the trajectories and the filters.
- `src/controller` holds the control laws, `src/estimator` the estimators.
- `src/sensors`, `src/flyctrl` hold what the drivers and tasks decide.
- `src/sitl.rs` judges simulated runs.
- `app` is the program around it: devices, the machine's sines and arctangents, and the
  loop against a simulator.

## Angles

Sines, cosines and arctangents are not part of the library. A function of the library that
needs one is cut into stages: a stage returns the angle, or the two arguments of the
arctangent, and the next stage takes the result as an argument. Its contract says what it
does for every value of that argument.
