# picrawler

Control software for a twelve-servo crawling robot on a Raspberry Pi robot HAT.

- `src/` is the verified library: HAT pin numbers, the ADC and PWM register
  protocol (`adc`, `bus`, `pwm`), the servo group with its emergency stop
  (`servo_group`), the configuration types and leg assembly (`config`, `robot`),
  the telemetry snapshot holder (`telemetry`) and the dashboard's request
  routing, content types and response heads (`webui`, on top of `text`).
- `app/` is the program around it: I2C and GPIO access, the servo motion
  ramps (floating point), YAML and JSON (de)serialisation, and the sockets.
- `tests/` exercises the library on concrete values.
