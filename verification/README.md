# bounce_fpv

The verified core of an FPV head-tracking camera system for RC trucks. You move your head in a pair of FPV goggles; a
gimbal on the truck pans and tilts the camera to match, and the truck reports ground speed and distance/bearing from its
launch point back over the same LoRa link.

The library is written in [Verus](https://github.com/verus-lang/verus): every function states what it returns or changes,
and the statement is proved. It owns no hardware. The tasks of each node wait on edges, the radio, the clock and the UART;
what they decide in between is in `src/`.

| Module                                   | What it holds                                                                   |
|------------------------------------------|---------------------------------------------------------------------------------|
| `ppm_decoder`                            | PPM frames from edge intervals                                                  |
| `link_id`                                | binding phrase to link-id and CRC; framing                                      |
| `proto`                                  | the `Control` and `Telemetry` messages on the wire                              |
| `lora_link`                              | radio settings, link-health state machine                                       |
| `gps`, `geo`                             | NMEA reader; launch point and navigation                                        |
| `servo`, `imu`                           | pulse widths to PWM duty; boot home sampling                                    |
| `display`, `text`                        | panel layouts and what a panel is known to show; numbers as text                |
| `goggle`, `truck`                        | the decisions of the two nodes                                                  |
| `lora_ping`, `ppm_diag`, `truck_diag`, `nrf_spike` | bring-up programs                                                     |
| `applog`                                 | the log pipe and the retained panic message                                     |
| `board`                                  | the pin map                                                                     |
| `buffer`, `ascii`                        | fixed-capacity buffers; decimal numbers in ASCII fields                         |

What holds of several functions together is stated by the public proof functions whose names begin with `law_`.

Fixed-capacity buffers come from `heapless`, varints from `micropb`, the log's queue from `embassy-sync`. What is believed
of them without proof stands in the contracts of the functions marked `external_body` in `buffer`, `proto` and `applog`.

`embassy-sync`'s mutex needs a `critical-section` provider. On the chip that is `nrf-softdevice`'s, and no other; the tests
run on a host without it, so they link `critical-section`'s own `std` one, as a dev-dependency.

`app/` is the firmware around the library: peripherals, radio, panel, tasks, and the floating-point angles. `tests/` runs
the library on concrete values.

Build both halves of a pair with the same `BINDING_PHRASE`; `PROGRAM` picks the program.
