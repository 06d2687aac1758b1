# cloud_lights

Lights that follow motion. Accelerations arrive over the network; their jerk
chooses how bright the colour clouds play; the colours go to a board over a
serial link as text messages.

- `src/` is the verified library: the light messages and the decimal text in
  them (`arduino`, `render`, `decimal`), the rolling buffer of readings
  (`buffer`), patterns that repeat without end (`cycle`), and the brightness
  and colour clouds with the reader of brightness pattern files (`clouds`).
- `app/` is the program around it: the serial link, the network, the window
  and its keys, the JSON pattern files, and the floating-point arithmetic on
  readings and colours.
- `tests/` runs the library on concrete values.
