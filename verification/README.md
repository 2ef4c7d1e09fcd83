# dualsense_input

Reads PS5 DualSense controller input (buttons, D-pad, analog triggers,
sticks with dead-zone, touchpad, gyroscope, accelerometer) with configurable
thresholds and exclusion filters.

- `src/` is the verified library: the button encoding (`types`), the
  configuration and its builder (`config`), the events (`event`), and the
  decoder that turns raw HID reads into events and picks the device to open
  (`controller`). Its contracts state exactly which events each report gives
  and what the decoder remembers; the laws at the end of `controller.rs`
  state what holds of every report.
- `app/` opens the controller through `hidapi`, reads reports in a blocking
  loop (`listen`) or a non-blocking one (`poll`), and hands the bytes to the
  decoder.
