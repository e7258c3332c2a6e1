# esp_guessing

Logic of an ESP32 board that serves a number-guessing game over a WebSocket,
times an ultrasonic sensor's echoes to measure distance, reads a slider
through the ADC and shows its state on an SH1106 panel and an LED.

- `src/` is the verified library: the game (`game`), reading guesses
  (`number`), the per-session protocol (`session`) and its texts (`render`),
  numbers and ordinals as text (`text`), distance and slider readings
  (`sensor`), the main loop's plan and the Wi-Fi channel choice (`monitor`),
  and the served page (`page`).
- `app/` is the firmware around it: peripherals, Wi-Fi, the HTTP/WebSocket
  server and the panel driver.
- `tests/` runs the library on concrete values.
