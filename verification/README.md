# esp_start

Firmware for an ESP32 demo board, split into a verified library and a thin binary.

- `src/` is the library, verified with Verus: the LED modes and the fade cycle, the
  button debouncer and its event queue, the periodic-timer counter, the Nokia 5110
  LCD instruction set, framebuffer and drawing (lines, rectangles, rounded shapes,
  circles, text), the Bluetooth LE advertisement parser, scan-result queues and
  device registry, the HTTP client's read handling and retry timing, and the SD
  card's error mapping and clock.
- `tests/` runs the library on concrete values.
- `app/` is the firmware binary: peripherals, interrupts, async tasks, Wi-Fi, the
  network stack, the Bluetooth host and the SD card driver. It hands the library
  plain values (timer counts, times, pin levels, report bytes) and acts on what
  comes back. Wi-Fi credentials come from `ESP_START_WIFI_SSID` and
  `ESP_START_WIFI_PASSWORD` at build time; without an SSID the firmware runs offline.
