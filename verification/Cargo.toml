[package]
name = "esp_start"
version = "0.1.0"
edition = "2021"
publish = false

[dependencies]
heapless = "0.8.0"
embedded-sdmmc = "*"
embedded-hal = "*"
embedded-hal-bus = "*"
critical-section = "*"
static_cell = "*"
bt-hci = "*"
trouble-host = "*"
embassy-executor = "*"
embassy-futures = "*"
embassy-net = "*"
embassy-time = "*"
esp-hal = "*"
esp-radio = "*"
esp-rtos = "*"
esp-alloc = "*"
esp-bootloader-esp-idf = "*"
