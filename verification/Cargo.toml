[package]
name = "esp32_workshop"
version = "0.1.0"
edition = "2021"

[dependencies]
anyhow = "=1.0.104"
bstr = "=1.13.1"
embassy-executor = "=0.9.1"
embassy-net = { version = "=0.7.1", features = ["tcp", "proto-ipv4", "medium-ethernet"] }
embassy-time = "=0.5.1"
embedded-graphics = "=0.8.2"
embedded-hal = "=1.0.0"
embedded-io = "=0.7.1"
embedded-io-async = "=0.6.1"
esp-alloc = "*"
esp-backtrace = "*"
esp-bootloader-esp-idf = "*"
esp-hal = "*"
esp-idf-svc = "=0.53.0"
esp-idf-sys = "*"
esp-println = "*"
esp-radio = "*"
esp-rtos = "*"
esp32-nimble = "=0.13.0"
libm = "=0.2.16"
log = "=0.4.35"
smart-leds = "=0.4.0"
st7735-lcd = "=0.10.0"
static_cell = "=2.1.1"
ws2812-esp32-rmt-driver = "=0.15.0"
