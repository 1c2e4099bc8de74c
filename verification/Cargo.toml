[package]
name = "bounce_fpv"
version = "0.1.0"
edition = "2021"
publish = false

[dependencies]
display-interface = "=0.5.0"
embassy-futures = "=0.1.2"
embassy-nrf = { version = "=0.10.0", features = ["nrf52840", "time-driver-rtc1", "gpiote"] }
embassy-sync = "=0.8.0"
embassy-time = "=0.5.1"
embassy-usb = "=0.6.0"
embedded-graphics = "=0.8.2"
embedded-hal = "=1.0.0"
embedded-hal-async = "=1.0.0"
embedded-hal-bus = { version = "=0.3.0", features = ["async"] }
embedded-io-async = "=0.7.0"
heapless = "=0.9.3"
libm = "=0.2.16"
log = "=0.4.35"
lora-phy = "=3.0.1"
micropb = { version = "=0.6.0", features = ["container-heapless-0-9"] }
mpu6050-dmp = { version = "=0.6.1", features = ["async"] }
ssd1306 = { version = "=0.10.0", features = ["async"] }
static_cell = "=2.1.1"

# The lock behind the log pipe's mutex, for tests on the host only. On the chip nrf-softdevice's `critical-section-impl`
# is the one provider, and a second one would clash with it.
[dev-dependencies]
critical-section = { version = "=1.2.0", features = ["std"] }
