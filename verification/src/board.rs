//! Pin map of the board (Nice!Nano v2, nRF52840): the single source of truth for every GPIO assignment.
//!
//! The chip routes any function to any GPIO, so the assignments are free choices within the exposed castellated pads.

use vstd::prelude::*;

verus! {

/// A GPIO pad: `P{port}.{pin:02}`.
#[derive(Copy, Clone, Debug, PartialEq, Eq, Structural)]
pub struct Pad {
    pub port: u8,
    pub pin: u8,
}

/// Port of the PPM input.
pub const PPM_PORT: u8 = 0;

/// Pin of the PPM input.
pub const PPM_PIN: u8 = 2;

/// Port of the button.
pub const BUTTON_PORT: u8 = 1;

/// Pin of the button.
pub const BUTTON_PIN: u8 = 0;

/// Port of the pan servo.
pub const SERVO_PAN_PORT: u8 = 0;

/// Pin of the pan servo.
pub const SERVO_PAN_PIN: u8 = 22;

/// Port of the tilt servo.
pub const SERVO_TILT_PORT: u8 = 0;

/// Pin of the tilt servo.
pub const SERVO_TILT_PIN: u8 = 24;

/// Port of the LoRa SPI clock.
pub const LORA_SCK_PORT: u8 = 1;

/// Pin of the LoRa SPI clock.
pub const LORA_SCK_PIN: u8 = 13;

/// Port of the LoRa SPI data out.
pub const LORA_MOSI_PORT: u8 = 0;

/// Pin of the LoRa SPI data out.
pub const LORA_MOSI_PIN: u8 = 11;

/// Port of the LoRa SPI data in.
pub const LORA_MISO_PORT: u8 = 1;

/// Pin of the LoRa SPI data in.
pub const LORA_MISO_PIN: u8 = 11;

/// Port of the LoRa chip select.
pub const LORA_NSS_PORT: u8 = 0;

/// Pin of the LoRa chip select.
pub const LORA_NSS_PIN: u8 = 29;

/// Port of the LoRa reset.
pub const LORA_RESET_PORT: u8 = 0;

/// Pin of the LoRa reset.
pub const LORA_RESET_PIN: u8 = 6;

/// Port of the LoRa interrupt.
pub const LORA_DIO0_PORT: u8 = 0;

/// Pin of the LoRa interrupt.
pub const LORA_DIO0_PIN: u8 = 8;

/// Port of the I2C data.
pub const I2C_SDA_PORT: u8 = 0;

/// Pin of the I2C data.
pub const I2C_SDA_PIN: u8 = 17;

/// Port of the I2C clock.
pub const I2C_SCL_PORT: u8 = 0;

/// Pin of the I2C clock.
pub const I2C_SCL_PIN: u8 = 20;

/// Port of the GPS data in.
pub const GPS_RX_PORT: u8 = 1;

/// Pin of the GPS data in.
pub const GPS_RX_PIN: u8 = 4;

/// Port of the GPS data out.
pub const GPS_TX_PORT: u8 = 1;

/// Pin of the GPS data out.
pub const GPS_TX_PIN: u8 = 6;

/// The complete set of pads this firmware uses, by subsystem.
#[derive(Copy, Clone, Debug, PartialEq, Eq, Structural)]
pub struct BoardPins {
    /// PPM input from the goggles' HT OUT jack (goggle node).
    pub ppm: Pad,
    /// Push button, active-low to GND with internal pull-up.
    pub button: Pad,
    /// Pan servo PWM output.
    pub servo_pan: Pad,
    /// Tilt servo PWM output.
    pub servo_tilt: Pad,
    /// LoRa SPI clock.
    pub lora_sck: Pad,
    /// LoRa SPI data out.
    pub lora_mosi: Pad,
    /// LoRa SPI data in.
    pub lora_miso: Pad,
    /// LoRa chip select.
    pub lora_nss: Pad,
    /// LoRa reset, active-low.
    pub lora_reset: Pad,
    /// LoRa interrupt input.
    pub lora_dio0: Pad,
    /// I2C data: MPU-6050 and panel.
    pub i2c_sda: Pad,
    /// I2C clock.
    pub i2c_scl: Pad,
    /// GPS UART, the module's NMEA stream.
    pub gps_rx: Pad,
    /// GPS UART to the module, for configuration only.
    pub gps_tx: Pad,
}

impl BoardPins {
    /// The pads in a row.
    pub open spec fn pads(self) -> Seq<Pad> {
        seq![
            self.ppm,
            self.button,
            self.servo_pan,
            self.servo_tilt,
            self.lora_sck,
            self.lora_mosi,
            self.lora_miso,
            self.lora_nss,
            self.lora_reset,
            self.lora_dio0,
            self.i2c_sda,
            self.i2c_scl,
            self.gps_rx,
            self.gps_tx,
        ]
    }
}

/// The pin map of the board.
pub open spec fn nice_nano() -> BoardPins {
    BoardPins {
        ppm: Pad { port: PPM_PORT, pin: PPM_PIN },
        button: Pad { port: BUTTON_PORT, pin: BUTTON_PIN },
        servo_pan: Pad { port: SERVO_PAN_PORT, pin: SERVO_PAN_PIN },
        servo_tilt: Pad { port: SERVO_TILT_PORT, pin: SERVO_TILT_PIN },
        lora_sck: Pad { port: LORA_SCK_PORT, pin: LORA_SCK_PIN },
        lora_mosi: Pad { port: LORA_MOSI_PORT, pin: LORA_MOSI_PIN },
        lora_miso: Pad { port: LORA_MISO_PORT, pin: LORA_MISO_PIN },
        lora_nss: Pad { port: LORA_NSS_PORT, pin: LORA_NSS_PIN },
        lora_reset: Pad { port: LORA_RESET_PORT, pin: LORA_RESET_PIN },
        lora_dio0: Pad { port: LORA_DIO0_PORT, pin: LORA_DIO0_PIN },
        i2c_sda: Pad { port: I2C_SDA_PORT, pin: I2C_SDA_PIN },
        i2c_scl: Pad { port: I2C_SCL_PORT, pin: I2C_SCL_PIN },
        gps_rx: Pad { port: GPS_RX_PORT, pin: GPS_RX_PIN },
        gps_tx: Pad { port: GPS_TX_PORT, pin: GPS_TX_PIN },
    }
}

/// The pin map of the board.
pub fn board_pins() -> (pins: BoardPins)
    ensures
        pins == nice_nano(),
{
    BoardPins {
        ppm: Pad { port: PPM_PORT, pin: PPM_PIN },
        button: Pad { port: BUTTON_PORT, pin: BUTTON_PIN },
        servo_pan: Pad { port: SERVO_PAN_PORT, pin: SERVO_PAN_PIN },
        servo_tilt: Pad { port: SERVO_TILT_PORT, pin: SERVO_TILT_PIN },
        lora_sck: Pad { port: LORA_SCK_PORT, pin: LORA_SCK_PIN },
        lora_mosi: Pad { port: LORA_MOSI_PORT, pin: LORA_MOSI_PIN },
        lora_miso: Pad { port: LORA_MISO_PORT, pin: LORA_MISO_PIN },
        lora_nss: Pad { port: LORA_NSS_PORT, pin: LORA_NSS_PIN },
        lora_reset: Pad { port: LORA_RESET_PORT, pin: LORA_RESET_PIN },
        lora_dio0: Pad { port: LORA_DIO0_PORT, pin: LORA_DIO0_PIN },
        i2c_sda: Pad { port: I2C_SDA_PORT, pin: I2C_SDA_PIN },
        i2c_scl: Pad { port: I2C_SCL_PORT, pin: I2C_SCL_PIN },
        gps_rx: Pad { port: GPS_RX_PORT, pin: GPS_RX_PIN },
        gps_tx: Pad { port: GPS_TX_PORT, pin: GPS_TX_PIN },
    }
}

/// Pads with a fixed use on the board: the crystal, the battery divider, power control, the LED, the QSPI flash.
pub open spec fn is_reserved(pad: Pad) -> bool {
    pad.port == 0 && (pad.pin == 0 || pad.pin == 1 || pad.pin == 4 || pad.pin == 13 || pad.pin == 15 || pad.pin == 19
        || pad.pin == 21 || pad.pin == 23)
}

/// No pad has two roles, and none has a fixed use on the board.
pub proof fn law_pads_do_not_clash(i: int, j: int)
    requires
        0 <= i < j < nice_nano().pads().len(),
    ensures
        nice_nano().pads()[i] != nice_nano().pads()[j],
        !is_reserved(nice_nano().pads()[i]),
        !is_reserved(nice_nano().pads()[j]),
{
}

/// Where each role lies on the board.
pub proof fn law_pin_map()
    ensures
        ({
            let pins = nice_nano();
            &&& pins.ppm == (Pad { port: 0, pin: 2 })
            &&& pins.button == (Pad { port: 1, pin: 0 })
            &&& pins.servo_pan == (Pad { port: 0, pin: 22 })
            &&& pins.servo_tilt == (Pad { port: 0, pin: 24 })
            &&& pins.lora_sck == (Pad { port: 1, pin: 13 })
            &&& pins.lora_mosi == (Pad { port: 0, pin: 11 })
            &&& pins.lora_miso == (Pad { port: 1, pin: 11 })
            &&& pins.lora_nss == (Pad { port: 0, pin: 29 })
            &&& pins.lora_reset == (Pad { port: 0, pin: 6 })
            &&& pins.lora_dio0 == (Pad { port: 0, pin: 8 })
            &&& pins.i2c_sda == (Pad { port: 0, pin: 17 })
            &&& pins.i2c_scl == (Pad { port: 0, pin: 20 })
            &&& pins.gps_rx == (Pad { port: 1, pin: 4 })
            &&& pins.gps_tx == (Pad { port: 1, pin: 6 })
        }),
{
}

} // verus!
