use bounce_fpv::servo::{
  normalized_to_pulse_us, ppm_to_pulse_us, pulse_us_to_duty, saturate_duty, Servo, CENTER_PULSE_US, MAX_PULSE_US,
  MIN_PULSE_US, SERVO_MAX_DUTY,
};

#[test]
fn duty_for_center_pulse_is_about_7_5_percent() {
  // At 1500 us / 20000 us = 7.5%. With a 14-bit LEDC (max_duty 16383), that is ~1228.
  let d = pulse_us_to_duty(1500, 16383);
  assert_eq!(d, (1500u32 * 16383 / 20000) as u16);
  assert!(d > 1200 && d < 1260);
}

#[test]
fn duty_saturates_not_wraps() {
  assert_eq!(pulse_us_to_duty(25_000, 1000), 1000); //  past the 20 ms period clamps to full on.
}

#[test]
fn ppm_clamps_into_band() {
  assert_eq!(ppm_to_pulse_us(800), MIN_PULSE_US);
  assert_eq!(ppm_to_pulse_us(1500), 1500);
  assert_eq!(ppm_to_pulse_us(2400), MAX_PULSE_US);
}

#[test]
fn normalized_endpoints_and_center() {
  assert_eq!(normalized_to_pulse_us(0, 1000), MIN_PULSE_US);
  assert_eq!(normalized_to_pulse_us(1000, 1000), MAX_PULSE_US);
  assert_eq!(normalized_to_pulse_us(500, 1000), CENTER_PULSE_US);
  assert_eq!(normalized_to_pulse_us(5000, 1000), MAX_PULSE_US); //  over-range clamps, not wraps.
}

#[test]
fn microsecond_channel_is_the_identity() {
  assert_eq!(pulse_us_to_duty(1500, SERVO_MAX_DUTY), 1500);
  assert_eq!(pulse_us_to_duty(20_000, SERVO_MAX_DUTY), 20_000);
  assert_eq!(pulse_us_to_duty(20_001, SERVO_MAX_DUTY), SERVO_MAX_DUTY);
  assert_eq!(pulse_us_to_duty(u16::MAX, u16::MAX), u16::MAX);
}

#[test]
fn zero_scale_counts_as_one() {
  assert_eq!(normalized_to_pulse_us(0, 0), MIN_PULSE_US);
  assert_eq!(normalized_to_pulse_us(7, 0), MAX_PULSE_US);
}

#[test]
fn servo_converts_for_its_channel() {
  let mut servo = Servo::new(41u8, 1000);
  assert_eq!(servo.max_duty(), 1000);
  assert_eq!(servo.set_pulse_us(1500), 75);
  assert_eq!(servo.set_ppm_us(800), 50);
  assert_eq!(servo.set_normalized(1, 1), 100);
  assert_eq!(servo.center(), 75);
  *servo.channel_mut() += 1;
  assert_eq!(servo.release(), 42);
}

#[test]
fn duties_saturate() {
  assert_eq!(saturate_duty(20_001, SERVO_MAX_DUTY), SERVO_MAX_DUTY);
  assert_eq!(saturate_duty(1_500, SERVO_MAX_DUTY), 1_500);
}
