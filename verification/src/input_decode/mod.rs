//! The A133 gamepad MCU decoder: the pure frame scanner and control map that turn the two UART
//! byte streams into evdev events, plus the virtual-device specification it advertises.
pub mod codes;
pub mod decode;
pub mod frame;
pub mod device;
pub mod ioc;
