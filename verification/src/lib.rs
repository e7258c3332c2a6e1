//! Game and sensor logic of an ESP32 board that serves a number-guessing
//! game over a WebSocket, measures distance with an ultrasonic sensor and
//! shows its state on a small OLED panel.
pub mod text;
pub mod number;
pub mod game;
pub mod sensor;
pub mod session;
pub mod render;
pub mod monitor;
pub mod records;
pub mod page;
