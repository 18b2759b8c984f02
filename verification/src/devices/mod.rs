pub mod io;
pub mod gpio;
pub mod ccu;
pub mod uart;
pub mod i2c;
pub mod rsb;
