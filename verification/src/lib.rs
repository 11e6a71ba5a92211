//! Choosing the Android device that later `adb` calls address.

pub mod decode;
pub mod device;
pub mod laws;
pub mod layout;
pub mod picker;
pub mod screen;
pub mod text;
pub mod track;
