pub mod android;
pub mod desktop;
