pub mod exchange;
pub mod greeting;
pub mod hexbytes;
pub mod hexdump;
pub mod keystream;
pub mod modexp;
pub mod offset;
pub mod ranking;
pub mod session;
pub mod wordfreq;
pub mod words;
