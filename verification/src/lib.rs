pub mod bytes;
pub mod consts;
pub mod extensions;
pub mod fat;
pub mod macho;
pub mod opts;
pub mod patcher;
pub mod utils;
