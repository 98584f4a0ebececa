//! What holds of the library as a whole, proved.

pub mod calls;
pub mod html;
pub mod inbox;
pub mod message;
pub mod search;
pub mod settings;
pub mod smtp;
pub mod text;
