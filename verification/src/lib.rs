//! A fake mail server for development: the rules of its SMTP dialogue, the
//! message parser, the bounded inbox, the search over it and the HTML of its
//! web page.

pub mod html;
pub mod inbox;
pub mod laws;
pub mod message;
pub mod outside;
pub mod search;
pub mod settings;
pub mod smtp;
pub mod text;
