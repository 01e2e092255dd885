//! Parsing and layout decisions for Circular Gallifreyan script.
#![allow(non_snake_case)]

pub mod gall_config;
pub mod gall_errors;
pub mod gall_stem;
pub mod gall_vowel;
pub mod gall_text;
pub mod gall_fn;
pub mod gall_char;
pub mod gall_parse;
pub mod gall_tainer;
pub mod gall_word;
pub mod pairing;
pub mod gall_struct;
pub mod gall_phrase;
