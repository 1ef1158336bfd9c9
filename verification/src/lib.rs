//! Front end and record-processing core of an awk implementation: the
//! lexer, string-escape decoding, symbol interning, field splitting over a
//! ring buffer, the record reader, the string pool of the runtime and the
//! scanning of number text, each with its contract.
pub mod awk_str;
pub mod optional_usize;
pub mod printable_error;
pub mod tag;
pub mod symbolizer;
pub mod global_scalars;
pub mod types;
pub mod index_of;
pub mod borrowing_split;
pub mod text;
pub mod escaped_string_reader;
pub mod byte_deque;
pub mod lazily_split_line;
pub mod record_reader;
pub mod lexer;
pub mod hacky_alloc;
pub mod float_text;
pub mod parser;
