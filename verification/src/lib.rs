pub mod byte_slice;
pub mod cursor;
pub mod encoding_matcher;
pub mod lexer;
pub mod mime_type_matcher;
pub mod q_value;

pub use encoding_matcher::match_for_encoding;
pub use mime_type_matcher::match_for_mime_type;
