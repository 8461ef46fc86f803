//! Business terms of procedures, built from names, synonyms and comments.

pub mod comment;
pub mod identifier;
pub mod owner;
pub mod phrases;

pub use comment::{
    cut_chars, extract_leading_comment, extract_module_header, head_line, LeadingComment, LineText,
    ModuleHeader, HEADER_PROSE_LIMIT_CHARS, HEAD_LIMIT_CHARS, PROSE_LIMIT_CHARS,
};
pub use identifier::{fold_text, fold_yo, is_cyr, split_identifier, split_letters, Letter};
pub use owner::object_from_module_path;
pub use phrases::{build_terms, MECH_SIGNATURE};
