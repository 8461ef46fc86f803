//! Files of forms, as they are found at a path.

use vstd::prelude::*;
use vstd::utf8::{decode_utf8, encode_utf8_decode_utf8, encode_utf8_valid_utf8, valid_utf8};

use super::error::XmlError;
use super::reader::utf8_text;

verus! {

/// What is found at the path of a form.
pub enum FormFile {
    /// No regular file: the form may be kept in another format.
    Missing,
    /// A file with these bytes.
    Bytes(Vec<u8>),
    /// A file whose bytes cannot be had.
    Unreadable,
}

/// Failure of reading the file of a form.
#[derive(Debug, Clone, PartialEq, Eq)]
pub enum FileError {
    /// The bytes cannot be had, or they are no UTF-8.
    Unreadable,
    /// The text is no XML.
    Xml(XmlError),
}

/// Text of a file, nothing where it cannot be read as text.
pub open spec fn file_text(file: FormFile) -> Option<Seq<char>> {
    match file {
        FormFile::Bytes(bytes) => if valid_utf8(bytes@) {
            Some(decode_utf8(bytes@))
        } else {
            None
        },
        _ => None,
    }
}

/// Text of a file, nothing where it cannot be read as text.
pub(crate) fn text_of_file(file: &FormFile) -> (r: Option<String>)
    ensures
        match r {
            Some(text) => file_text(*file) == Some(text@),
            None => file_text(*file) is None,
        },
{
    broadcast use {encode_utf8_decode_utf8, encode_utf8_valid_utf8};

    match file {
        FormFile::Bytes(bytes) => utf8_text(bytes.as_slice()),
        _ => None,
    }
}

/// A file reads as text exactly when its bytes can be had and are UTF-8; then the text is
/// the one that the bytes encode.
pub proof fn law_file_text(file: FormFile)
    ensures
        file is Missing || file is Unreadable ==> file_text(file) is None,
        file matches FormFile::Bytes(bytes) ==> file_text(file) == if valid_utf8(bytes@) {
            Some(decode_utf8(bytes@))
        } else {
            None
        },
{
}

} // verus!
