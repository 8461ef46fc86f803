//! Contents of files: modules kept in the index in compressed form, heads of templates.

use std::io::Read;

use vstd::prelude::*;
use vstd::utf8::{
    decode_utf8, encode_utf8_decode_utf8, encode_utf8_valid_utf8, valid_utf8,
};

use crate::text::{has_part, lines, text_lines, texts};
use crate::xml::dcs::is_dcs_template;
use crate::xml::reader::{lossy, lossy_text, utf8_text};

verus! {

/// Largest size of a decompressed module, 256 MiB.
pub const MAX_DECOMPRESSED: u64 = 268435456;

/// At most `limit` bytes from the start of what `zstd::stream::read::Decoder` makes of a
/// frame; nothing where it fails.
pub uninterp spec fn decompressed(blob: Seq<u8>, limit: u64) -> Option<Seq<u8>>;

/// `zstd::stream::read::Decoder`, read to the end but for at most `limit` bytes.
#[verifier::external_body]
pub(crate) fn decompress(blob: &[u8], limit: u64) -> (r: Option<Vec<u8>>)
    ensures
        match r {
            Some(v) => decompressed(blob@, limit) == Some(v@) && v@.len() <= limit,
            None => decompressed(blob@, limit) is None,
        },
{
    let mut decoder = zstd::stream::read::Decoder::new(blob).ok()?;
    let mut out = Vec::new();
    (&mut decoder).take(limit).read_to_end(&mut out).ok()?;
    Some(out)
}

/// Lines of a module that is no larger than the limit and is UTF-8.
pub open spec fn decoded_lines(bytes: Seq<u8>) -> Option<Seq<Seq<char>>> {
    if bytes.len() <= MAX_DECOMPRESSED && valid_utf8(bytes) {
        Some(lines(decode_utf8(bytes)))
    } else {
        None
    }
}

/// Lines of a compressed module.
pub open spec fn module_lines(blob: Seq<u8>) -> Option<Seq<Seq<char>>> {
    match decompressed(blob, (MAX_DECOMPRESSED + 1) as u64) {
        Some(bytes) => decoded_lines(bytes),
        None => None,
    }
}

/// Lines of a module, given its bytes. `None` for a module larger than the limit and for
/// bytes that are no UTF-8.
pub fn lines_of_bytes(bytes: &Vec<u8>) -> (r: Option<Vec<String>>)
    ensures
        match r {
            Some(v) => decoded_lines(bytes@) == Some(texts(v@)),
            None => decoded_lines(bytes@) is None,
        },
{
    broadcast use {encode_utf8_decode_utf8, encode_utf8_valid_utf8};

    if bytes.len() as u64 > MAX_DECOMPRESSED {
        return None;
    }
    match utf8_text(bytes.as_slice()) {
        Some(text) => Some(text_lines(text.as_str())),
        None => None,
    }
}

/// Lines of a module file, given its bytes: none where the file could not be read or is
/// no UTF-8.
pub open spec fn file_lines(bytes: Option<Seq<u8>>) -> Seq<Seq<char>> {
    match bytes {
        Some(b) => if valid_utf8(b) {
            lines(decode_utf8(b))
        } else {
            Seq::empty()
        },
        None => Seq::empty(),
    }
}

/// Lines of a module file, given its bytes: none where the file could not be read or is
/// no UTF-8.
pub fn lines_of_file(bytes: &Option<Vec<u8>>) -> (r: Vec<String>)
    ensures
        texts(r@) == file_lines(
            match *bytes {
                Some(b) => Some(b@),
                None => None,
            },
        ),
{
    broadcast use {encode_utf8_decode_utf8, encode_utf8_valid_utf8};

    let text = match bytes {
        Some(b) => utf8_text(b.as_slice()),
        None => None,
    };
    match text {
        Some(text) => text_lines(text.as_str()),
        None => {
            let none: Vec<String> = Vec::new();
            assert(texts(none@) =~= Seq::empty());
            none
        },
    }
}

/// Lines of a module that the index keeps in compressed form. `None` for a damaged
/// frame, a module larger than the limit and bytes that are no UTF-8.
pub fn decode_module_lines(blob: &[u8]) -> (r: Option<Vec<String>>)
    ensures
        match r {
            Some(v) => module_lines(blob@) == Some(texts(v@)),
            None => module_lines(blob@) is None,
        },
{
    match decompress(blob, MAX_DECOMPRESSED + 1) {
        Some(bytes) => lines_of_bytes(&bytes),
        None => None,
    }
}

/// Whether the first bytes of a file show a data composition schema, so that the whole
/// file is worth reading.
pub fn is_dcs_head(head: &[u8]) -> (r: bool)
    ensures
        r == has_part(lossy(head@), "<DataCompositionSchema"@),
{
    is_dcs_template(lossy_text(head).as_str())
}

/// Outcome of work done while the triggers of the text index are off: the index is
/// rebuilt and the triggers are put back in any case. A failure of the work comes before
/// one of the rebuilding, and that before one of putting back.
pub open spec fn outcome<T, E>(
    work: Result<T, E>,
    rebuilt: Result<(), E>,
    recreated: Result<(), E>,
) -> Result<T, E> {
    match (work, rebuilt, recreated) {
        (Err(e), _, _) => Err(e),
        (_, Err(e), _) => Err(e),
        (_, _, Err(e)) => Err(e),
        (Ok(v), Ok(_), Ok(_)) => Ok(v),
    }
}

/// Outcome of work done while the triggers of the text index are off.
pub fn bulk_outcome<T, E>(
    work: Result<T, E>,
    rebuilt: Result<(), E>,
    recreated: Result<(), E>,
) -> (r: Result<T, E>)
    ensures
        r == outcome(work, rebuilt, recreated),
{
    match work {
        Ok(v) => match rebuilt {
            Ok(_) => match recreated {
                Ok(_) => Ok(v),
                Err(e) => Err(e),
            },
            Err(e) => Err(e),
        },
        Err(e) => Err(e),
    }
}

/// A kept module counts up to a size of 256 MiB and if it is UTF-8; its lines are those of
/// its text. A damaged frame, a larger module and other bytes give nothing.
pub proof fn law_kept_module(blob: Seq<u8>, bytes: Seq<u8>)
    ensures
        decompressed(blob, 268435457) is None ==> module_lines(blob) is None,
        decompressed(blob, 268435457) == Some(bytes) ==> module_lines(blob) == if valid_utf8(bytes)
            && bytes.len() <= 268435456 {
            Some(lines(decode_utf8(bytes)))
        } else {
            None
        },
{
}

/// A module file reads like the same module in the index, whatever its size; a file that
/// cannot be read or is no UTF-8 has no lines.
pub proof fn law_module_file(bytes: Seq<u8>)
    ensures
        decoded_lines(bytes) matches Some(v) ==> file_lines(Some(bytes)) == v,
        valid_utf8(bytes) ==> file_lines(Some(bytes)) == lines(decode_utf8(bytes)),
        !valid_utf8(bytes) ==> file_lines(Some(bytes)).len() == 0,
        file_lines(None).len() == 0,
{
}

/// Work counts as done only if the work, the rebuilding and the putting back all went
/// well; else the first failure among them is the outcome.
pub proof fn law_first_failure_counts<T, E>(
    work: Result<T, E>,
    rebuilt: Result<(), E>,
    recreated: Result<(), E>,
)
    ensures
        outcome(work, rebuilt, recreated) is Ok <==> work is Ok && rebuilt is Ok && recreated is Ok,
        outcome(work, rebuilt, recreated) is Ok ==> outcome(work, rebuilt, recreated) == work,
        work is Err ==> outcome(work, rebuilt, recreated) == work,
        work is Ok && rebuilt is Err ==> outcome(work, rebuilt, recreated)->Err_0
            == rebuilt->Err_0,
        work is Ok && rebuilt is Ok && recreated is Err ==> outcome(
            work,
            rebuilt,
            recreated,
        )->Err_0 == recreated->Err_0,
{
}

} // verus!
