//! Locating the embedded record inside a compiled object: the named
//! section of an ELF image, read through the `elf` crate.

use vstd::prelude::*;
use crate::Error;

verus! {

#[verifier::external_type_specification]
#[verifier::external_body]
pub struct ExParseError(elf::ParseError);

#[verifier::external_type_specification]
#[verifier::external_body]
pub struct ExIoError(std::io::Error);

/// The contents of the named section of an ELF image: present exactly
/// when the bytes parse as an ELF container that has a section of that
/// name.  The value is a function of the bytes and the name alone.
pub uninterp spec fn elf_section_of(bin: Seq<u8>, name: Seq<char>) -> Option<Seq<u8>>;

/// Whether the lookup of the named section errs on these bytes: the
/// container does not parse, or its section data cannot be read.  Like
/// the section contents, this is a function of the bytes and the name
/// alone.
pub uninterp spec fn elf_lookup_fails(bin: Seq<u8>, name: Seq<char>) -> bool;

/// Relies on `elf::ElfBytes::minimal_parse` (parses the container
/// header and locates the section table), `section_header_by_name`
/// (finds the section of that exact name, `Ok(None)` when there is
/// none) and `section_data` (hands out the section's bytes).  All
/// three are deterministic over the bytes, so whether the chain errs
/// is itself a function of the arguments, named `elf_lookup_fails`.
#[verifier::external_body]
fn elf_named_section(binary: &[u8], section: &str) -> (r: Result<
    Option<Vec<u8>>,
    elf::ParseError,
>)
    ensures
        r is Err <==> elf_lookup_fails(binary@, section@),
        r matches Ok(Some(v)) ==> elf_section_of(binary@, section@) == Some(v@),
        r matches Ok(None) ==> elf_section_of(binary@, section@) is None,
{
    let data = match elf::ElfBytes::<elf::endian::AnyEndian>::minimal_parse(binary) {
        Ok(d) => d,
        Err(e) => {
            return Err(e);
        },
    };
    match data.section_header_by_name(section) {
        Ok(Some(h)) => match data.section_data(&h) {
            Ok((bytes, _)) => Ok(Some(bytes.to_vec())),
            Err(e) => Err(e),
        },
        Ok(None) => Ok(None),
        Err(e) => Err(e),
    }
}

/// Relies on `String::from_utf8` of std: it succeeds exactly on valid
/// UTF-8 and decodes it.
#[verifier::external_body]
fn string_from_utf8(v: Vec<u8>) -> (r: Option<String>)
    ensures
        r is Some <==> vstd::utf8::valid_utf8(v@),
        r matches Some(s) ==> s@ == vstd::utf8::decode_utf8(v@),
{
    String::from_utf8(v).ok()
}

/// Get the named section of an ELF image: its bytes exactly when the
/// lookup goes through and the section is there, the absence of the
/// section and a failing lookup each as its own error, never
/// conflated.
pub fn get_elf_section_from_binary(binary: &[u8], section: &str) -> (r: Result<Vec<u8>, Error>)
    ensures
        r is Ok <==> !elf_lookup_fails(binary@, section@) && elf_section_of(
            binary@,
            section@,
        ) is Some,
        r matches Ok(v) ==> elf_section_of(binary@, section@) == Some(v@),
        r matches Err(e) ==> match e {
            Error::EsstraHeaderNotFound => !elf_lookup_fails(binary@, section@)
                && elf_section_of(binary@, section@) is None,
            Error::BinaryParseError(_) => elf_lookup_fails(binary@, section@),
            _ => false,
        },
{
    match elf_named_section(binary, section) {
        Ok(Some(v)) => Ok(v),
        Ok(None) => Err(Error::EsstraHeaderNotFound),
        Err(e) => Err(Error::BinaryParseError(e)),
    }
}

/// Get the named section of an ELF image as text: the decoded section
/// exactly when the lookup goes through, the section is there and its
/// bytes are valid UTF-8, each failure as its own error.
pub fn get_elf_section_text(binary: &[u8], section: &str) -> (r: Result<String, Error>)
    ensures
        r is Ok <==> !elf_lookup_fails(binary@, section@) && (match elf_section_of(
            binary@,
            section@,
        ) {
            Some(bytes) => vstd::utf8::valid_utf8(bytes),
            None => false,
        }),
        r matches Ok(s) ==> elf_section_of(binary@, section@) matches Some(bytes) && s@
            == vstd::utf8::decode_utf8(bytes),
        r matches Err(e) ==> match e {
            Error::EsstraHeaderNotFound => !elf_lookup_fails(binary@, section@)
                && elf_section_of(binary@, section@) is None,
            Error::EsstraHeaderIsNotUtf8 => elf_section_of(binary@, section@) matches Some(
                bytes,
            ) && !vstd::utf8::valid_utf8(bytes) && !elf_lookup_fails(binary@, section@),
            Error::BinaryParseError(_) => elf_lookup_fails(binary@, section@),
            _ => false,
        },
{
    let bytes = match get_elf_section_from_binary(binary, section) {
        Ok(v) => v,
        Err(e) => {
            return Err(e);
        },
    };
    match string_from_utf8(bytes) {
        Some(s) => Ok(s),
        None => Err(Error::EsstraHeaderIsNotUtf8),
    }
}

} // verus!
