//! Tools for software provenance records embedded in compiled binaries.
//!
//! A provenance record travels inside the artifact itself, in a named
//! section of the object file.  This crate builds such records from a
//! module's source files and dependency tree, renders the assembly
//! listing that embeds them, and recovers and decodes them from a
//! finished binary.

use vstd::prelude::*;
use crate::format::EsstraFormat;
use crate::format::spdx::{sp_spdx_lines, roots_views, parse_spdx_lines};
use crate::format::yaml::{sp_yaml_docs, ydoc_views, parse_esstra_yaml};
use crate::analysis::{elf_section_of, elf_lookup_fails};

pub mod analysis;
pub mod args;
pub mod format;
pub mod text;

verus! {

/// What can go wrong when an embedded record is recovered.
#[derive(Debug)]
pub enum Error {
    FileIoError(std::io::Error),
    BinaryParseError(elf::ParseError),
    EsstraHeaderNotFound,
    EsstraHeaderIsNotUtf8,
    EsstraDataParseError,
}

/// The decoded form of a section text: the whole text as concatenated
/// YAML documents where that parses, otherwise one SPDX-subset document
/// per nonempty line, otherwise nothing.
pub open spec fn parsed_esstra(f: EsstraFormat, t: Seq<char>) -> bool {
    match sp_yaml_docs(t) {
        Some(q) => f matches EsstraFormat::Yaml(v) && ydoc_views(v@) == q.0,
        None => match sp_spdx_lines(t) {
            Some(ds) => f matches EsstraFormat::Spdx(v) && roots_views(v@) == ds,
            None => false,
        },
    }
}

/// Decode a section text: first as the YAML representation covering the
/// whole text, and only when that fails as newline-separated SPDX
/// documents; when neither form fits, the data is unreadable.
pub fn get_esstra_data_from_text(data: &str) -> (r: Result<EsstraFormat, Error>)
    ensures
        (match sp_yaml_docs(data@) {
            Some(q) => r matches Ok(f) && f matches EsstraFormat::Yaml(v) && ydoc_views(v@)
                == q.0,
            None => match sp_spdx_lines(data@) {
                Some(ds) => r matches Ok(f) && f matches EsstraFormat::Spdx(v) && roots_views(v@)
                    == ds,
                None => r matches Err(e) && e matches Error::EsstraDataParseError,
            },
        }),
{
    match parse_esstra_yaml(data) {
        Some(docs) => Ok(EsstraFormat::Yaml(docs)),
        None => match parse_spdx_lines(data) {
            Some(roots) => Ok(EsstraFormat::Spdx(roots)),
            None => Err(Error::EsstraDataParseError),
        },
    }
}

/// Recover and decode the embedded record of a compiled object given as
/// bytes: locate the dedicated section, decode it as UTF-8 and parse
/// it, each failure reported as its own error.
pub fn get_esstra_data_from_binary(binary: &[u8]) -> (r: Result<EsstraFormat, Error>)
    ensures
        r is Ok <==> !elf_lookup_fails(binary@, ".esstra"@) && (match elf_section_of(
            binary@,
            ".esstra"@,
        ) {
            Some(bytes) => vstd::utf8::valid_utf8(bytes) && (sp_yaml_docs(
                vstd::utf8::decode_utf8(bytes),
            ) is Some || sp_spdx_lines(vstd::utf8::decode_utf8(bytes)) is Some),
            None => false,
        }),
        r matches Ok(f) ==> elf_section_of(binary@, ".esstra"@) matches Some(bytes)
            && vstd::utf8::valid_utf8(bytes) && parsed_esstra(f, vstd::utf8::decode_utf8(bytes)),
        r matches Err(e) ==> match e {
            Error::EsstraHeaderNotFound => !elf_lookup_fails(binary@, ".esstra"@)
                && elf_section_of(binary@, ".esstra"@) is None,
            Error::EsstraHeaderIsNotUtf8 => elf_section_of(binary@, ".esstra"@) matches Some(
                bytes,
            ) && !vstd::utf8::valid_utf8(bytes) && !elf_lookup_fails(binary@, ".esstra"@),
            Error::EsstraDataParseError => elf_section_of(binary@, ".esstra"@) matches Some(
                bytes,
            ) && vstd::utf8::valid_utf8(bytes) && sp_yaml_docs(
                vstd::utf8::decode_utf8(bytes),
            ) is None && sp_spdx_lines(vstd::utf8::decode_utf8(bytes)) is None
                && !elf_lookup_fails(binary@, ".esstra"@),
            Error::BinaryParseError(_) => elf_lookup_fails(binary@, ".esstra"@),
            Error::FileIoError(_) => false,
        },
{
    let text = match crate::analysis::get_elf_section_text(binary, ".esstra") {
        Ok(t) => t,
        Err(e) => {
            return Err(e);
        },
    };
    get_esstra_data_from_text(text.as_str())
}

} // verus!
