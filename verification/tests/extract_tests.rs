use esstra::format::deps_file::EsstraDepsData;
use esstra::format::spdx::{make_esstra_spdx, spdx_from_json, SpdxV3AnyClass, CreationInfo, IntegrityMethod};
use esstra::format::yaml::{make_esstra_yaml, parse_esstra_yaml, SourceInput};
use esstra::format::EsstraFormat;
use esstra::{get_esstra_data_from_binary, get_esstra_data_from_text, Error};

fn leaf(name: &str, version: &str) -> EsstraDepsData {
    EsstraDepsData { name: name.to_string(), version: version.to_string(), deps: Vec::new() }
}

/// A minimal ELF64 little-endian object with one named section.
fn minimal_elf(section_name: &str, payload: &[u8]) -> Vec<u8> {
    let mut shstrtab: Vec<u8> = vec![0];
    let name_off = shstrtab.len() as u32;
    shstrtab.extend_from_slice(section_name.as_bytes());
    shstrtab.push(0);
    let strtab_name_off = shstrtab.len() as u32;
    shstrtab.extend_from_slice(b".shstrtab");
    shstrtab.push(0);

    let data_off = 64u64;
    let strtab_off = data_off + payload.len() as u64;
    let mut shoff = strtab_off + shstrtab.len() as u64;
    while shoff % 8 != 0 {
        shoff += 1;
    }

    let mut v: Vec<u8> = vec![0x7f, b'E', b'L', b'F', 2, 1, 1, 0, 0, 0, 0, 0, 0, 0, 0, 0];
    v.extend_from_slice(&1u16.to_le_bytes()); // relocatable
    v.extend_from_slice(&62u16.to_le_bytes()); // x86-64
    v.extend_from_slice(&1u32.to_le_bytes());
    v.extend_from_slice(&0u64.to_le_bytes()); // entry
    v.extend_from_slice(&0u64.to_le_bytes()); // phoff
    v.extend_from_slice(&shoff.to_le_bytes());
    v.extend_from_slice(&0u32.to_le_bytes()); // flags
    v.extend_from_slice(&64u16.to_le_bytes()); // ehsize
    v.extend_from_slice(&0u16.to_le_bytes()); // phentsize
    v.extend_from_slice(&0u16.to_le_bytes()); // phnum
    v.extend_from_slice(&64u16.to_le_bytes()); // shentsize
    v.extend_from_slice(&3u16.to_le_bytes()); // shnum
    v.extend_from_slice(&2u16.to_le_bytes()); // shstrndx
    assert_eq!(v.len(), 64);

    v.extend_from_slice(payload);
    v.extend_from_slice(&shstrtab);
    while (v.len() as u64) < shoff {
        v.push(0);
    }
    let shdr = |name: u32, kind: u32, off: u64, size: u64| -> Vec<u8> {
        let mut h = Vec::new();
        h.extend_from_slice(&name.to_le_bytes());
        h.extend_from_slice(&kind.to_le_bytes());
        h.extend_from_slice(&0u64.to_le_bytes()); // flags
        h.extend_from_slice(&0u64.to_le_bytes()); // addr
        h.extend_from_slice(&off.to_le_bytes());
        h.extend_from_slice(&size.to_le_bytes());
        h.extend_from_slice(&0u32.to_le_bytes()); // link
        h.extend_from_slice(&0u32.to_le_bytes()); // info
        h.extend_from_slice(&1u64.to_le_bytes()); // addralign
        h.extend_from_slice(&0u64.to_le_bytes()); // entsize
        h
    };
    v.extend_from_slice(&shdr(0, 0, 0, 0));
    v.extend_from_slice(&shdr(name_off, 1, data_off, payload.len() as u64));
    v.extend_from_slice(&shdr(strtab_name_off, 3, strtab_off, shstrtab.len() as u64));
    v
}

#[test]
fn two_spdx_lines_extract_to_two_documents() {
    let line = make_esstra_spdx(&Vec::new(), None);
    let payload = format!("{line}\n{line}\n");
    match get_esstra_data_from_text(&payload) {
        Ok(EsstraFormat::Spdx(v)) => assert_eq!(v.len(), 2),
        other => panic!("expected two documents, got {other:?}"),
    }
}

#[test]
fn yaml_document_extracts_to_yaml_variant() {
    let files = vec![SourceInput { path: "src/a.c".to_string(), sha1: Some("0a".to_string()) }];
    let payload = make_esstra_yaml("src/a.c", &files);
    match get_esstra_data_from_text(&payload) {
        Ok(EsstraFormat::Yaml(v)) => {
            assert_eq!(v.len(), 1);
            assert_eq!(v[0].headers.tool_name, "ESSTRA Core");
            assert_eq!(v[0].source_files[0].files[0].SHA1, "0a");
        }
        other => panic!("expected the YAML variant, got {other:?}"),
    }
}

#[test]
fn yaml_header_fields_round_trip() {
    let text = "---\nHeaders:\n  ToolName: T\n  ToolVersion: 1\n  DataFormatVersion: 1\n  InputFileName: x\nSourceFiles:\n- Directory: d\n  Files:\n  - File: f\n    SHA1: 0123\n";
    match get_esstra_data_from_text(text) {
        Ok(EsstraFormat::Yaml(v)) => {
            assert_eq!(v.len(), 1);
            assert_eq!(v[0].headers.tool_name, "T");
            assert_eq!(v[0].headers.tool_version, "1");
            assert_eq!(v[0].headers.data_format_version, "1");
            assert_eq!(v[0].headers.input_file_name, "x");
        }
        other => panic!("expected one document, got {other:?}"),
    }
}

#[test]
fn yaml_entry_without_digest_reparses() {
    let files = vec![SourceInput { path: "dir/a.c".to_string(), sha1: None }];
    let payload = make_esstra_yaml("dir/a.c", &files);
    let docs = parse_esstra_yaml(&payload).expect("parses");
    assert_eq!(docs[0].source_files[0].files[0].file, "a.c");
    assert_eq!(docs[0].source_files[0].files[0].SHA1, "");
}

#[test]
fn spdx_document_round_trips_through_its_text() {
    let mut root = leaf("root", "2.0.0");
    root.deps.push(leaf("leaf", "1.0.0"));
    let files = vec![
        SourceInput { path: "src/a.c".to_string(), sha1: Some("ff00".to_string()) },
        SourceInput { path: "src/b.c".to_string(), sha1: None },
    ];
    let text = make_esstra_spdx(&files, Some(root));
    let doc = spdx_from_json(&text).expect("parses");
    // shell tool + root + leaf + two files
    assert_eq!(doc.graph.len(), 5);
    match &doc.graph[1] {
        SpdxV3AnyClass::SoftwarePackage { props } => {
            assert_eq!(props.version, "2.0.0");
            assert_eq!(props.props.props.props.name.as_deref(), Some("root"));
        }
        other => panic!("expected a package, got {other:?}"),
    }
    match &doc.graph[3] {
        SpdxV3AnyClass::SoftwareFile { props } => {
            let ep = &props.artifact_props.props.props;
            assert_eq!(ep.name.as_deref(), Some("src/a.c"));
            match ep.verified_using.as_deref() {
                Some([IntegrityMethod::Hash(esstra::format::spdx::Hash::Sha1 { hash_value })]) => {
                    assert_eq!(hash_value, "ff00")
                }
                other => panic!("expected one digest, got {other:?}"),
            }
            match &ep.creation_info {
                CreationInfo::IRI(i) => assert_eq!(i.0, ""),
                other => panic!("expected a reference, got {other:?}"),
            }
        }
        other => panic!("expected a file, got {other:?}"),
    }
}

#[test]
fn undecodable_text_is_a_parse_error() {
    match get_esstra_data_from_text("not a record") {
        Err(Error::EsstraDataParseError) => {}
        other => panic!("expected a parse error, got {other:?}"),
    }
}

#[test]
fn section_extracts_from_elf_binary() {
    let files = vec![SourceInput { path: "src/a.c".to_string(), sha1: None }];
    let payload = make_esstra_yaml("src/a.c", &files);
    let binary = minimal_elf(".esstra", payload.as_bytes());
    match get_esstra_data_from_binary(&binary) {
        Ok(EsstraFormat::Yaml(v)) => assert_eq!(v[0].headers.input_file_name, "src/a.c"),
        other => panic!("expected the embedded document, got {other:?}"),
    }
}

#[test]
fn absent_section_is_reported_as_such() {
    let binary = minimal_elf(".other", b"x");
    match get_esstra_data_from_binary(&binary) {
        Err(Error::EsstraHeaderNotFound) => {}
        other => panic!("expected the section to be absent, got {other:?}"),
    }
}

#[test]
fn invalid_container_is_a_binary_parse_error() {
    match get_esstra_data_from_binary(b"just bytes") {
        Err(Error::BinaryParseError(_)) => {}
        other => panic!("expected a container error, got {other:?}"),
    }
}

#[test]
fn non_utf8_section_is_an_encoding_error() {
    let binary = minimal_elf(".esstra", &[0xff, 0xfe, 0x00, 0x80]);
    match get_esstra_data_from_binary(&binary) {
        Err(Error::EsstraHeaderIsNotUtf8) => {}
        other => panic!("expected an encoding error, got {other:?}"),
    }
}

#[test]
fn concatenated_yaml_fragments_extract_together() {
    let a = make_esstra_yaml("a.c", &vec![SourceInput { path: "a.c".to_string(), sha1: None }]);
    let b = make_esstra_yaml("b.c", &vec![SourceInput { path: "b.c".to_string(), sha1: None }]);
    let payload = format!("{a}\n{b}");
    match get_esstra_data_from_text(&payload) {
        Ok(EsstraFormat::Yaml(v)) => {
            assert_eq!(v.len(), 2);
            assert_eq!(v[0].headers.input_file_name, "a.c");
            assert_eq!(v[1].headers.input_file_name, "b.c");
        }
        other => panic!("expected two documents, got {other:?}"),
    }
}
