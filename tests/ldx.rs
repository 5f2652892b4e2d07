use motec_parser::ldx::{decode_ldx_text, Channel, ChannelRef, LdxFile, LdxWorkspace, MetadataItem, Worksheet};
use motec_parser::{FileType, MotecError, MotecParser};

fn bare_workspace() -> LdxWorkspace {
    LdxWorkspace {
        workspace_name: None,
        project_name: None,
        car_name: None,
        channels: None,
        worksheets: None,
        metadata: None,
    }
}

#[test]
fn bare_workspace_gets_defaults() {
    let f = LdxFile::from_workspace(bare_workspace());
    assert_eq!(f.workspace_name, "Default");
    assert!(f.project_name.is_none());
    assert!(f.car_name.is_none());
    assert!(f.channels.is_empty());
    assert!(f.worksheets.is_empty());
    assert!(f.metadata.is_empty());
}

#[test]
fn present_attributes_are_kept() {
    let mut ws = bare_workspace();
    ws.workspace_name = Some("Race".to_string());
    ws.car_name = Some("GT3".to_string());
    ws.channels = Some(vec![]);
    let f = LdxFile::from_workspace(ws);
    assert_eq!(f.workspace_name, "Race");
    assert!(f.project_name.is_none());
    assert_eq!(f.car_name.as_deref(), Some("GT3"));
    assert!(f.channels.is_empty());
}

#[test]
fn document_round_trips_through_workspace() {
    let doc = LdxFile {
        workspace_name: "Session".to_string(),
        project_name: Some("P".to_string()),
        car_name: None,
        channels: vec![Channel {
            name: "RPM".to_string(),
            units: Some("rpm".to_string()),
            source: None,
            scaling: Some("1".to_string()),
            math: Some("a+b".to_string()),
        }],
        worksheets: vec![Worksheet {
            name: "Main".to_string(),
            worksheet_type: None,
            channel_refs: vec![ChannelRef { name: "RPM".to_string() }],
        }],
        metadata: vec![MetadataItem { key: "Driver".to_string(), value: "X".to_string() }],
    };
    let ws = doc.clone().to_workspace();
    assert_eq!(ws.workspace_name.as_deref(), Some("Session"));
    let back = LdxFile::from_workspace(ws);
    assert_eq!(back.workspace_name, doc.workspace_name);
    assert_eq!(back.project_name, doc.project_name);
    assert_eq!(back.car_name, doc.car_name);
    assert_eq!(back.channels.len(), 1);
    assert_eq!(back.channels[0].name, "RPM");
    assert_eq!(back.channels[0].math.as_deref(), Some("a+b"));
    assert_eq!(back.worksheets[0].channel_refs[0].name, "RPM");
    assert_eq!(back.metadata[0].key, "Driver");
    assert_eq!(back.metadata[0].value, "X");
}

#[test]
fn text_decoding_accepts_utf8() {
    let s = decode_ldx_text("<Workspace Name=\"Ä\"/>".as_bytes()).unwrap();
    assert_eq!(s, "<Workspace Name=\"Ä\"/>");
}

#[test]
fn text_decoding_rejects_invalid_utf8() {
    assert!(matches!(decode_ldx_text(&[b'<', 0xc3, 0x28]), Err(MotecError::Utf8(_))));
}

#[test]
fn short_buffers_are_unknown() {
    assert_eq!(MotecParser::detect_file_type(b""), FileType::Unknown);
    assert_eq!(MotecParser::detect_file_type(b"<?x"), FileType::Unknown);
}

#[test]
fn xml_declaration_is_detected() {
    assert_eq!(MotecParser::detect_file_type(b"<?xml version=\"1.0\"?><Workspace/>"), FileType::Ldx);
    assert_eq!(MotecParser::detect_file_type(b"<Workspace/>"), FileType::Ldx);
}

#[test]
fn large_non_xml_buffers_are_binary() {
    assert_eq!(MotecParser::detect_file_type(&vec![0u8; 513]), FileType::Ld);
    assert_eq!(MotecParser::detect_file_type(&vec![0u8; 512]), FileType::Unknown);
    assert_eq!(MotecParser::detect_file_type(&vec![b'<'; 600]), FileType::Ldx);
}

#[test]
fn parser_entry_decodes_binary() {
    let d = vec![0u8; 512];
    assert!(MotecParser::parse_ld(&d).is_ok());
    assert!(matches!(MotecParser::parse_ld(&d[..100]), Err(MotecError::InvalidFormat(_))));
}
