use pochta::tools::{apply_decoded, apply_tools, Decoder, ToolEffect};

#[test]
fn base64_then_browser() {
    let mut buf = b"SGVsbG8=".to_vec();
    let effects = apply_tools(b"!b!b64", &mut buf);
    assert_eq!(buf, b"Hello".to_vec());
    assert_eq!(effects.len(), 1);
    match &effects[0] {
        ToolEffect::OpenBrowser(shown) => assert_eq!(shown, &b"Hello".to_vec()),
        other => panic!("unexpected effect {:?}", other),
    }
}

#[test]
fn bad_base64_keeps_buffer() {
    let mut buf = b"not base64!\r\n".to_vec();
    let effects = apply_tools(b"!b64", &mut buf);
    assert_eq!(buf, b"not base64!\r\n".to_vec());
    assert_eq!(effects.len(), 1);
    assert!(matches!(effects[0], ToolEffect::DecodeFailed(Decoder::Base64)));
}

#[test]
fn quoted_printable_decodes() {
    let mut buf = b"a=3Db".to_vec();
    let effects = apply_tools(b"!qp", &mut buf);
    assert_eq!(buf, b"a=b".to_vec());
    assert!(effects.is_empty());
}

#[test]
fn unknown_tool_is_reported_and_chain_goes_on() {
    let mut buf = b"SGk=".to_vec();
    let effects = apply_tools(b"!b64!zip", &mut buf);
    assert_eq!(buf, b"Hi".to_vec());
    assert_eq!(effects.len(), 1);
    match &effects[0] {
        ToolEffect::UnknownTool(name) => assert_eq!(name, &b"zip".to_vec()),
        other => panic!("unexpected effect {:?}", other),
    }
}

#[test]
fn chain_runs_right_to_left() {
    // base64 of "a=3Db" is "YT0zRGI="; decoding it and then quoted-printable gives "a=b".
    let mut buf = b"YT0zRGI=".to_vec();
    let effects = apply_tools(b"!qp!b64", &mut buf);
    assert_eq!(buf, b"a=b".to_vec());
    assert!(effects.is_empty());
}

#[test]
fn decoded_result_replaces_buffer() {
    let mut buf = b"abc".to_vec();
    assert!(apply_decoded(Decoder::QuotedPrintable, &mut buf, Some(b"xyz".to_vec())).is_none());
    assert_eq!(buf, b"xyz".to_vec());
    let r = apply_decoded(Decoder::Base64, &mut buf, None);
    assert!(matches!(r, Some(ToolEffect::DecodeFailed(Decoder::Base64))));
    assert_eq!(buf, b"xyz".to_vec());
}
