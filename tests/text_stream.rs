use epwing::charset::{decode_codepoint, jis_pointer, narrow_form, to_narrow};
use epwing::text::read_text;
use epwing::{Error, IoError, Subbook, Text, TextElement};

fn s(t: &str) -> TextElement {
    TextElement::UnicodeString(t.to_string())
}

fn decode(bytes: &[u8]) -> Result<(Text, usize), Error> {
    read_text(&bytes.to_vec(), 0)
}

#[test]
fn jis_code_resolves() {
    assert_eq!(jis_pointer(0x2422), Some(283));
    assert_eq!(jis_pointer(0x2121), Some(0));
    assert_eq!(jis_pointer(0x2021), None);
    assert_eq!(jis_pointer(0x217f), None);
    assert_eq!(decode_codepoint(0x2422), Some('あ'));
    assert_eq!(decode_codepoint(0x2341), Some('Ａ'));
    assert_eq!(decode_codepoint(0xffff), None);
    assert_eq!(decode_codepoint(0x2922), None);
}

#[test]
fn narrow_forms() {
    assert_eq!(to_narrow('Ａ'), 'A');
    assert_eq!(to_narrow('a'), 'a');
    assert_eq!(narrow_form('x', Some(2), &vec!['y', 'z']), 'z');
    assert_eq!(narrow_form('x', Some(1), &vec!['y']), 'x');
    assert_eq!(narrow_form('x', Some(2), &vec![]), 'x');
}

#[test]
fn single_character() {
    let (t, end) = decode(&[0x1f, 0x02, 0x24, 0x22, 0x1f, 0x03, 0xaa]).unwrap();
    assert_eq!(t, Text(vec![s("あ")]));
    assert_eq!(end, 6);
}

#[test]
fn invalid_control_code() {
    assert_eq!(decode(&[0x1f, 0x02, 0x1f, 0xff]), Err(Error::InvalidControlCode(0xff)));
    assert_eq!(decode(&[0x24, 0x22, 0x1f, 0x00, 0x1f, 0x03]), Err(Error::InvalidControlCode(0x00)));
}

#[test]
fn repeated_keyword_stops() {
    let bytes = [0x1f, 0x02, 0x1f, 0x41, 0x00, 0x01, 0x1f, 0x41, 0x00, 0x01, 0x24, 0x22];
    let (t, end) = decode(&bytes).unwrap();
    assert_eq!(t, Text(vec![]));
    assert_eq!(end, 10);
}

#[test]
fn other_keyword_does_not_replace_delimiter() {
    let bytes = [
        0x1f, 0x41, 0x00, 0x01, 0x24, 0x22, 0x1f, 0x61, 0x1f, 0x41, 0x00, 0x02, 0x24, 0x24,
        0x1f, 0x41, 0x00, 0x02, 0x1f, 0x41, 0x00, 0x01,
    ];
    let (t, end) = decode(&bytes).unwrap();
    assert_eq!(t, Text(vec![s("あい")]));
    assert_eq!(end, bytes.len());
}

#[test]
fn custom_character_breaks_run() {
    let bytes = [0x24, 0x22, 0xff, 0xff, 0x24, 0x22, 0x24, 0x24, 0x1f, 0x03];
    let (t, _) = decode(&bytes).unwrap();
    assert_eq!(
        t,
        Text(vec![s("あ"), TextElement::CustomCharacter(0xffff), s("あい")])
    );
}

#[test]
fn newline_and_narrow_mode() {
    let bytes = [
        0x23, 0x41, 0x1f, 0x04, 0x23, 0x41, 0x23, 0x42, 0x1f, 0x05, 0x23, 0x41, 0x1f, 0x0a,
        0x24, 0x22, 0x1f, 0x03,
    ];
    let (t, _) = decode(&bytes).unwrap();
    assert_eq!(t, Text(vec![s("ＡABＡ"), TextElement::Newline, s("あ")]));
}

#[test]
fn truncated_stream_fails() {
    assert_eq!(decode(&[]), Err(Error::Io(IoError::UnexpectedEof)));
    assert_eq!(decode(&[0x24, 0x22]), Err(Error::Io(IoError::UnexpectedEof)));
    assert_eq!(decode(&[0x24]), Err(Error::Io(IoError::UnexpectedEof)));
    assert_eq!(decode(&[0x1f, 0x41, 0x00]), Err(Error::Io(IoError::UnexpectedEof)));
    assert_eq!(read_text(&vec![0x1f, 0x03], 3), Err(Error::Io(IoError::UnexpectedEof)));
}

#[test]
fn decoding_is_deterministic() {
    let bytes = [0x24, 0x22, 0xff, 0xff, 0x1f, 0x0a, 0x1f, 0x03];
    assert_eq!(decode(&bytes), decode(&bytes));
}

#[test]
fn plaintext_drops_custom_characters() {
    let t = Text(vec![
        s("あい"),
        TextElement::CustomCharacter(0x2922),
        TextElement::Newline,
        s("x"),
    ]);
    assert_eq!(t.to_plaintext(), "あい\nx");
    assert_eq!(Text(vec![]).to_plaintext(), "");
}

#[test]
fn subbook_reads_at_page_and_offset() {
    let mut data = vec![0u8; 0x1010];
    data[1] = 0;
    data.extend_from_slice(&[0x24, 0x22, 0x1f, 0x03]);
    data[0x1000 + 0x0f] = 0x1f;
    let mut sb = Subbook::from_io(data).unwrap();
    let t = sb.read_text(3, 0x10).unwrap();
    assert_eq!(t, Text(vec![s("あ")]));
    assert_eq!(sb.read_text(3, 0x0f), Err(Error::InvalidControlCode(0x24)));
    assert_eq!(sb.read_text(4, 0), Err(Error::Io(IoError::UnexpectedEof)));
    assert_eq!(sb.read_text(100, 0), Err(Error::Io(IoError::UnexpectedEof)));
}
