use newbbs::key::{KeyCode, KeyEvent};
use newbbs::ssh::input::{key_for, InputParser};

fn keys(bytes: &[u8]) -> Vec<KeyEvent> {
    InputParser::new().feed(bytes)
}

fn codes(bytes: &[u8]) -> Vec<KeyCode> {
    keys(bytes).into_iter().map(|k| k.code).collect()
}

#[test]
fn plain_typing() {
    assert_eq!(codes(b"hi"), vec![KeyCode::Char('h'), KeyCode::Char('i')]);
}

#[test]
fn the_keys_the_keymap_binds() {
    assert_eq!(codes(b"\r"), vec![KeyCode::Enter]);
    assert_eq!(codes(b"\x1b"), vec![KeyCode::Esc]);
    assert_eq!(codes(b"\t"), vec![KeyCode::Tab]);
    assert_eq!(codes(b"\x7f"), vec![KeyCode::Backspace]);
    assert_eq!(codes(b"\x1b[A"), vec![KeyCode::Up]);
    assert_eq!(codes(b"\x1b[B"), vec![KeyCode::Down]);
    assert_eq!(codes(b"\x1b[5~"), vec![KeyCode::PageUp]);
    assert_eq!(codes(b"\x1b[6~"), vec![KeyCode::PageDown]);
    assert_eq!(codes(b"\x1b[3~"), vec![KeyCode::Delete]);
    assert_eq!(codes(b"\x1b[H"), vec![KeyCode::Home]);
    assert_eq!(codes(b"\x1bOD"), vec![KeyCode::Left]);
}

#[test]
fn control_chords() {
    let ctrl_c = keys(b"\x03");
    assert_eq!(ctrl_c[0].code, KeyCode::Char('c'));
    assert!(ctrl_c[0].modifiers.control);

    let ctrl_w = keys(b"\x17");
    assert_eq!(ctrl_w[0].code, KeyCode::Char('w'));
    assert!(ctrl_w[0].modifiers.control);
}

#[test]
fn modified_arrows() {
    let ctrl_up = keys(b"\x1b[1;5A");
    assert_eq!(ctrl_up[0].code, KeyCode::Up);
    assert!(ctrl_up[0].modifiers.control);
}

/// A packet boundary can land anywhere, including the middle of a sequence or
/// of a character.
#[test]
fn sequences_split_across_packets() {
    let mut parser = InputParser::new();
    assert!(parser.feed(b"\x1b[").is_empty());
    assert_eq!(
        parser.feed(b"A").into_iter().map(|k| k.code).collect::<Vec<_>>(),
        vec![KeyCode::Up]
    );

    let mut parser = InputParser::new();
    assert!(parser.feed(&[0xc3]).is_empty());
    assert_eq!(
        parser.feed(&[0xa9]).into_iter().map(|k| k.code).collect::<Vec<_>>(),
        vec![KeyCode::Char('é')]
    );
}

#[test]
fn a_whole_command_typed_at_once() {
    assert_eq!(codes(b":q\r"), vec![KeyCode::Char(':'), KeyCode::Char('q'), KeyCode::Enter]);
}

/// Anything unrecognised is dropped, never turned into a stray keypress.
#[test]
fn unknown_sequences_are_ignored() {
    assert!(codes(b"\x1b[200~").is_empty());
    assert_eq!(codes(b"\x1b[200~x"), vec![KeyCode::Char('x')]);
}

#[test]
fn capital_letters_come_with_shift() {
    let typed = keys("aÉ".as_bytes());
    assert!(!typed[0].modifiers.shift);
    assert_eq!(typed[1].code, KeyCode::Char('É'));
    assert!(typed[1].modifiers.shift);
}

/// Cutting the bytes anywhere makes no difference, but for a cut right behind
/// an escape, which is then a key of its own.
#[test]
fn packets_cut_anywhere() {
    let bytes = "a\u{1b}[1;5Aé\u{1b}[5~日\u{1b}[200~z".as_bytes();
    let whole = keys(bytes);
    for cut in 0..=bytes.len() {
        if cut > 0 && bytes[cut - 1] == 0x1b {
            continue;
        }
        let mut parser = InputParser::new();
        let mut got = parser.feed(&bytes[..cut]);
        got.extend(parser.feed(&bytes[cut..]));
        assert_eq!(got, whole, "cut at {cut}");
    }
}

#[test]
fn broken_text_is_skipped() {
    assert_eq!(codes(b"\xffx"), vec![KeyCode::Char('x')]);
    assert_eq!(codes(b"\xc3x"), vec![KeyCode::Char('x')]);
}

#[test]
fn keys_for_characters() {
    assert!(key_for('A', true).modifiers.shift);
    assert!(!key_for('a', false).modifiers.shift);
    assert_eq!(key_for('a', false).code, KeyCode::Char('a'));
}

/// Whatever waits in a parser, two packets come to the same as one.
#[test]
fn feeding_can_be_cut_anywhere() {
    for waiting in [&b""[..], b"\x1b[", b"\x1bO", &[0xc3], &[0xe2, 0x82]] {
        let bytes = b"1;5A\x1b[5~x\xc3\xa9\x1b[200~\r\x1b\x1b[Bq";
        for at in 0..=bytes.len() {
            let (a, b) = bytes.split_at(at);
            if a.last() == Some(&0x1b) {
                continue;
            }
            let (mut p, mut q) = (InputParser::new(), InputParser::new());
            assert_eq!(p.feed(waiting), q.feed(waiting));
            let mut keys = p.feed(a);
            keys.extend(p.feed(b));
            assert_eq!(keys, q.feed(bytes));
            assert_eq!(p.pending, q.pending);
        }
    }
}
