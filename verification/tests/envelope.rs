use pathlinks::hyperlink::make_hyperlink;

#[test]
fn envelope_bytes() {
    let out = make_hyperlink("u", "t");
    assert_eq!(
        out.as_bytes(),
        &[0x1b, b']', b'8', b';', b';', b'u', 0x07, b't', 0x1b, b']', b'8', b';', b';', 0x07]
    );
}

#[test]
fn envelope_of_empty_parts() {
    assert_eq!(make_hyperlink("", ""), "\x1b]8;;\x07\x1b]8;;\x07");
}

#[test]
fn envelope_keeps_text_as_it_is() {
    assert_eq!(
        make_hyperlink("file://h/a b", "a b\x1b[m é"),
        "\x1b]8;;file://h/a b\x07a b\x1b[m é\x1b]8;;\x07"
    );
}
