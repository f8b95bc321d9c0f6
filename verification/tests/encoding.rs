use daidori_manager::encoding::to_data_url;

fn payload(url: Option<String>) -> String {
    let url = url.expect("short input must be encodable");
    let prefix = "data:image/png;base64,";
    assert!(url.starts_with(prefix));
    url[prefix.len()..].to_string()
}

#[test]
fn data_url_of_nothing_is_the_prefix() {
    assert_eq!(to_data_url(&[]), Some("data:image/png;base64,".to_string()));
}

#[test]
fn base64_pads_the_last_group() {
    assert_eq!(payload(to_data_url(b"f")), "Zg==");
    assert_eq!(payload(to_data_url(b"fo")), "Zm8=");
    assert_eq!(payload(to_data_url(b"foo")), "Zm9v");
    assert_eq!(payload(to_data_url(b"foob")), "Zm9vYg==");
    assert_eq!(payload(to_data_url(b"fooba")), "Zm9vYmE=");
    assert_eq!(payload(to_data_url(b"foobar")), "Zm9vYmFy");
}

#[test]
fn base64_uses_the_standard_alphabet() {
    assert_eq!(payload(to_data_url(&[0xfb, 0xff, 0xfe])), "+//+");
}
