use daidori_manager::thumbnail::psd::extract_psd_embedded_thumbnail;

/// One image resource: signature, identifier, an empty name, the declared
/// size and the payload as given.
fn resource(id: u16, declared_size: u32, payload: &[u8]) -> Vec<u8> {
    let mut out = Vec::new();
    out.extend_from_slice(b"8BIM");
    out.extend_from_slice(&id.to_be_bytes());
    out.extend_from_slice(&[0, 0]);
    out.extend_from_slice(&declared_size.to_be_bytes());
    out.extend_from_slice(payload);
    out
}

/// The payload of a thumbnail resource: the 28-byte header and the image.
fn thumbnail_payload(format: u32, image: &[u8]) -> Vec<u8> {
    let mut out = Vec::new();
    out.extend_from_slice(&format.to_be_bytes());
    out.extend_from_slice(&[0u8; 24]);
    out.extend_from_slice(image);
    out
}

/// A layered image file that holds the given colour mode data and image
/// resources and nothing after them.
fn file_with(color_mode: &[u8], resources: &[u8]) -> Vec<u8> {
    let mut out = Vec::new();
    out.extend_from_slice(b"8BPS");
    out.extend_from_slice(&[0u8; 22]);
    out.extend_from_slice(&(color_mode.len() as u32).to_be_bytes());
    out.extend_from_slice(color_mode);
    out.extend_from_slice(&(resources.len() as u32).to_be_bytes());
    out.extend_from_slice(resources);
    out
}

fn thumbnail_resource(id: u16, format: u32, image: &[u8]) -> Vec<u8> {
    let payload = thumbnail_payload(format, image);
    let mut out = resource(id, payload.len() as u32, &payload);
    if payload.len() % 2 == 1 {
        out.push(0);
    }
    out
}

#[test]
fn preview_is_found() {
    let file = file_with(&[], &thumbnail_resource(1036, 1, b"JPEGDATA"));
    assert_eq!(extract_psd_embedded_thumbnail(&file), Some(b"JPEGDATA".to_vec()));
}

#[test]
fn legacy_preview_is_found() {
    let file = file_with(&[], &thumbnail_resource(1033, 1, b"OLD"));
    assert_eq!(extract_psd_embedded_thumbnail(&file), Some(b"OLD".to_vec()));
}

#[test]
fn colour_mode_data_is_skipped() {
    let file = file_with(&[7u8; 768], &thumbnail_resource(1036, 1, b"JPEGDATA"));
    assert_eq!(extract_psd_embedded_thumbnail(&file), Some(b"JPEGDATA".to_vec()));
}

#[test]
fn other_resources_are_skipped() {
    let mut resources = resource(1005, 4, &[1, 2, 3, 4]);
    resources.extend_from_slice(&resource(1006, 3, &[1, 2, 3, 0]));
    resources.extend_from_slice(&thumbnail_resource(1036, 1, b"JPEGDATA"));
    let file = file_with(&[], &resources);
    assert_eq!(extract_psd_embedded_thumbnail(&file), Some(b"JPEGDATA".to_vec()));
}

#[test]
fn named_resources_are_skipped() {
    let mut named = Vec::new();
    named.extend_from_slice(b"8BIM");
    named.extend_from_slice(&1005u16.to_be_bytes());
    // A name of three characters takes four bytes with its length byte.
    named.extend_from_slice(&[3, b'a', b'b', b'c']);
    named.extend_from_slice(&2u32.to_be_bytes());
    named.extend_from_slice(&[9, 9]);
    let mut even_named = Vec::new();
    even_named.extend_from_slice(b"8BIM");
    even_named.extend_from_slice(&1005u16.to_be_bytes());
    // A name of two characters is padded to four bytes with its length byte.
    even_named.extend_from_slice(&[2, b'a', b'b', 0]);
    even_named.extend_from_slice(&2u32.to_be_bytes());
    even_named.extend_from_slice(&[9, 9]);
    let mut resources = named;
    resources.extend_from_slice(&even_named);
    resources.extend_from_slice(&thumbnail_resource(1036, 1, b"JPEGDATA"));
    let file = file_with(&[], &resources);
    assert_eq!(extract_psd_embedded_thumbnail(&file), Some(b"JPEGDATA".to_vec()));
}

#[test]
fn first_preview_wins() {
    let mut resources = thumbnail_resource(1033, 1, b"FIRST");
    resources.extend_from_slice(&thumbnail_resource(1036, 1, b"SECOND"));
    let file = file_with(&[], &resources);
    assert_eq!(extract_psd_embedded_thumbnail(&file), Some(b"FIRST".to_vec()));
}

#[test]
fn other_signature_yields_nothing() {
    assert_eq!(extract_psd_embedded_thumbnail(b"\x89PNG\r\n\x1a\n0000000000000000000000000000"), None);
    let mut file = file_with(&[], &thumbnail_resource(1036, 1, b"JPEGDATA"));
    file[3] = b'B';
    assert_eq!(extract_psd_embedded_thumbnail(&file), None);
}

#[test]
fn empty_and_short_input_yield_nothing() {
    assert_eq!(extract_psd_embedded_thumbnail(&[]), None);
    assert_eq!(extract_psd_embedded_thumbnail(b"8BP"), None);
    assert_eq!(extract_psd_embedded_thumbnail(b"8BPS"), None);
    assert_eq!(extract_psd_embedded_thumbnail(&file_with(&[], &[])), None);
}

#[test]
fn every_truncation_yields_nothing() {
    let mut resources = resource(1005, 4, &[1, 2, 3, 4]);
    resources.extend_from_slice(&thumbnail_resource(1036, 1, b"JPEGDATA"));
    let file = file_with(&[1, 2], &resources);
    assert_eq!(extract_psd_embedded_thumbnail(&file), Some(b"JPEGDATA".to_vec()));
    for keep in 0..file.len() {
        assert_eq!(extract_psd_embedded_thumbnail(&file[..keep]), None, "kept {} bytes", keep);
    }
}

#[test]
fn truncation_after_the_preview_keeps_it() {
    let mut resources = thumbnail_resource(1036, 1, b"JPEGDATA");
    resources.extend_from_slice(&resource(1005, 4, &[1, 2, 3, 4]));
    let whole = file_with(&[], &resources);
    let preview_end = whole.len() - 16;
    for keep in preview_end..=whole.len() {
        assert_eq!(
            extract_psd_embedded_thumbnail(&whole[..keep]),
            Some(b"JPEGDATA".to_vec()),
            "kept {} bytes",
            keep
        );
    }
    assert_eq!(extract_psd_embedded_thumbnail(&whole[..preview_end - 1]), None);
}

#[test]
fn resource_of_size_zero_does_not_hang() {
    let mut resources = resource(1005, 0, &[]);
    resources.extend_from_slice(&resource(1005, 0, &[]));
    resources.extend_from_slice(&thumbnail_resource(1036, 1, b"JPEGDATA"));
    let file = file_with(&[], &resources);
    assert_eq!(extract_psd_embedded_thumbnail(&file), Some(b"JPEGDATA".to_vec()));
    let only_empty = file_with(&[], &resource(1005, 0, &[]));
    assert_eq!(extract_psd_embedded_thumbnail(&only_empty), None);
}

#[test]
fn declared_size_past_the_end_yields_nothing() {
    let mut resources = resource(1005, u32::MAX, &[1, 2, 3, 4]);
    resources.extend_from_slice(&thumbnail_resource(1036, 1, b"JPEGDATA"));
    let file = file_with(&[], &resources);
    assert_eq!(extract_psd_embedded_thumbnail(&file), None);
    let huge_preview = file_with(&[], &resource(1036, u32::MAX, &thumbnail_payload(1, b"JPEG")));
    assert_eq!(extract_psd_embedded_thumbnail(&huge_preview), None);
}

#[test]
fn declared_lengths_past_the_end_yield_nothing() {
    let mut file = Vec::new();
    file.extend_from_slice(b"8BPS");
    file.extend_from_slice(&[0u8; 22]);
    file.extend_from_slice(&u32::MAX.to_be_bytes());
    file.extend_from_slice(&[0u8; 64]);
    assert_eq!(extract_psd_embedded_thumbnail(&file), None);
}

#[test]
fn resources_past_the_section_are_not_read() {
    let mut file = file_with(&[], &resource(1005, 2, &[1, 2]));
    file.extend_from_slice(&thumbnail_resource(1036, 1, b"JPEGDATA"));
    assert_eq!(extract_psd_embedded_thumbnail(&file), None);
}

#[test]
fn broken_resource_signature_ends_the_scan() {
    let mut resources = b"8BIX".to_vec();
    resources.extend_from_slice(&[0u8; 8]);
    resources.extend_from_slice(&thumbnail_resource(1036, 1, b"JPEGDATA"));
    let file = file_with(&[], &resources);
    assert_eq!(extract_psd_embedded_thumbnail(&file), None);
}

#[test]
fn preview_without_image_bytes_yields_nothing() {
    let empty = file_with(&[], &resource(1036, 28, &thumbnail_payload(1, &[])));
    assert_eq!(extract_psd_embedded_thumbnail(&empty), None);
    let short = file_with(&[], &resource(1036, 27, &thumbnail_payload(1, &[])));
    assert_eq!(extract_psd_embedded_thumbnail(&short), None);
    let one = file_with(&[], &resource(1036, 29, &thumbnail_payload(1, &[0xff])));
    assert_eq!(extract_psd_embedded_thumbnail(&one), Some(vec![0xff]));
}

#[test]
fn preview_in_another_format_is_passed_over() {
    // The scan goes on after the 28-byte header and the padded payload.
    let raw = thumbnail_payload(0, &[5, 5, 5, 5]);
    let mut resources = resource(1036, raw.len() as u32, &raw);
    resources.extend_from_slice(&[0u8; 28]);
    resources.extend_from_slice(&thumbnail_resource(1033, 1, b"JPEGDATA"));
    let file = file_with(&[], &resources);
    assert_eq!(extract_psd_embedded_thumbnail(&file), Some(b"JPEGDATA".to_vec()));
    let alone = file_with(&[], &resource(1036, raw.len() as u32, &raw));
    assert_eq!(extract_psd_embedded_thumbnail(&alone), None);
}

#[test]
fn odd_payload_is_padded() {
    let mut resources = resource(1005, 3, &[1, 2, 3, 0]);
    resources.extend_from_slice(&thumbnail_resource(1036, 1, b"ODD"));
    let file = file_with(&[], &resources);
    assert_eq!(extract_psd_embedded_thumbnail(&file), Some(b"ODD".to_vec()));
    // Without the padding byte the next resource is not where the scan looks.
    let mut unpadded = resource(1005, 3, &[1, 2, 3]);
    unpadded.extend_from_slice(&thumbnail_resource(1036, 1, b"ODD"));
    assert_eq!(extract_psd_embedded_thumbnail(&file_with(&[], &unpadded)), None);
}
