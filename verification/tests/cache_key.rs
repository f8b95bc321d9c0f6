use daidori_manager::thumbnail::key::{build_key_input, derive_cache_key, to_hex_lower};

#[test]
fn key_input_joins_all_fields() {
    assert_eq!(build_key_input("a.png", 1, 480, 98), "a.png:1:480:98");
    assert_eq!(
        build_key_input("/tmp/page 1.psd", 1_700_000_000_000, 480, 98),
        "/tmp/page 1.psd:1700000000000:480:98"
    );
    assert_eq!(build_key_input("", 0, 0, 0), ":0:0:0");
    assert_eq!(
        build_key_input("x", u64::MAX, u32::MAX, u8::MAX),
        "x:18446744073709551615:4294967295:255"
    );
}

#[test]
fn key_is_md5_of_input_in_hex() {
    assert_eq!(derive_cache_key("a.png", 1, 480, 98), "bb92996505a88ea0fd91c798a7b8ed26");
    assert_eq!(
        derive_cache_key("/tmp/page 1.psd", 1_700_000_000_000, 480, 98),
        "e874e3e5d68d6b87bb7d9f9899f6dc41"
    );
    assert_eq!(derive_cache_key("ページ.png", 5, 480, 98), "fcca0f32bfc64c9eafd8641ae74ee137");
}

#[test]
fn key_is_deterministic() {
    let first = derive_cache_key("a.png", 1, 480, 98);
    let second = derive_cache_key("a.png", 1, 480, 98);
    assert_eq!(first, second);
    assert_eq!(first.len(), 32);
    assert!(first.chars().all(|c| c.is_ascii_digit() || ('a'..='f').contains(&c)));
}

#[test]
fn key_changes_with_modification_time() {
    assert_eq!(derive_cache_key("a.png", 2, 480, 98), "621eda95317922be9a86c188a4818908");
    assert_ne!(derive_cache_key("a.png", 1, 480, 98), derive_cache_key("a.png", 2, 480, 98));
}

#[test]
fn key_changes_with_render_size() {
    assert_eq!(derive_cache_key("a.png", 1, 481, 98), "ad32e2aab723c67d34ad29e0b08a5ae7");
    assert_ne!(derive_cache_key("a.png", 1, 480, 98), derive_cache_key("a.png", 1, 481, 98));
}

#[test]
fn key_changes_with_render_quality() {
    assert_eq!(derive_cache_key("a.png", 1, 480, 97), "ad02d3025a5c888403a5820ff77b67bf");
    assert_ne!(derive_cache_key("a.png", 1, 480, 98), derive_cache_key("a.png", 1, 480, 97));
}

#[test]
fn key_changes_with_path() {
    assert_ne!(derive_cache_key("a.png", 1, 480, 98), derive_cache_key("b.png", 1, 480, 98));
}

#[test]
fn fields_do_not_run_into_each_other() {
    assert_ne!(build_key_input("a", 12, 3, 4), build_key_input("a", 1, 23, 4));
    assert_ne!(build_key_input("a:1", 2, 3, 4), build_key_input("a", 1, 2, 3));
    assert_ne!(derive_cache_key("a", 12, 3, 4), derive_cache_key("a", 1, 23, 4));
}

#[test]
fn hex_writes_two_lower_case_digits_per_byte() {
    assert_eq!(to_hex_lower(&[]), "");
    assert_eq!(to_hex_lower(&[0x00, 0x0f, 0xa0, 0xff, 0x9b]), "000fa0ff9b");
}
