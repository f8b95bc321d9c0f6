use daidori_manager::commands::folder::{describe_file, sort_by_name};
use daidori_manager::types::FileInfo;

fn file(name: &str) -> FileInfo {
    FileInfo {
        path: format!("/pages/{}", name),
        name: name.to_string(),
        size: 1,
        modified_time: 2,
        file_type: "png".to_string(),
    }
}

fn names(files: &[FileInfo]) -> Vec<String> {
    files.iter().map(|f| f.name.clone()).collect()
}

#[test]
fn supported_file_is_described() {
    let info = describe_file("/p/a.JPG".to_string(), "a.JPG".to_string(), "JPG", 10, 20).unwrap();
    assert_eq!(info.path, "/p/a.JPG");
    assert_eq!(info.name, "a.JPG");
    assert_eq!(info.size, 10);
    assert_eq!(info.modified_time, 20);
    assert_eq!(info.file_type, "jpg");
    let tiff = describe_file("/p/b.tiff".to_string(), "b.tiff".to_string(), "tiff", 1, 2).unwrap();
    assert_eq!(tiff.file_type, "tif");
    let psd = describe_file("/p/c.psd".to_string(), "c.psd".to_string(), "Psd", 1, 2).unwrap();
    assert_eq!(psd.file_type, "psd");
}

#[test]
fn unsupported_file_is_not_listed() {
    assert!(describe_file("/p/a.gif".to_string(), "a.gif".to_string(), "gif", 1, 2).is_none());
    assert!(describe_file("/p/a".to_string(), "a".to_string(), "", 1, 2).is_none());
}

#[test]
fn names_are_sorted_in_natural_order() {
    let files = vec![file("rfc2086.txt"), file("rfc822.txt"), file("rfc1.txt")];
    assert_eq!(names(&sort_by_name(files)), ["rfc1.txt", "rfc822.txt", "rfc2086.txt"]);
    let pages = vec![file("page10.png"), file("page2.png"), file("page1.png"), file("page20.png")];
    assert_eq!(
        names(&sort_by_name(pages)),
        ["page1.png", "page2.png", "page10.png", "page20.png"]
    );
}

#[test]
fn sorting_agrees_with_the_standard_sort() {
    let unsorted = [
        "pic5", "x2-y8", "pic 4 else", "1-20", "pic100a", "tom", "pic4", "10-20", "pic2a", "1-02",
        "jane", "pic121", "pic05", "fred", "pic1", "pic3", "1-2", "pic2000", "pic 6", "pic2",
    ];
    let files: Vec<FileInfo> = unsorted.iter().map(|n| file(n)).collect();
    let mut expected: Vec<String> = unsorted.iter().map(|n| n.to_string()).collect();
    expected.sort_by(|a, b| natord::compare(a, b));
    assert_eq!(names(&sort_by_name(files)), expected);
}

#[test]
fn sorting_keeps_every_file() {
    let files = vec![file("b"), file("a"), file("b"), file("c"), file("a")];
    assert_eq!(names(&sort_by_name(files)), ["a", "a", "b", "b", "c"]);
    assert!(sort_by_name(Vec::new()).is_empty());
    assert_eq!(names(&sort_by_name(vec![file("only")])), ["only"]);
}

#[test]
fn sorting_is_stable() {
    let mut first = file("a 1");
    first.size = 100;
    let mut second = file("a1");
    second.size = 200;
    let sorted = sort_by_name(vec![file("b"), first, second]);
    assert_eq!(names(&sorted), ["a 1", "a1", "b"]);
    assert_eq!(sorted[0].size, 100);
    assert_eq!(sorted[1].size, 200);
}

#[test]
fn swapped_names_compare_the_other_way_round() {
    let names = [
        "", " ", "a", "A", "a ", " a", "a b", "ab", "a1", "a01", "a001", "a10", "a2", "1", "01",
        "001", "10", "2", "0", "00", "1a", "1 a", "x2-y08", "x2-y7", "x8-y8", "pic 5", "pic5",
        "pic05", "pic 5 something", "ページ1", "ページ10", "ページ2", "1.001", "1.01", "1.1", "9", "٣",
    ];
    for a in names {
        for b in names {
            assert_eq!(
                natord::compare(a, b),
                natord::compare(b, a).reverse(),
                "for {:?} and {:?}",
                a,
                b
            );
        }
    }
}

#[test]
fn no_file_stands_after_its_successor() {
    let names = ["b 2", "a10", "a2", "a 2", "A1", "b1", "a02", "10", "9", "b"];
    let files: Vec<FileInfo> = names.iter().map(|n| file(n)).collect();
    let sorted = sort_by_name(files);
    for pair in sorted.windows(2) {
        assert_ne!(
            natord::compare(&pair[0].name, &pair[1].name),
            std::cmp::Ordering::Greater,
            "{:?} before {:?}",
            pair[0].name,
            pair[1].name
        );
    }
}
