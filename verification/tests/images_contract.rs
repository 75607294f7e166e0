use picsee_lib::images::{collect_image_entries, is_supported_image, natural_compare, ImageEntry};
use std::cmp::Ordering;

#[test]
fn supported_image_filter_is_case_insensitive_and_rejects_other_files() {
    for name in [
        "photo.jpg",
        "photo.JPEG",
        "photo.PnG",
        "photo.webp",
        "photo.gif",
        "photo.bmp",
        "photo.svg",
    ] {
        assert!(is_supported_image(name), "{name} 应被识别为图片");
    }

    for name in ["photo.txt", "photo.avif", "photo", ".jpg"] {
        assert!(!is_supported_image(name), "{name} 不应被识别为图片");
    }
}

#[test]
fn natural_compare_orders_numeric_segments_by_value() {
    assert_eq!(natural_compare("img2.png", "img10.png"), Ordering::Less);
    assert_eq!(natural_compare("IMG10.png", "img2.png"), Ordering::Greater);
    assert_eq!(natural_compare("img02.png", "img2.png"), Ordering::Greater);
}

#[test]
fn natural_compare_is_reflexive_and_antisymmetric() {
    let names = ["a", "A", "a1", "a01", "a001b", "b", "10", "9", "x.png", "X.PNG", "", "0", "00"];
    for x in names {
        assert_eq!(natural_compare(x, x), Ordering::Equal);
        for y in names {
            assert_eq!(natural_compare(x, y), natural_compare(y, x).reverse());
            assert_eq!(natural_compare(x, y) == Ordering::Equal, x == y);
        }
    }
}

#[test]
fn natural_compare_ties_break_by_length_then_bytes() {
    assert_eq!(natural_compare("A.png", "a.png"), Ordering::Less);
    assert_eq!(natural_compare("a", "a.png"), Ordering::Less);
    assert_eq!(natural_compare("0", "00"), Ordering::Less);
    assert_eq!(natural_compare("file9", "file10"), Ordering::Less);
    assert_eq!(natural_compare("_x", "ax"), Ordering::Less);
    assert_eq!(natural_compare("a9", "a:"), Ordering::Less);
}

fn entry(path: &str, name: &str, size: u64) -> ImageEntry {
    ImageEntry { path: path.to_string(), name: name.to_string(), size, modified: 1 }
}

#[test]
fn collect_keeps_images_in_natural_order() {
    let entries = vec![
        entry("/d/img10.png", "img10.png", 10),
        entry("/d/notes.txt", "notes.txt", 7),
        entry("/d/img2.JPG", "img2.JPG", 2),
        entry("/d/IMG1.gif", "IMG1.gif", 1),
    ];
    let sorted = collect_image_entries(entries).unwrap();
    let names: Vec<&str> = sorted.iter().map(|e| e.name.as_str()).collect();
    assert_eq!(names, ["IMG1.gif", "img2.JPG", "img10.png"]);
    assert_eq!(sorted[1].size, 2);
}

#[test]
fn collect_keeps_equal_names_in_given_order() {
    let entries = vec![
        entry("/a/x.png", "x.png", 1),
        entry("/b/x.png", "x.png", 2),
        entry("/c/a.png", "a.png", 3),
    ];
    let sorted = collect_image_entries(entries).unwrap();
    let sizes: Vec<u64> = sorted.iter().map(|e| e.size).collect();
    assert_eq!(sizes, [3, 1, 2]);
    assert!(collect_image_entries(Vec::new()).unwrap().is_empty());
}

#[test]
fn natural_order_chains_across_names() {
    let names = ["a", "A1", "a2", "a02", "a10", "a10b", "B", "b1"];
    for x in names {
        for y in names {
            for z in names {
                let xy = natural_compare(x, y);
                let yz = natural_compare(y, z);
                if xy != Ordering::Greater && yz != Ordering::Greater {
                    let xz = natural_compare(x, z);
                    assert_ne!(xz, Ordering::Greater, "{x} {y} {z}");
                    if xy == Ordering::Less || yz == Ordering::Less {
                        assert_eq!(xz, Ordering::Less, "{x} {y} {z}");
                    }
                }
            }
        }
    }
}
