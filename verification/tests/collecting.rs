use sfmp::error::PipelineError;
use sfmp::paths::{collect, copy_bytes, has_suffix, is_image};

fn name(s: &str) -> Vec<u8> {
    s.as_bytes().to_vec()
}

#[test]
fn accepts_the_three_extensions() {
    assert!(is_image(&name("a.png")));
    assert!(is_image(&name("holiday.jpg")));
    assert!(is_image(&name("holiday.jpeg")));
    assert!(is_image(&name(".png")));
}

#[test]
fn rejects_other_names() {
    assert!(!is_image(&name("notes.txt")));
    assert!(!is_image(&name("a.PNG")));
    assert!(!is_image(&name("a.Jpg")));
    assert!(!is_image(&name("png")));
    assert!(!is_image(&name("a.png.bak")));
    assert!(!is_image(&name("a.jpe")));
    assert!(!is_image(&name("")));
}

#[test]
fn suffix_is_compared_byte_for_byte() {
    assert!(has_suffix(&name("abc"), &name("bc")));
    assert!(has_suffix(&name("abc"), &name("")));
    assert!(has_suffix(&name("abc"), &name("abc")));
    assert!(!has_suffix(&name("abc"), &name("xabc")));
    assert!(!has_suffix(&name("abc"), &name("ab")));
}

#[test]
fn copy_keeps_the_bytes() {
    assert_eq!(copy_bytes(&name("x.png")), name("x.png"));
    assert_eq!(copy_bytes(&Vec::new()), Vec::<u8>::new());
}

#[test]
fn collect_keeps_order_and_drops_the_rest() {
    let listing = vec![
        name("b.jpg"),
        name("readme.md"),
        name("a.png"),
        name("cluster_0"),
        name("c.jpeg"),
    ];
    let found = collect(&listing).unwrap();
    assert_eq!(found, vec![name("b.jpg"), name("a.png"), name("c.jpeg")]);
}

#[test]
fn empty_directory_has_no_images() {
    let listing: Vec<Vec<u8>> = Vec::new();
    assert_eq!(collect(&listing), Err(PipelineError::NoImagesFound));
}

#[test]
fn directory_without_images_has_no_images() {
    let listing = vec![name("readme.md"), name("data.csv"), name("IMG.PNG")];
    assert_eq!(collect(&listing), Err(PipelineError::NoImagesFound));
}
