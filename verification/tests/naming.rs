use pensketch::{next_free_name, Sketch};

fn names(list: &[&str]) -> Vec<String> {
    list.iter().map(|s| s.to_string()).collect()
}

#[test]
fn first_output_is_number_one() {
    assert_eq!(next_free_name("art", &[]), Some("art-1.svg".to_string()));
}

#[test]
fn outputs_count_up_from_the_largest() {
    assert_eq!(next_free_name("art", &names(&["art-1.svg"])), Some("art-2.svg".to_string()));
    assert_eq!(
        next_free_name("art", &names(&["art-1.svg", "art-2.svg"])),
        Some("art-3.svg".to_string())
    );
}

#[test]
fn a_deleted_output_is_not_used_again() {
    assert_eq!(next_free_name("art", &names(&["art-2.svg"])), Some("art-3.svg".to_string()));
    assert_eq!(
        next_free_name("art", &names(&["art-7.svg", "art-3.svg", "art-12.svg", "art-5.svg"])),
        Some("art-13.svg".to_string())
    );
}

#[test]
fn files_of_another_shape_are_passed_over() {
    let existing = names(&[
        "art-4.svg",
        "art-9.png",
        "art-.svg",
        "art-x.svg",
        "art-1a.svg",
        "art--5.svg",
        "art-+6.svg",
        "art7.svg",
        "other-99.svg",
        "xart-50.svg",
        "art-60.svg.bak",
        "art-61.SVG",
        "art- 62.svg",
        "63.svg",
        ".svg",
        "",
        "art",
        "art-4",
    ]);
    assert_eq!(next_free_name("art", &existing), Some("art-5.svg".to_string()));
}

#[test]
fn leading_zeros_count_as_digits() {
    assert_eq!(
        next_free_name("art", &names(&["art-007.svg", "art-0.svg"])),
        Some("art-8.svg".to_string())
    );
}

#[test]
fn names_with_hyphens_and_digits() {
    assert_eq!(
        next_free_name("my-art-2", &names(&["my-art-2-41.svg", "my-art-300.svg"])),
        Some("my-art-2-42.svg".to_string())
    );
    assert_eq!(next_free_name("", &names(&["-3.svg"])), Some("-4.svg".to_string()));
}

#[test]
fn names_of_more_than_one_byte_a_letter() {
    assert_eq!(
        next_free_name("żółw", &names(&["żółw-9.svg", "zolw-20.svg"])),
        Some("żółw-10.svg".to_string())
    );
}

#[test]
fn the_next_name_is_never_taken() {
    let existing = names(&["a-1.svg", "a-3.svg", "a-2.svg", "a-10.svg", "a-9.svg"]);
    let next = next_free_name("a", &existing).unwrap();
    assert_eq!(next, "a-11.svg");
    assert!(!existing.contains(&next));
}

#[test]
fn the_last_number_leaves_no_next_name() {
    assert_eq!(
        next_free_name("art", &names(&["art-18446744073709551614.svg"])),
        Some("art-18446744073709551615.svg".to_string())
    );
    assert_eq!(next_free_name("art", &names(&["art-18446744073709551615.svg"])), None);
    assert_eq!(next_free_name("art", &names(&["art-18446744073709551616.svg"])), None);
    assert_eq!(
        next_free_name("art", &names(&["art-3.svg", "art-99999999999999999999999.svg"])),
        None
    );
}

#[test]
fn a_sketch_names_its_outputs_after_itself() {
    let s = Sketch::new("spiral");
    assert_eq!(s.next_free_name(&[]), Some("spiral-1.svg".to_string()));
    let s = s.with_name("rings");
    assert_eq!(
        s.next_free_name(&names(&["spiral-8.svg", "rings-2.svg"])),
        Some("rings-3.svg".to_string())
    );
}
