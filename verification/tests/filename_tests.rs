use fractal_core::filename::{first_free_filename, numbered_filename, split_filename};

fn names(list: &[&str]) -> Vec<String> {
    list.iter().map(|s| s.to_string()).collect()
}

#[test]
fn split_at_the_last_dot() {
    assert_eq!(split_filename("fractal.png"), ("fractal".to_string(), ".png".to_string()));
    assert_eq!(split_filename("archive.tar.gz"), ("archive.tar".to_string(), ".gz".to_string()));
    assert_eq!(split_filename("trailing."), ("trailing".to_string(), ".".to_string()));
    assert_eq!(split_filename(".hidden"), ("".to_string(), ".hidden".to_string()));
}

#[test]
fn split_without_a_dot_has_no_extension() {
    assert_eq!(split_filename("fractal"), ("fractal".to_string(), "".to_string()));
    assert_eq!(split_filename(""), ("".to_string(), "".to_string()));
}

#[test]
fn split_counts_characters_not_bytes() {
    assert_eq!(split_filename("größe.png"), ("größe".to_string(), ".png".to_string()));
    assert_eq!(split_filename("a.é"), ("a".to_string(), ".é".to_string()));
}

#[test]
fn numbered_pads_to_three_digits() {
    assert_eq!(numbered_filename("fractal.png", 1), "fractal-001.png");
    assert_eq!(numbered_filename("fractal.png", 9), "fractal-009.png");
    assert_eq!(numbered_filename("fractal.png", 10), "fractal-010.png");
    assert_eq!(numbered_filename("fractal.png", 42), "fractal-042.png");
    assert_eq!(numbered_filename("fractal.png", 99), "fractal-099.png");
    assert_eq!(numbered_filename("fractal.png", 100), "fractal-100.png");
    assert_eq!(numbered_filename("fractal.png", 999), "fractal-999.png");
    assert_eq!(numbered_filename("fractal.png", 0), "fractal-000.png");
}

#[test]
fn numbered_grows_beyond_three_digits() {
    assert_eq!(numbered_filename("fractal.png", 1000), "fractal-1000.png");
    assert_eq!(numbered_filename("fractal.png", 1234567), "fractal-1234567.png");
    assert_eq!(
        numbered_filename("fractal.png", u64::MAX),
        "fractal-18446744073709551615.png"
    );
}

#[test]
fn numbered_without_extension() {
    assert_eq!(numbered_filename("fractal", 7), "fractal-007");
    assert_eq!(numbered_filename(".png", 7), "-007.png");
    assert_eq!(numbered_filename("a.b.c", 7), "a.b-007.c");
}

#[test]
fn first_free_starts_at_one() {
    assert_eq!(first_free_filename("fractal.png", &Vec::new()), "fractal-001.png");
    assert_eq!(
        first_free_filename("fractal.png", &names(&["other-001.png", "fractal.png"])),
        "fractal-001.png"
    );
}

#[test]
fn first_free_skips_what_exists() {
    let existing = names(&["fractal-001.png", "fractal-002.png", "fractal-003.png"]);
    assert_eq!(first_free_filename("fractal.png", &existing), "fractal-004.png");
}

#[test]
fn first_free_fills_the_first_gap() {
    let existing = names(&["fractal-004.png", "fractal-001.png", "fractal-003.png"]);
    assert_eq!(first_free_filename("fractal.png", &existing), "fractal-002.png");
}

#[test]
fn first_free_ignores_repeated_names() {
    let existing = names(&["fractal-001.png", "fractal-001.png", "fractal-002.png"]);
    assert_eq!(first_free_filename("fractal.png", &existing), "fractal-003.png");
}

#[test]
fn first_free_passes_a_hundred() {
    let mut existing = Vec::new();
    for n in 1..=120u64 {
        existing.push(numbered_filename("f.png", n));
    }
    assert_eq!(first_free_filename("f.png", &existing), "f-121.png");
}

#[test]
fn rendering_twice_yields_two_names() {
    let mut existing = names(&["fractal-001.png"]);
    let first = first_free_filename("fractal.png", &existing);
    assert!(!existing.contains(&first));
    existing.push(first.clone());
    let second = first_free_filename("fractal.png", &existing);
    assert!(!existing.contains(&second));
    assert_ne!(first, second);
    assert_eq!(first, "fractal-002.png");
    assert_eq!(second, "fractal-003.png");
}
