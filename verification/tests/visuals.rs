use octoplat_game::level::visuals::{compute_content_seed, extract_tilemap};

#[test]
fn test_compute_content_seed_deterministic() {
    let content = "name: Test\nbiome: ocean-depths\n---\n####\n#  #\n####";
    let seed1 = compute_content_seed(content);
    let seed2 = compute_content_seed(content);
    assert_eq!(seed1, seed2);
}

#[test]
fn test_compute_content_seed_different_content() {
    let content1 = "####\n#  #\n####";
    let content2 = "####\n#  #\n###";
    let seed1 = compute_content_seed(content1);
    let seed2 = compute_content_seed(content2);
    assert_ne!(seed1, seed2);
}

#[test]
fn test_extract_tilemap_with_header() {
    let content = "name: Test\nbiome: ocean-depths\n---\n####\n#  #";
    let tilemap = extract_tilemap(content);
    assert_eq!(tilemap, "####\n#  #");
}

#[test]
fn test_extract_tilemap_no_header() {
    let content = "####\n#  #\n####";
    let tilemap = extract_tilemap(content);
    assert_eq!(tilemap, content);
}

#[test]
fn test_extract_tilemap_with_leading_newlines() {
    let content = "name: Test\n---\n\n####\n#  #";
    let tilemap = extract_tilemap(content);
    assert_eq!(tilemap, "####\n#  #");
}

#[test]
fn seed_of_empty_content_is_zero() {
    assert_eq!(compute_content_seed(""), 0);
}

#[test]
fn seed_multiplies_by_31_and_adds_each_byte() {
    // ((97 * 31) + 98) * 31 + 99
    assert_eq!(compute_content_seed("abc"), 96354);
}

#[test]
fn seed_wraps_on_long_content() {
    let long = "#".repeat(100);
    let mut expected: u64 = 0;
    for _ in 0..100 {
        expected = expected.wrapping_mul(31).wrapping_add(b'#' as u64);
    }
    assert_eq!(compute_content_seed(&long), expected);
}

#[test]
fn extract_tilemap_after_leading_dashes() {
    // A leading "---" and the character after it are skipped.
    assert_eq!(extract_tilemap("---\n##\n#P"), "##\n#P");
}

#[test]
fn extract_tilemap_uses_first_separator() {
    assert_eq!(extract_tilemap("a\n---\nb\n---\nc"), "b\n---\nc");
}

#[test]
fn extract_tilemap_of_header_only_is_empty() {
    assert_eq!(extract_tilemap("name: X\n---\n\n\n"), "");
}
