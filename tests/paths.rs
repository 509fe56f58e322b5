use sitegen::paths::{calculate_path_depth, normalize_base_url, page_permalink, page_relative_path, path_prefix_for_depth};

#[test]
fn test_path_depth_calculation() {
    assert_eq!(calculate_path_depth("", false), 0);
    assert_eq!(calculate_path_depth("", true), 1);
    assert_eq!(calculate_path_depth("section", false), 1);
    assert_eq!(calculate_path_depth("section", true), 2);
    assert_eq!(calculate_path_depth("section/nested", false), 2);
    assert_eq!(calculate_path_depth("section/nested", true), 3);
}

#[test]
fn test_path_prefix_generation() {
    assert_eq!(path_prefix_for_depth(0), "");
    assert_eq!(path_prefix_for_depth(1), "../");
    assert_eq!(path_prefix_for_depth(2), "../../");
    assert_eq!(path_prefix_for_depth(3), "../../../");
}

#[test]
fn test_relative_path_generation_root() {
    let parent_key = "";
    let slug = "about";

    let relative_path = page_relative_path(parent_key, slug);

    assert_eq!(relative_path, "about/index.html");
    assert!(!relative_path.starts_with('/'));
}

#[test]
fn test_relative_path_generation_nested() {
    let parent_key = "writing";
    let slug = "my-post";

    let relative_path = page_relative_path(parent_key, slug);

    assert_eq!(relative_path, "writing/my-post/index.html");
}

#[test]
fn depth_of_deeper_keys() {
    assert_eq!(calculate_path_depth("a/b/c/d", false), 4);
    assert_eq!(calculate_path_depth("a/b/c/d", true), 5);
    assert_eq!(path_prefix_for_depth(calculate_path_depth("a/b", true)), "../../../");
}

#[test]
fn permalinks_are_absolute_with_trailing_slash() {
    assert_eq!(page_permalink("https://x.org", "", "about"), "https://x.org/about/");
    assert_eq!(page_permalink("https://x.org", "writing/2024", "p"), "https://x.org/writing/2024/p/");
}

#[test]
fn base_url_loses_trailing_slashes() {
    assert_eq!(normalize_base_url("https://x.org/"), "https://x.org");
    assert_eq!(normalize_base_url("https://x.org//"), "https://x.org");
    assert_eq!(normalize_base_url("https://x.org"), "https://x.org");
    assert_eq!(normalize_base_url("/"), "");
}
