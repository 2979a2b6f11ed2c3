use faust::render::renderer::{aor_map_path, banner_path, image_path, is_plain_path, unit_image_path};

#[test]
fn image_paths_take_the_webp_extension() {
    assert_eq!(image_path("rtr", "factions", "romans_julii"), "/images/rtr/factions/romans_julii.webp");
    assert_eq!(image_path("rtr", "eras", "eras/early.png"), "/images/rtr/eras/eras/early.webp");
    assert_eq!(image_path("rtr", "pools", "a.b.c"), "/images/rtr/pools/a.b.webp");
    assert_eq!(image_path("rtr", "pools", ".hidden"), "/images/rtr/pools/.hidden.webp");
    assert_eq!(image_path("rtr", "pools", "v1.2/italia"), "/images/rtr/pools/v1.2/italia.webp");
    assert_eq!(unit_image_path("rtr", "gauls", "Gallic_Horse"), "/images/rtr/units/gauls/Gallic_Horse.webp");
}

#[test]
fn image_paths_join_like_paths() {
    // Empty and `.` pieces drop out, as `Path::components` gives them.
    assert_eq!(image_path("rtr", "pools", "a//b.png"), "/images/rtr/pools/a/b.webp");
    assert_eq!(image_path("rtr", "eras", "./x.png"), "/images/rtr/eras/x.webp");
    assert_eq!(image_path("rtr", "eras", "x/."), "/images/rtr/eras/x.webp");
    assert_eq!(image_path("rtr/", "eras", "x.png"), "/images/rtr/eras/x.webp");
    // With no name the extension goes to the directory.
    assert_eq!(image_path("rtr", "eras", ""), "/images/rtr/eras.webp");
    assert_eq!(image_path("rtr", "pools", "a."), "/images/rtr/pools/a.webp");
    assert_eq!(banner_path("a/./b"), "/images/a/b/banner.webp");
}

#[test]
fn banner_and_area_maps() {
    assert_eq!(banner_path("rtr"), "/images/rtr/banner.webp");
    assert_eq!(aor_map_path("rtr", 0), "/images/rtr/aors/aor-1.webp");
    assert_eq!(aor_map_path("rtr", 11), "/images/rtr/aors/aor-12.webp");
}

#[test]
fn plain_paths() {
    assert!(is_plain_path("romans_julii"));
    assert!(is_plain_path("eras/early.png"));
    assert!(is_plain_path(""));
    assert!(is_plain_path("a//b"));
    assert!(is_plain_path("./x"));
    assert!(!is_plain_path("../x"));
    assert!(!is_plain_path("a/../x"));
    assert!(!is_plain_path("/abs"));
}
