use wzmapeditor::page_atlas::{build_page_atlas, TexturePageRef};

#[test]
fn missing_pages_are_filled_and_normal_alpha_marks_presence() {
    let diffuse_px: Vec<u8> = (0u8..16).collect();
    let diffuse = TexturePageRef { page_name: "page-1", rgba: &diffuse_px, width: 2, height: 2 };
    let normal_px = [10u8, 20, 30, 40];
    let normal = TexturePageRef { page_name: "page-1_nm", rgba: &normal_px, width: 1, height: 1 };
    let atlas = build_page_atlas(Some(&diffuse), None, Some(&normal), None);
    assert_eq!((atlas.width, atlas.height), (2, 2));
    assert_eq!(atlas.data.len(), 64);
    assert_eq!(&atlas.data[0..16], &diffuse_px[..]);
    assert!(atlas.data[16..32].iter().all(|b| *b == 0));
    for px in atlas.data[32..48].chunks(4) {
        assert_eq!(px, &[10, 20, 30, 255]);
    }
    assert!(atlas.data[48..64].iter().all(|b| *b == 0));
}

#[test]
fn smaller_pages_are_resampled_to_the_largest() {
    let a = [1u8, 2, 3, 4];
    let b = [5u8, 6, 7, 8];
    let diffuse_px: Vec<u8> = a.iter().chain(b.iter()).copied().collect();
    let diffuse = TexturePageRef { page_name: "d", rgba: &diffuse_px, width: 2, height: 1 };
    let spec_px = vec![9u8; 4 * 2 * 4];
    let specular = TexturePageRef { page_name: "s", rgba: &spec_px, width: 4, height: 2 };
    let atlas = build_page_atlas(Some(&diffuse), None, None, Some(&specular));
    assert_eq!((atlas.width, atlas.height), (4, 2));
    let layer = 4 * 2 * 4;
    assert_eq!(atlas.data.len(), layer * 4);
    let row: Vec<u8> = [a, a, b, b].concat();
    assert_eq!(&atlas.data[0..16], &row[..]);
    assert_eq!(&atlas.data[16..32], &row[..]);
    // The default normal is a flat normal with alpha 0.
    for px in atlas.data[2 * layer..3 * layer].chunks(4) {
        assert_eq!(px, &[128, 128, 255, 0]);
    }
    // A present specular map is copied with alpha forced to 255.
    for px in atlas.data[3 * layer..].chunks(4) {
        assert_eq!(px, &[9, 9, 9, 255]);
    }
}

#[test]
fn no_pages_give_a_one_pixel_atlas() {
    let atlas = build_page_atlas(None, None, None, None);
    assert_eq!((atlas.width, atlas.height), (1, 1));
    assert_eq!(atlas.data, vec![255, 255, 255, 255, 0, 0, 0, 0, 128, 128, 255, 0, 0, 0, 0, 0]);
}
