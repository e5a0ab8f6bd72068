use wzmapeditor::stamp_transform::{
    flip_direction_x, flip_direction_y, rotate_direction, rotate_tile_pos, transform_object_direction,
    transform_object_offset, transform_pattern, StampObject, StampPattern, StampTile,
};

fn keep(t: u16) -> u16 {
    t
}

fn tile(dx: u32, dy: u32, texture: u16, height: u16) -> StampTile {
    StampTile { dx, dy, texture, height }
}

#[test]
fn transform_identity() {
    let pat = StampPattern {
        width: 2,
        height: 3,
        tiles: vec![tile(0, 0, 10, 50), tile(1, 2, 20, 60)],
        objects: Vec::new(),
    };
    let result = transform_pattern(&pat, 0, false, false, &keep);
    assert_eq!(result.width, 2);
    assert_eq!(result.height, 3);
    assert_eq!(result.tiles[0].dx, 0);
    assert_eq!(result.tiles[0].dy, 0);
    assert_eq!(result.tiles[1].dx, 1);
    assert_eq!(result.tiles[1].dy, 2);
}

#[test]
fn transform_90cw_swaps_dimensions() {
    let pat = StampPattern { width: 2, height: 3, tiles: vec![tile(0, 0, 10, 50)], objects: Vec::new() };
    let result = transform_pattern(&pat, 1, false, false, &keep);
    assert_eq!(result.width, 3);
    assert_eq!(result.height, 2);
    assert_eq!(result.tiles[0].dx, 2);
    assert_eq!(result.tiles[0].dy, 0);
}

#[test]
fn transform_180_preserves_dimensions() {
    let pat = StampPattern { width: 3, height: 3, tiles: vec![tile(0, 0, 5, 10)], objects: Vec::new() };
    let result = transform_pattern(&pat, 2, false, false, &keep);
    assert_eq!(result.width, 3);
    assert_eq!(result.height, 3);
    assert_eq!(result.tiles[0].dx, 2);
    assert_eq!(result.tiles[0].dy, 2);
}

#[test]
fn transform_flip_x() {
    let pat = StampPattern { width: 3, height: 2, tiles: vec![tile(0, 0, 5, 10)], objects: Vec::new() };
    let result = transform_pattern(&pat, 0, true, false, &keep);
    assert_eq!(result.width, 3);
    assert_eq!(result.tiles[0].dx, 2);
    assert_eq!(result.tiles[0].dy, 0);
}

#[test]
fn transform_flip_y() {
    let pat = StampPattern { width: 3, height: 2, tiles: vec![tile(0, 0, 5, 10)], objects: Vec::new() };
    let result = transform_pattern(&pat, 0, false, true, &keep);
    assert_eq!(result.tiles[0].dx, 0);
    assert_eq!(result.tiles[0].dy, 1);
}

#[test]
fn transform_270cw() {
    let pat = StampPattern { width: 2, height: 3, tiles: vec![tile(1, 0, 10, 50)], objects: Vec::new() };
    let result = transform_pattern(&pat, 3, false, false, &keep);
    assert_eq!(result.width, 3);
    assert_eq!(result.height, 2);
    assert_eq!(result.tiles[0].dx, 0);
    assert_eq!(result.tiles[0].dy, 0);
}

#[test]
fn transform_flip_x_then_90cw() {
    let pat = StampPattern { width: 3, height: 2, tiles: vec![tile(0, 0, 5, 10)], objects: Vec::new() };
    let result = transform_pattern(&pat, 1, true, false, &keep);
    assert_eq!(result.width, 2);
    assert_eq!(result.height, 3);
    assert_eq!(result.tiles[0].dx, 1);
    assert_eq!(result.tiles[0].dy, 2);
}

#[test]
fn transform_object_positions() {
    let pat = StampPattern {
        width: 2,
        height: 2,
        tiles: Vec::new(),
        objects: vec![StampObject::Feature {
            name: "Tree1".into(),
            offset_x: 0,
            offset_y: 0,
            direction: 0,
            player: None,
        }],
    };
    let result = transform_pattern(&pat, 1, false, false, &keep);
    let StampObject::Feature { offset_x, offset_y, direction, name, .. } = &result.objects[0] else {
        unreachable!("transform_pattern preserves variant; input is Feature");
    };
    assert_eq!(*offset_x, 256);
    assert_eq!(*offset_y, 0);
    assert_eq!(*direction, 0x4000);
    assert_eq!(name, "Tree1");
}

#[test]
fn transform_pattern_retextures_and_keeps_heights() {
    let pat = StampPattern { width: 1, height: 1, tiles: vec![tile(0, 0, 7, 99)], objects: Vec::new() };
    let result = transform_pattern(&pat, 0, false, false, &|t: u16| t + 1);
    assert_eq!(result.tiles[0].texture, 8);
    assert_eq!(result.tiles[0].height, 99);
}

#[test]
fn rotate_direction_90cw() {
    assert_eq!(rotate_direction(0, 1), 0x4000);
    assert_eq!(rotate_direction(0x4000, 1), 0x8000);
    assert_eq!(rotate_direction(0x8000, 1), 0xC000);
    assert_eq!(rotate_direction(0xC000, 1), 0);
}

#[test]
fn flip_direction_x_cardinals() {
    assert_eq!(flip_direction_x(0), 0);
    assert_eq!(flip_direction_x(0x4000), 0xC000);
    assert_eq!(flip_direction_x(0x8000), 0x8000);
    assert_eq!(flip_direction_x(0xC000), 0x4000);
}

#[test]
fn flip_direction_y_cardinals() {
    assert_eq!(flip_direction_y(0), 0x8000);
    assert_eq!(flip_direction_y(0x8000), 0);
    assert_eq!(flip_direction_y(0x4000), 0x4000);
    assert_eq!(flip_direction_y(0xC000), 0xC000);
}

#[test]
fn transform_object_direction_flip_and_rotate() {
    assert_eq!(transform_object_direction(0, 1, true, false), 0x4000);
    assert_eq!(transform_object_direction(0x4000, 2, false, true), 0xC000);
    assert_eq!(transform_object_direction(0x8000, 3, true, true), 0xC000);
}

#[test]
fn flips_are_involutions_and_four_turns_are_identity() {
    for d in [0u16, 1, 0x1234, 0x4000, 0xFFFF] {
        assert_eq!(flip_direction_x(flip_direction_x(d)), d);
        assert_eq!(flip_direction_y(flip_direction_y(d)), d);
        assert_eq!(rotate_direction(d, 4), d);
        assert_eq!(rotate_direction(rotate_direction(d, 1), 3), d);
    }
}

#[test]
fn rotate_tile_pos_quarter_turns() {
    assert_eq!(rotate_tile_pos(0, 0, 2, 3, 1), (2, 0));
    assert_eq!(rotate_tile_pos(1, 2, 2, 3, 2), (0, 0));
    assert_eq!(rotate_tile_pos(1, 0, 2, 3, 3), (0, 0));
    assert_eq!(rotate_tile_pos(1, 2, 2, 3, 4), (1, 2));
}

#[test]
fn object_offset_mirrors_within_extent() {
    assert_eq!(transform_object_offset(64, 0, 256, 256, 0, true, false), (192, 0));
    assert_eq!(transform_object_offset(0, 0, 256, 256, 1, false, false), (256, 0));
}

#[test]
fn four_quarter_turns_give_the_pattern_back() {
    let pat = StampPattern {
        width: 3,
        height: 2,
        tiles: vec![tile(0, 0, 1, 10), tile(2, 1, 2, 20), tile(1, 0, 3, 30)],
        objects: vec![
            StampObject::Structure {
                name: "A0LightFactory".into(),
                offset_x: 64,
                offset_y: 192,
                direction: 0x4000,
                player: 1,
                modules: 2,
            },
            StampObject::Feature { name: "Tree1".into(), offset_x: 300, offset_y: 10, direction: 0, player: None },
        ],
    };
    let mut cur = transform_pattern(&pat, 1, false, false, &keep);
    assert_eq!((cur.width, cur.height), (2, 3));
    assert_eq!((cur.tiles[0].dx, cur.tiles[0].dy), (1, 0));
    for _ in 0..3 {
        cur = transform_pattern(&cur, 1, false, false, &keep);
    }
    assert_eq!((cur.width, cur.height), (3, 2));
    assert_eq!(cur.tiles, pat.tiles);
    assert_eq!(format!("{:?}", cur.objects), format!("{:?}", pat.objects));
}
