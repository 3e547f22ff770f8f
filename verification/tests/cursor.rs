use ryowm::cursor::select_cursor_image;

fn put(out: &mut Vec<u8>, value: u32) {
    out.extend_from_slice(&value.to_le_bytes());
}

/// An Xcursor file holding square images of the given (nominal size, side)
/// pairs, each pixel filled with its image's index.
fn cursor_file(images: &[(u32, u32)]) -> Vec<u8> {
    const IMAGE_TYPE: u32 = 0xfffd_0002;
    let mut out = Vec::new();
    out.extend_from_slice(b"Xcur");
    put(&mut out, 16);
    put(&mut out, 0x1_0000);
    put(&mut out, images.len() as u32);
    let mut pos = 16 + 12 * images.len() as u32;
    for &(size, side) in images {
        put(&mut out, IMAGE_TYPE);
        put(&mut out, size);
        put(&mut out, pos);
        pos += 36 + 4 * side * side;
    }
    for (index, &(size, side)) in images.iter().enumerate() {
        put(&mut out, 0x24);
        put(&mut out, IMAGE_TYPE);
        put(&mut out, size);
        put(&mut out, 1);
        put(&mut out, side);
        put(&mut out, side);
        put(&mut out, side / 2);
        put(&mut out, side / 2);
        put(&mut out, 0);
        out.extend(std::iter::repeat(index as u8).take((4 * side * side) as usize));
    }
    out
}

#[test]
fn cursor_selection_picks_nearest_size() {
    let file = cursor_file(&[(16, 1), (32, 2), (48, 3)]);
    let best = select_cursor_image(&file, 30).expect("file parses");
    assert_eq!(best.size, 32);
    assert_eq!((best.width, best.height), (2, 2));
    assert_eq!((best.xhot, best.yhot), (1, 1));
    assert_eq!(best.pixels_rgba, vec![1u8; 16]);
    assert_eq!(select_cursor_image(&file, 100).expect("file parses").size, 48);
}

#[test]
fn cursor_selection_prefers_first_of_equally_near() {
    let file = cursor_file(&[(16, 1), (32, 2)]);
    let best = select_cursor_image(&file, 24).expect("file parses");
    assert_eq!(best.size, 16);
    assert_eq!(best.pixels_rgba, vec![0u8; 4]);
}

#[test]
fn cursor_selection_rejects_malformed_or_empty_files() {
    assert!(select_cursor_image(b"not a cursor", 24).is_none());
    assert!(select_cursor_image(&cursor_file(&[]), 24).is_none());
    let mut truncated = cursor_file(&[(16, 4)]);
    truncated.truncate(truncated.len() - 1);
    assert!(select_cursor_image(&truncated, 24).is_none());
}
