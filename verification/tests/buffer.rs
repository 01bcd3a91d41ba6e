use todo_core::buffer::{
    buff_to_bool, buff_to_char, buff_to_color, buff_to_keycode, buff_to_u32, buff_to_u8, AsBuffer,
    IntoBuffer,
};
use todo_core::key::{Color, KeyCode};

#[test]
fn bool_buff() {
    let test = true;
    let test_buf = test.as_buffer();
    assert_eq!(test, buff_to_bool(&test_buf));
}

#[test]
fn u32_buff() {
    let test: u32 = 35;
    let test_buf = test.as_buffer();
    assert_eq!(test, buff_to_u32(&test_buf));
}

#[test]
fn char_buff() {
    let test = 't';
    let test_buf = test.as_buffer();
    assert_eq!(test, buff_to_char(&test_buf).unwrap());
}

#[test]
fn u8_buff() {
    let test: u8 = 12;
    let test_buf = test.as_buffer();
    assert_eq!(test, buff_to_u8(&test_buf));
}

#[test]
fn keycode_1() {
    let test = KeyCode::Backspace;
    let test_buf = test.as_buffer();
    assert_eq!(test, buff_to_keycode(&test_buf).unwrap());
}

#[test]
fn keycode_2() {
    let test = KeyCode::Char('h');
    let test_buf = test.as_buffer();
    assert_eq!(test, buff_to_keycode(&test_buf).unwrap());
}

#[test]
fn keycode_3() {
    let test = KeyCode::F(7);
    let test_buf = test.as_buffer();
    assert_eq!(test, buff_to_keycode(&test_buf).unwrap());
}

#[test]
fn color() {
    let test = Color::Rgb { r: 255, b: 255, g: 255 };
    let test_buf = test.as_buffer();
    assert_eq!(test, buff_to_color(&test_buf));
}

#[test]
fn u32_bytes_are_big_endian() {
    let buf = 0x0102_0304u32.as_buffer();
    assert_eq!(&buf[..], &[1u8, 2, 3, 4][..]);
    assert_eq!(buff_to_u32(&[0xff, 0, 0, 1]), 0xff00_0001);
}

#[test]
fn bool_bytes() {
    assert_eq!(&false.as_buffer()[..], &[0u8][..]);
    assert_eq!(&true.as_buffer()[..], &[1u8][..]);
    assert!(buff_to_bool(&[7]));
    assert!(!buff_to_bool(&[0]));
}

#[test]
fn char_outside_the_scalar_values_is_refused() {
    assert_eq!(buff_to_char(&[0, 0, 0xD8, 0]), None);
    assert_eq!(buff_to_char(&[0, 0x11, 0, 0]), None);
    assert_eq!(buff_to_char(&[0, 0, 0x26, 0x3A]), Some('\u{263A}'));
}

#[test]
fn unknown_key_tag_is_refused() {
    assert_eq!(buff_to_keycode(&[18, 0, 0, 0, 0]), None);
    assert_eq!(buff_to_keycode(&[2, 0, 0, 0xD8, 0]), None);
    assert_eq!(buff_to_keycode(&[17, 9, 9, 9, 9]), Some(KeyCode::Up));
}

#[test]
fn backspace_leaves_the_buffer_as_it_is() {
    let mut buf = [2u8, 0, 0, 0, 104];
    KeyCode::Backspace.into_buffer(&mut buf);
    assert_eq!(buf, [2u8, 0, 0, 0, 104]);
    KeyCode::F(3).into_buffer(&mut buf);
    assert_eq!(buf, [8u8, 3, 0, 0, 104]);
    KeyCode::Char('h').into_buffer(&mut buf);
    assert_eq!(buf, [2u8, 0, 0, 0, 104]);
    KeyCode::Tab.into_buffer(&mut buf);
    assert_eq!(buf, [16u8, 0, 0, 0, 104]);
}

#[test]
fn named_color_is_stored_as_white() {
    assert_eq!(&Color::Named.as_buffer()[..], &[255u8, 255, 255][..]);
    let mut buf = [0u8, 0, 0, 9];
    Color::Rgb { r: 1, g: 2, b: 3 }.into_buffer(&mut buf);
    assert_eq!(buf, [1u8, 2, 3, 9]);
}
