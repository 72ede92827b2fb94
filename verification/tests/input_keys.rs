//! The input registry walked through one key's life, under an erased key
//! code standing in for a virtual key.

use light::input::InputRegistry;
use light::render::shader::parse_shader;

#[test]
fn press_repeat_release_forget_key() {
    let key: u64 = 30;
    let mut keyboard = InputRegistry::new();

    keyboard.press(key);
    assert!(keyboard.is_pressed(key));
    assert!(!keyboard.is_repeated(key));
    assert!(!keyboard.is_released(key));

    keyboard.press(key);
    assert!(!keyboard.is_pressed(key));
    assert!(keyboard.is_repeated(key));
    assert!(!keyboard.is_released(key));

    keyboard.release(key);
    assert!(!keyboard.is_pressed(key));
    assert!(!keyboard.is_repeated(key));
    assert!(keyboard.is_released(key));

    keyboard.forget(key);
    assert!(!keyboard.is_pressed(key));
    assert!(!keyboard.is_repeated(key));
    assert!(!keyboard.is_released(key));
}

#[test]
fn shader_sources_split_on_markers() {
    let lines = vec![
        String::from("#shader vertex"),
        String::from("void vmain() {"),
        String::from("}"),
        String::from("#shader fragment"),
        String::from("void fmain() {"),
        String::from("}"),
    ];
    let source = parse_shader(&lines);
    assert_eq!(source.vertex_shader, "void vmain() {\n}\n");
    assert_eq!(source.fragment_shader, "void fmain() {\n}\n");
}

#[test]
fn shader_text_starts_in_the_vertex_shader() {
    let lines = vec![String::from("attribute vec2 p;")];
    let source = parse_shader(&lines);
    assert_eq!(source.vertex_shader, "attribute vec2 p;\n");
    assert_eq!(source.fragment_shader, "");
}
