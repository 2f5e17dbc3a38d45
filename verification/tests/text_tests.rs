use ga_sim::text::{obj_face_line, push_decimal, speaker_file_name};

#[test]
fn decimal_formatting() {
    for n in [0usize, 7, 10, 99, 100, 12345, usize::MAX] {
        let mut s = String::from("x");
        push_decimal(&mut s, n);
        assert_eq!(s, format!("x{}", n));
    }
}

#[test]
fn speaker_file_names() {
    assert_eq!(speaker_file_name("A", 0), "Amir_SetA_Speaker_1.wav");
    assert_eq!(speaker_file_name("B", 13), "Amir_SetB_Speaker_14.wav");
    assert_eq!(speaker_file_name("A", 9), "Amir_SetA_Speaker_10.wav");
}

#[test]
fn obj_face_lines() {
    assert_eq!(obj_face_line(0), "f 1 2 3");
    assert_eq!(obj_face_line(3), "f 10 11 12");
    assert_eq!(obj_face_line(41), "f 124 125 126");
}
