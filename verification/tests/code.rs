use herdr_share::code::{code_of_digest, generate_code, record_file_name, CODE_CHARS};

#[test]
fn codes_come_from_the_digest_of_time_process_and_chance() {
    assert_eq!(generate_code(0, 0, [0; 8]), "6edx78");
    assert_eq!(generate_code(1700000000123456789, 4242, [1, 2, 3, 4, 5, 6, 7, 8]), "cpqsft");
    assert_eq!(generate_code(1700000000123456789, 4242, [8, 7, 6, 5, 4, 3, 2, 1]), "mx37e6");
    assert_eq!(generate_code(u128::MAX, u32::MAX, [255; 8]), "wqtr6g");
}

#[test]
fn a_digest_gives_one_character_for_each_of_its_first_bytes() {
    assert_eq!(code_of_digest(&[0, 1, 30, 31, 32, 255, 9, 9]), "ab9abh");
    assert_eq!(code_of_digest(&[0; 6]), "aaaaaa");
}

#[test]
fn codes_are_easy_to_read() {
    for seed in 0..200u128 {
        let code = generate_code(seed, 1, [0; 8]);
        assert_eq!(code.len(), 6);
        for c in code.chars() {
            assert!(CODE_CHARS.contains(c));
            assert!(!"il01oILO".contains(c));
        }
    }
}

#[test]
fn recordings_are_named_after_the_code() {
    assert_eq!(record_file_name("abc234"), "herdr-session-abc234.rec");
}
