use lmu_shared_memory::text::{contains, decode, eq_ignore_ascii_case, lower_chars, trim, white_space};
use lmu_shared_memory::{Error, MAPPING_NAME};

#[test]
fn fields_end_at_the_first_nul() {
    assert_eq!(decode(b"  Le Mans \0garbage"), "Le Mans");
    assert_eq!(decode(b"no nul"), "no nul");
    assert_eq!(decode(b""), "");
    assert_eq!(decode(b"\0\0\0"), "");
}

#[test]
fn invalid_text_is_replaced() {
    assert_eq!(decode(b"caf\xe9\0"), "caf\u{fffd}");
    assert_eq!(decode("Le Mans \u{e9}\0".as_bytes()), "Le Mans \u{e9}");
    let mut all: Vec<u8> = (1..=255).collect();
    all.push(0);
    assert_eq!(decode(&all), String::from_utf8_lossy(&all[..255]).trim());
}

#[test]
fn white_space_is_that_of_unicode() {
    for code in 0..=0x10ffff {
        if let Some(c) = char::from_u32(code) {
            assert_eq!(white_space(c), c.is_whitespace(), "{code:x}");
        }
    }
}

#[test]
fn texts_are_trimmed() {
    for text in ["", " ", "a", " a ", "\u{2003}a b\t\n", "\u{feff}a"] {
        assert_eq!(trim(text), text.trim());
    }
}

#[test]
fn ascii_case_is_ignored() {
    for (a, b) in [("abc", "ABC"), ("\u{e9}", "\u{c9}"), ("a", "ab"), ("[", "{"), ("Z", "z")] {
        assert_eq!(eq_ignore_ascii_case(a, b), a.eq_ignore_ascii_case(b));
    }
}

#[test]
fn parts_are_found() {
    let text = lower_chars("LMP2 ELMS");
    for part in ["lmp2", "elms", "", "2 e", "lmp3", "lmp2 elms ", "s"] {
        assert_eq!(contains(&text, part), "lmp2 elms".contains(part));
    }
}

#[test]
fn errors_have_messages() {
    assert_eq!(
        Error::UnsupportedPlatform.message(),
        "LMU shared memory is only available on Windows"
    );
    assert_eq!(
        Error::SharedMemoryUnavailable { name: MAPPING_NAME.into(), source: "gone".into() }.message(),
        "shared memory 'LMU_Data' is unavailable: gone"
    );
    assert_eq!(
        Error::MapViewFailed { name: "X".into() }.message(),
        "failed to map shared memory 'X'"
    );
    assert_eq!(
        Error::OutOfBounds {
            name: "X".into(),
            offset: 324_816,
            value_size: 8,
            mapping_size: 0,
        }
        .message(),
        "read outside shared memory 'X': 324816 + 8 > 0"
    );
}

#[test]
fn bytes_behind_the_nul_do_not_count() {
    let text = decode(b" \xffa\0bc");
    assert_eq!(text, decode(b" \xffa\0\xfe\0"));
    assert_eq!(text, "\u{fffd}a");
    let all: Vec<u8> = (0..=255).rev().collect();
    for field in all.windows(32) {
        let text = decode(field);
        assert!(!text.contains('\0'));
        assert_eq!(text.trim(), text);
    }
}
