use secure_keyspaces::naming::{
    is_reserved_raw_keyspace_name, physical_keyspace_name, RAW_KEYSPACE_PREFIX,
};
use secure_keyspaces::order::{bytes_equal, bytes_less, copy_bytes, read_be_bytes};

#[test]
fn physical_names_are_reserved() {
    assert_eq!("$fjall.secure.events", physical_keyspace_name("events"));
    for name in ["", "events", "\u{e9}v\u{e9}nements", "$fjall.secure.x"] {
        let physical = physical_keyspace_name(name);
        assert!(is_reserved_raw_keyspace_name(&physical));
        assert_eq!(format!("{RAW_KEYSPACE_PREFIX}{name}"), physical);
    }
    for name in ["", "events", "$fjall.secure", "x$fjall.secure.events", "$Fjall.secure.e"] {
        assert!(!is_reserved_raw_keyspace_name(name));
    }
}

#[test]
fn byte_strings_are_ordered_like_slices() {
    let samples: [&[u8]; 6] = [b"", b"\0", b"a", b"a\0", b"b", b"\xff\xff"];

    for left in samples {
        assert_eq!(left, copy_bytes(left));
        for right in samples {
            assert_eq!(left < right, bytes_less(left, right));
            assert_eq!(left == right, bytes_equal(left, right));
        }
    }
    assert_eq!(0x0102, read_be_bytes(&[1, 2]));
}
