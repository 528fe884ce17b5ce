use win_expl::hashing::file_hash_hex;
use win_expl::hashing::to_hex_upper;
use win_expl::hashing::HashFunction;

#[test]
fn hex_rendering_is_two_upper_digits_per_byte() {
    assert_eq!(to_hex_upper(&vec![]), "");
    assert_eq!(to_hex_upper(&vec![0x00, 0x0f, 0xa5, 0xff]), "000FA5FF");
}

#[test]
fn md5_of_known_input() {
    assert_eq!(
        file_hash_hex(b"abc", HashFunction::MD5),
        "900150983CD24FB0D6963F7D28E17F72"
    );
    assert_eq!(
        file_hash_hex(b"", HashFunction::MD5),
        "D41D8CD98F00B204E9800998ECF8427E"
    );
}

#[test]
fn sha1_of_known_input() {
    assert_eq!(
        file_hash_hex(b"abc", HashFunction::SHA1),
        "A9993E364706816ABA3E25717850C26C9CD0D89D"
    );
}

#[test]
fn sha256_of_known_input() {
    assert_eq!(
        file_hash_hex(b"abc", HashFunction::SHA256),
        "BA7816BF8F01CFEA414140DE5DAE2223B00361A396177A9CB410FF61F20015AD"
    );
}

#[test]
fn sha512_of_known_input() {
    assert_eq!(
        file_hash_hex(b"abc", HashFunction::SHA512),
        "DDAF35A193617ABACC417349AE20413112E6FA4E89A97EA20A9EEEE64B55D39A2192992A274FC1A836BA3C23A3FEEBBD454D4423643CE80E2A9AC94FA54CA49F"
    );
}
