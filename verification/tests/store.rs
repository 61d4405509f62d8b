use gap::store::{
    check_send_store, new_send_store_dir_name, recv_store_dir_name, secret_key_hex,
    send_store_dir_name, SendStoreError,
};

#[test]
fn send_store_name_is_lower_hex_suffix() {
    let suffix = [0x00, 0x01, 0x0f, 0x10, 0xab, 0xcd, 0xef, 0xff, 0, 0, 0, 0, 0, 0, 0, 0x7a];
    assert_eq!(send_store_dir_name(&suffix), ".gap-send-00010f10abcdefff000000000000007a");
}

#[test]
fn fresh_send_store_names_have_the_shape() {
    let name = new_send_store_dir_name();
    assert!(name.starts_with(".gap-send-"));
    let hex = &name[".gap-send-".len()..];
    assert_eq!(hex.len(), 32);
    assert!(hex.chars().all(|c| c.is_ascii_digit() || ('a'..='f').contains(&c)));
}

#[test]
fn recv_store_name_appends_hash() {
    assert_eq!(recv_store_dir_name("deadbeef"), ".gap-recv-deadbeef");
}

#[test]
fn secret_key_is_printed_in_lower_hex() {
    assert_eq!(secret_key_hex(&[0xde, 0xad, 0xbe, 0xef]), "deadbeef");
    assert_eq!(secret_key_hex(&[]), "");
}

#[test]
fn send_store_refusals() {
    assert!(matches!(check_send_store(true, true), Err(SendStoreError::SharedTwice)));
    assert!(matches!(check_send_store(false, true), Err(SendStoreError::SharesCurrentDirectory)));
    assert!(check_send_store(false, false).is_ok());
    assert_eq!(
        SendStoreError::SharedTwice.message("/home/u"),
        "can not share twice from the same directory: /home/u"
    );
    assert_eq!(
        SendStoreError::SharesCurrentDirectory.message("/home/u"),
        "can not share from the current directory"
    );
}

#[test]
fn different_suffixes_name_different_stores() {
    let mut a = [0u8; 16];
    let mut b = [0u8; 16];
    a[15] = 0x10;
    b[15] = 0x01;
    assert_ne!(send_store_dir_name(&a), send_store_dir_name(&b));
}
