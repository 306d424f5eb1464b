use elegabalus::{convert, convert_block, pad, Block};

#[test]
fn pad_fills_to_multiple_of_eight() {
    assert_eq!(pad(vec![1, 2, 3]), vec![1, 2, 3, 0, 0, 0, 0, 0]);
    assert_eq!(pad(vec![]), Vec::<u8>::new());
    assert_eq!(pad(vec![9; 8]), vec![9; 8]);
    assert_eq!(pad(vec![5; 9]).len(), 16);
}

#[test]
fn pad_twice_is_pad_once() {
    let once = pad(b"Hello World!".to_vec());
    assert_eq!(once.len(), 16);
    assert_eq!(pad(once.clone()), once);
}

#[test]
fn convert_reads_big_endian_blocks() {
    let blocks = convert(b"Hello World!".to_vec());
    assert_eq!(blocks, vec![Block(0x48656c6c6f20576f), Block(0x726c642100000000)]);
    assert_eq!(convert(b"AAAAAAAA".to_vec()), vec![Block(0x4141414141414141)]);
}

#[test]
fn convert_counts_ceiling_of_eighths() {
    assert_eq!(convert(vec![]).len(), 0);
    assert_eq!(convert(vec![1]).len(), 1);
    assert_eq!(convert(vec![1; 8]).len(), 1);
    assert_eq!(convert(vec![1; 17]).len(), 3);
}

#[test]
fn convert_block_writes_big_endian_bytes() {
    assert_eq!(
        convert_block(vec![Block(0x0102030405060708), Block(0xff)]),
        vec![1, 2, 3, 4, 5, 6, 7, 8, 0, 0, 0, 0, 0, 0, 0, 0xff]
    );
    assert_eq!(convert_block(vec![]), Vec::<u8>::new());
}

#[test]
fn convert_block_keeps_padding() {
    let bytes = convert_block(convert(b"Hello World!".to_vec()));
    assert_eq!(bytes, b"Hello World!\0\0\0\0".to_vec());
}
