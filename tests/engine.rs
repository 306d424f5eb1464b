use elegabalus::{convert, convert_block, generate_key, Block, Elegabalus, Key};

fn sequential_key() -> Key {
    [
        Block(1),
        Block(2),
        Block(3),
        Block(4),
        Block(5),
        Block(6),
        Block(7),
        Block(8),
        Block(9),
        Block(10),
        Block(11),
        Block(12),
        Block(13),
        Block(14),
        Block(15),
        Block(16),
    ]
}

#[test]
fn polynomial_of_sequential_window() {
    let key = sequential_key();
    assert_eq!(Elegabalus::polynomial(&key), Block(0x063c4c5373467114));
    assert_eq!(Elegabalus::polynomial(&[Block(0); 16]), Block(0));
    assert_eq!(Elegabalus::polynomial(&[Block(1); 16]), Block(16));
}

#[test]
fn rotate_key_touches_only_the_window() {
    let mut state: Vec<Block> = sequential_key().to_vec();
    state.push(Block(0));
    Elegabalus::rotate_key(&mut state, 0, &Block(3));
    let expected: Vec<Block> = [
        0x2u64, 0xb, 0x18, 0x55, 0xf6, 0x2df, 0x88c, 0x19a9, 0x4cea, 0xe6a3, 0x2b3f0, 0x81bfd,
        0x1853de, 0x48fb77, 0xdaf264, 0x290d751, 0x0,
    ]
    .iter()
    .map(|v| Block(*v))
    .collect();
    assert_eq!(state, expected);
}

#[test]
fn single_block_scenario() {
    let key = sequential_key();
    let plain = convert(b"AAAAAAAA".to_vec());
    assert_eq!(plain, vec![Block(0x4141414141414141)]);
    let cipher = Elegabalus::encrypt(key, plain);
    let expected = Elegabalus::polynomial(&key) ^ Block(0x4141414141414141);
    assert_eq!(cipher, vec![expected]);
    assert_eq!(cipher, vec![Block(0x477d0d1232073055)]);
    let back = Elegabalus::decrypt(key, cipher);
    assert_eq!(back, vec![Block(0x4141414141414141)]);
}

#[test]
fn multi_block_ciphertext() {
    let key = sequential_key();
    let cipher = Elegabalus::encrypt(key, vec![Block(1), Block(2), Block(3)]);
    assert_eq!(
        cipher,
        vec![Block(0x063c4c5373467115), Block(0x179bf10be5375c07), Block(0xf3ce56675436265b)]
    );
    let cipher = Elegabalus::encrypt(key, convert(b"Hello World!".to_vec()));
    assert_eq!(cipher, vec![Block(0x4e59203f1c66267b), Block(0x899e1166f6ca9311)]);
}

#[test]
fn empty_input_gives_empty_output() {
    let key = sequential_key();
    assert_eq!(Elegabalus::encrypt(key, vec![]), Vec::<Block>::new());
    assert_eq!(Elegabalus::decrypt(key, vec![]), Vec::<Block>::new());
}

#[test]
fn encryption_is_deterministic() {
    let key = sequential_key();
    let plain = convert(b"the same message, twice".to_vec());
    let first = Elegabalus::encrypt(key, plain.clone());
    let second = Elegabalus::encrypt(key, plain);
    assert_eq!(first, second);
}

#[test]
fn lengths_are_preserved() {
    let key = sequential_key();
    let plain: Vec<Block> = (0..40u64).map(Block).collect();
    let cipher = Elegabalus::encrypt(key, plain.clone());
    assert_eq!(cipher.len(), 40);
    assert_eq!(Elegabalus::decrypt(key, cipher).len(), 40);
    assert_eq!(Elegabalus::decrypt(key, vec![Block(7); 3]).len(), 3);
}

#[test]
fn byte_round_trip() {
    let key = sequential_key();
    let msg = b"sixteen bytes!!!and eight".to_vec()[..24].to_vec();
    let back = convert_block(Elegabalus::decrypt(key, Elegabalus::encrypt(key, convert(msg.clone()))));
    assert_eq!(back, msg);
}

#[test]
fn round_trip_with_a_random_key() {
    let key = generate_key();
    let plain: Vec<Block> = (0..33u64).map(|v| Block(v.wrapping_mul(0x9e3779b97f4a7c15))).collect();
    let cipher = Elegabalus::encrypt(key, plain.clone());
    assert_ne!(cipher, plain);
    assert_eq!(Elegabalus::decrypt(key, cipher), plain);
}

#[test]
fn generated_keys_differ() {
    assert_ne!(generate_key(), generate_key());
}
