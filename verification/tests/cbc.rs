use aes::cipher::block_padding::NoPadding;
use aes::cipher::{BlockDecryptMut, BlockEncryptMut, KeyIvInit};
use niiebla::{AesCbcStream, SeekFrom, Stream, StreamError, StreamView};

const KEY: [u8; 16] = [1, 2, 3, 4, 5, 6, 7, 8, 9, 10, 11, 12, 13, 14, 15, 16];
const IV: [u8; 16] = [9; 16];

fn plaintext(len: usize) -> Vec<u8> {
    (0..len).map(|i| (i * 5 + 1) as u8).collect()
}

fn encrypt(data: &[u8]) -> Vec<u8> {
    let mut buffer = data.to_vec();
    let len = buffer.len();
    cbc::Encryptor::<aes::Aes128>::new(&KEY.into(), &IV.into())
        .encrypt_padded_mut::<NoPadding>(&mut buffer, len)
        .unwrap();
    buffer
}

fn decrypt(data: &[u8]) -> Vec<u8> {
    let mut buffer = data.to_vec();
    cbc::Decryptor::<aes::Aes128>::new(&KEY.into(), &IV.into())
        .decrypt_padded_mut::<NoPadding>(&mut buffer)
        .unwrap();
    buffer
}

fn stream_over(cipher: Vec<u8>, start: u64, len: usize) -> AesCbcStream {
    let mut stream = Stream::new(cipher);
    stream.seek(SeekFrom::Start(start)).unwrap();
    AesCbcStream::new(StreamView::new(stream, len).unwrap(), KEY, IV).unwrap()
}

#[test]
fn read_from_the_start_gives_the_plaintext() {
    let plain = plaintext(64);
    let cipher = encrypt(&plain);
    assert_ne!(cipher, plain);

    let mut stream = stream_over(cipher.clone(), 0, 64);
    let mut data = vec![0; 64];
    assert_eq!(stream.read(&mut data), Ok(64));
    assert_eq!(data, plain);
    assert_eq!(stream.into_inner().stream_position(), 64);

    // A part of the first blocks.
    let mut stream = stream_over(cipher, 0, 64);
    let mut data = vec![0xEE; 40];
    data.truncate(20);
    assert_eq!(stream.read(&mut data), Ok(20));
    assert_eq!(data, plain[..20]);
    // The stream stands behind the two blocks that were taken.
    assert_eq!(stream.into_inner().stream_position(), 32);
}

#[test]
fn read_decrypts_the_window_as_the_start_of_the_view() {
    let plain = plaintext(64);
    let cipher = encrypt(&plain);
    let mut stream = stream_over(cipher.clone(), 0, 64);
    assert_eq!(stream.seek(SeekFrom::Start(20)), Ok(20));
    let mut data = vec![0; 30];
    assert_eq!(stream.read(&mut data), Ok(30));
    // The window from 16 to 64, decrypted with the vector of the stream.
    assert_eq!(data, decrypt(&cipher[16..64])[4..34]);
    // Behind the first block of the window that is the plaintext.
    assert_eq!(data[12..], plain[32..50]);
}

#[test]
fn read_is_clipped_by_the_view() {
    let plain = plaintext(64);
    let cipher = encrypt(&plain);
    let mut stream = stream_over(cipher, 0, 40);
    stream.seek(SeekFrom::Start(32)).unwrap();
    let mut data = vec![0xAA; 20];
    assert_eq!(stream.read(&mut data), Ok(8));
    // The view ends within the block: what it lacks counts as zeros, so the
    // block is not the plaintext.
    assert_eq!(data[8..], [0xAA; 12]);

    stream.seek(SeekFrom::Start(40)).unwrap();
    assert_eq!(stream.read(&mut data), Ok(0));
    stream.seek(SeekFrom::Start(400)).unwrap();
    assert_eq!(stream.read(&mut data), Ok(0));
}

#[test]
fn write_encrypts_whole_blocks() {
    let plain = plaintext(48);
    let mut stream = stream_over(vec![0; 80], 16, 64);
    assert_eq!(stream.write(&plain), Ok(48));
    assert_eq!(stream.write(&plain[..15]), Err(StreamError::Cipher));
    let bytes = stream.into_inner().into_inner().into_inner();
    assert_eq!(bytes[..16], [0; 16]);
    assert_eq!(bytes[16..64], encrypt(&plain));
    assert_eq!(bytes[64..], [0; 16]);
}

#[test]
fn read_then_write_restores_the_ciphertext() {
    let cipher: Vec<u8> = (0..96).map(|i| (i * 11 + 3) as u8).collect();
    for (at, len) in [(0u64, 96usize), (16, 32), (48, 48), (80, 16)] {
        let mut stream = stream_over(cipher.clone(), 0, 96);
        stream.seek(SeekFrom::Start(at)).unwrap();
        let mut plain = vec![0; len];
        assert_eq!(stream.read(&mut plain), Ok(len));
        assert_eq!(plain, decrypt(&cipher[at as usize..at as usize + len]));

        // A fresh stream at the same place.
        let mut fresh = stream_over(stream.into_inner().into_inner().into_inner(), 0, 96);
        fresh.seek(SeekFrom::Start(at)).unwrap();
        assert_eq!(fresh.write(&plain), Ok(len));
        assert_eq!(fresh.into_inner().into_inner().into_inner(), cipher);
    }
}
