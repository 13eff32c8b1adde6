use raddy::compress::{compress, output_or_plain, Algo, Encoding};

#[test]
fn compress_roundtrips() {
    let body = b"hello world hello world".to_vec();
    for algo in [Algo::Gzip, Algo::Zstd] {
        let compressed = compress(algo, &body);
        assert!(!compressed.is_empty());
        assert_ne!(compressed, body, "{algo:?} output should differ");
    }
}

#[test]
fn tokens_name_the_algorithms() {
    assert_eq!(Algo::Gzip.token(), "gzip");
    assert_eq!(Algo::Zstd.token(), "zstd");
    assert_eq!(Algo::Gzip.token_bytes(), b"gzip".to_vec());
    assert_eq!(Algo::Zstd.token_bytes(), b"zstd".to_vec());
}

#[test]
fn encodings_map_to_algorithms() {
    assert_eq!(Encoding::Gzip.algo(), Algo::Gzip);
    assert_eq!(Encoding::Zstd.algo(), Algo::Zstd);
}

#[test]
fn gzip_output_is_a_gzip_member() {
    let body = b"hello compressible compressible compressible".to_vec();
    let gz = compress(Algo::Gzip, &body);
    // The gzip header magic, then the deflate method.
    assert_eq!(&gz[..3], &[0x1f, 0x8b, 0x08]);
    // Header and trailer alone take 18 bytes.
    assert!(gz.len() >= 18);
    // The trailer ends with the input length modulo 2^32, little-endian.
    let n = gz.len();
    assert_eq!(&gz[n - 4..], &(body.len() as u32).to_le_bytes());
}

#[test]
fn zstd_output_is_a_zstd_frame() {
    let body = b"hello compressible compressible compressible".to_vec();
    let z = compress(Algo::Zstd, &body);
    assert_eq!(&z[..4], &[0x28, 0xb5, 0x2f, 0xfd]);
}

#[test]
fn compressing_an_empty_body_still_frames_it() {
    let gz = compress(Algo::Gzip, &[]);
    assert!(gz.len() >= 18);
    let z = compress(Algo::Zstd, &[]);
    assert!(!z.is_empty());
}

#[test]
fn compression_is_deterministic() {
    let body = b"abcabcabcabcabcabcabc".to_vec();
    assert_eq!(compress(Algo::Gzip, &body), compress(Algo::Gzip, &body));
    assert_eq!(compress(Algo::Zstd, &body), compress(Algo::Zstd, &body));
}

#[test]
fn a_failed_encoder_leaves_the_body_plain() {
    let body = b"plain body".to_vec();
    let failed = Err(std::io::Error::new(std::io::ErrorKind::Other, "no memory"));
    assert_eq!(output_or_plain(failed, &body), body);
    assert_eq!(output_or_plain(Ok(vec![1u8, 2, 3]), &body), vec![1u8, 2, 3]);
}
