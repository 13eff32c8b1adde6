//! Response compression for the `encode` directive: gzip and zstd.
//!
//! The encoders are those of the `flate2` and `zstd` crates. The gzip encoder
//! writes into memory and never reports an error; when the zstd encoder
//! reports one, the body is sent uncompressed.
use vstd::prelude::*;

use flate2::write::GzEncoder;
use std::io::Write;

verus! {

/// An algorithm named by a site's `encode` directive, in priority order.
#[derive(Debug, Clone, Copy, PartialEq, Eq, Structural)]
pub enum Encoding {
    Gzip,
    Zstd,
}

/// A concrete compression algorithm.
#[derive(Debug, Clone, Copy, PartialEq, Eq, Structural)]
pub enum Algo {
    Gzip,
    Zstd,
}

/// The `Content-Encoding` token of an algorithm, as characters.
pub open spec fn token_text(a: Algo) -> Seq<char> {
    match a {
        Algo::Gzip => seq!['g', 'z', 'i', 'p'],
        Algo::Zstd => seq!['z', 's', 't', 'd'],
    }
}

/// The `Content-Encoding` token of an algorithm, as ASCII bytes.
pub open spec fn token_bytes(a: Algo) -> Seq<u8> {
    token_text(a).map_values(|c: char| c as u8)
}

impl Encoding {
    /// The algorithm a configured encoding stands for.
    pub open spec fn spec_algo(self) -> Algo {
        match self {
            Encoding::Gzip => Algo::Gzip,
            Encoding::Zstd => Algo::Zstd,
        }
    }

    #[verifier::when_used_as_spec(spec_algo)]
    pub fn algo(self) -> (r: Algo)
        ensures
            r == self.spec_algo(),
    {
        match self {
            Encoding::Gzip => Algo::Gzip,
            Encoding::Zstd => Algo::Zstd,
        }
    }
}

impl Algo {
    /// The `Content-Encoding` token for this algorithm.
    pub fn token(self) -> (r: &'static str)
        ensures
            r@ == token_text(self),
    {
        match self {
            Algo::Gzip => {
                let t = "gzip";
                proof {
                    reveal_strlit("gzip");
                }
                assert(t@ =~= token_text(self));
                t
            },
            Algo::Zstd => {
                let t = "zstd";
                proof {
                    reveal_strlit("zstd");
                }
                assert(t@ =~= token_text(self));
                t
            },
        }
    }

    /// The token as ASCII bytes.
    pub fn token_bytes(self) -> (r: Vec<u8>)
        ensures
            r@ == token_bytes(self),
    {
        let r: Vec<u8> = match self {
            Algo::Gzip => vec![103u8, 122u8, 105u8, 112u8],
            Algo::Zstd => vec![122u8, 115u8, 116u8, 100u8],
        };
        assert(r@ =~= token_bytes(self));
        r
    }
}

/// The compression level that `flate2::Compression::default()` stands for.
pub const GZIP_LEVEL: u32 = 6;

/// The zstd level used for responses.
pub const ZSTD_LEVEL: i32 = 3;

#[verifier::external_type_specification]
#[verifier::external_body]
pub struct ExIoError(std::io::Error);

/// A `flate2` gzip encoder writing into a `Vec<u8>`, held in a private field:
/// the encoder's type is generic over a `std::io::Write` sink, so it does not
/// appear in the signatures of this module.
#[verifier::external_body]
pub struct GzipStream {
    encoder: GzEncoder<Vec<u8>>,
}

/// The bytes fed so far into a gzip stream.
pub uninterp spec fn gz_written(stream: GzipStream) -> Seq<u8>;

/// The compression level a gzip stream was made with.
pub uninterp spec fn gz_level(stream: GzipStream) -> u32;

/// The gzip member that `flate2` writes for `data` at compression `level`:
/// a fresh `GzEncoder` fed `data` with one `write_all`, then finished.
pub uninterp spec fn gzip_member(level: u32, data: Seq<u8>) -> Seq<u8>;

/// The zstd frame that `zstd::encode_all` produces for `data` at `level`.
pub uninterp spec fn zstd_frame(level: i32, data: Seq<u8>) -> Seq<u8>;

/// `flate2::write::GzEncoder::new` over an empty `Vec<u8>` sink, with the
/// level given as `flate2::Compression::new(level)`. The new encoder has been
/// fed nothing and keeps the level it was made with.
#[verifier::external_body]
fn gz_encoder_new(level: u32) -> (encoder: GzipStream)
    requires
        level <= 9,
    ensures
        gz_written(encoder) == Seq::<u8>::empty(),
        gz_level(encoder) == level,
{
    GzipStream { encoder: GzEncoder::new(Vec::new(), flate2::Compression::new(level)) }
}

/// `std::io::Write::write_all` on a gzip encoder that has been fed nothing.
/// Its sink is a `Vec<u8>`, whose writes never fail or stop short, and the
/// `miniz_oxide` deflate stream fails only when misused; so the call succeeds,
/// the encoder has then been fed exactly `buf`, and its level is unchanged.
#[verifier::external_body]
fn gz_write_all(encoder: &mut GzipStream, buf: &[u8]) -> (r: Result<(), std::io::Error>)
    requires
        gz_written(*old(encoder)) == Seq::<u8>::empty(),
    ensures
        r is Ok,
        gz_level(*final(encoder)) == gz_level(*old(encoder)),
        gz_written(*final(encoder)) == buf@,
{
    encoder.encoder.write_all(buf)
}

/// `flate2::write::GzEncoder::finish` over a `Vec<u8>` sink, which cannot
/// fail: the sink then holds the gzip member for what the encoder was fed at
/// its level. A member is a 10-byte header that starts with the bytes
/// `1f 8b 08` (magic number, deflate method), the deflate data, and an 8-byte
/// trailer.
#[verifier::external_body]
fn gz_finish(encoder: GzipStream) -> (r: Result<Vec<u8>, std::io::Error>)
    ensures
        r is Ok,
        r matches Ok(v) ==> v@ == gzip_member(gz_level(encoder), gz_written(encoder))
            && is_gzip_framed(v@),
{
    encoder.encoder.finish()
}

/// `zstd::encode_all` reading from `data`: on success, the zstd frame for
/// `data` at `level`, which starts with the zstd magic number. Reading a slice
/// and writing a `Vec<u8>` cannot fail, so it fails only when the zstd library
/// cannot obtain working memory; when that happens is not stated.
#[verifier::external_body]
fn zstd_encode_all(data: &[u8], level: i32) -> (r: Result<Vec<u8>, std::io::Error>)
    requires
        1 <= level <= 19,
    ensures
        r matches Ok(v) ==> v@ == zstd_frame(level, data@) && is_zstd_framed(v@),
{
    ::zstd::encode_all(data, level)
}

/// Whether `s` has the shape of a gzip member: at least a header and a
/// trailer, the magic bytes `1f 8b` first, then the method byte `08`
/// (deflate).
pub open spec fn is_gzip_framed(s: Seq<u8>) -> bool {
    s.len() >= 18 && s[0] == 0x1f && s[1] == 0x8b && s[2] == 0x08
}

/// Whether `s` starts with the zstd magic number `0xFD2FB528`, written
/// little-endian.
pub open spec fn is_zstd_framed(s: Seq<u8>) -> bool {
    s.len() >= 4 && s[0] == 0x28 && s[1] == 0xb5 && s[2] == 0x2f && s[3] == 0xfd
}

/// What the encoder of `algo` produces for `body`.
pub open spec fn encoded(algo: Algo, body: Seq<u8>) -> Seq<u8> {
    match algo {
        Algo::Gzip => gzip_member(GZIP_LEVEL, body),
        Algo::Zstd => zstd_frame(ZSTD_LEVEL, body),
    }
}

/// What compressing `body` with `algo` may give: for gzip, the gzip member;
/// for zstd, the zstd frame, or `body` itself when the zstd encoder reports an
/// error.
pub open spec fn compressed(algo: Algo, body: Seq<u8>, r: Seq<u8>) -> bool {
    match algo {
        Algo::Gzip => r == encoded(algo, body) && is_gzip_framed(r),
        Algo::Zstd => (r == encoded(algo, body) && is_zstd_framed(r)) || r == body,
    }
}

/// Compress `body` with `algo`: the encoder's output, or `body` itself when
/// the zstd encoder reports an error.
pub fn compress(algo: Algo, body: &[u8]) -> (r: Vec<u8>)
    ensures
        compressed(algo, body@, r@),
{
    match algo {
        Algo::Gzip => gzip(body),
        Algo::Zstd => zstd(body),
    }
}

fn gzip(body: &[u8]) -> (r: Vec<u8>)
    ensures
        r@ == gzip_member(GZIP_LEVEL, body@),
        is_gzip_framed(r@),
{
    let mut encoder = gz_encoder_new(GZIP_LEVEL);
    if gz_write_all(&mut encoder, body).is_err() {
        return vstd::slice::slice_to_vec(body);
    }
    match gz_finish(encoder) {
        Ok(v) => v,
        Err(_) => vstd::slice::slice_to_vec(body),
    }
}

fn zstd(body: &[u8]) -> (r: Vec<u8>)
    ensures
        (r@ == zstd_frame(ZSTD_LEVEL, body@) && is_zstd_framed(r@)) || r@ == body@,
{
    let outcome = zstd_encode_all(body, ZSTD_LEVEL);
    output_or_plain(outcome, body)
}

/// The output of an encoder that succeeded, or `body` itself when it
/// reported an error.
pub fn output_or_plain(outcome: Result<Vec<u8>, std::io::Error>, body: &[u8]) -> (r: Vec<u8>)
    ensures
        match outcome {
            Ok(v) => r@ == v@,
            Err(_) => r@ == body@,
        },
{
    match outcome {
        Ok(v) => v,
        Err(_) => vstd::slice::slice_to_vec(body),
    }
}

} // verus!
