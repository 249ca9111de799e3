use std::io::Write;
use vstd::prelude::*;

verus! {

/// `std::io::Error`, carried opaque as the encoder's error.
#[verifier::external_type_specification]
#[verifier::external_body]
pub struct ExIoError(std::io::Error);

/// One bit step of the reflected CRC-32 register (IEEE polynomial,
/// `0xEDB88320` bit-reversed).
pub open spec fn crc_bit(c: u32) -> u32 {
    if c & 1 == 1 {
        (c >> 1u32) ^ 0xEDB8_8320u32
    } else {
        c >> 1u32
    }
}

/// `n` bit steps of the register.
pub open spec fn crc_bits(c: u32, n: nat) -> u32
    decreases n,
{
    if n == 0 {
        c
    } else {
        crc_bit(crc_bits(c, (n - 1) as nat))
    }
}

/// The register after the bytes of `data`, starting from `c`: each byte is
/// folded into the low bits, then eight bit steps.
pub open spec fn crc_update(c: u32, data: Seq<u8>) -> u32
    decreases data.len(),
{
    if data.len() == 0 {
        c
    } else {
        crc_bits(crc_update(c, data.drop_last()) ^ (data.last() as u32), 8)
    }
}

/// The CRC-32 checksum (IEEE, as PNG uses) of `data`: the register starts
/// all ones and is inverted at the end.
pub open spec fn crc32_of(data: Seq<u8>) -> u32 {
    crc_update(0xFFFF_FFFFu32, data) ^ 0xFFFF_FFFFu32
}

/// What compressing `data` into a zlib stream (default compression level)
/// gives: the stream, or nothing where the encoder reports an error.
pub uninterp spec fn zlib_compressed(data: Seq<u8>) -> Option<Seq<u8>>;

/// `crc32fast::hash`: claimed to return the CRC-32 (IEEE) checksum of
/// `data`, as `crc32_of` writes it out.
#[verifier::external_body]
fn crc32(data: &[u8]) -> (c: u32)
    ensures
        c == crc32_of(data@),
{
    crc32fast::hash(data)
}

/// Compression with `flate2::write::ZlibEncoder` at the default level into
/// a vector: claimed to give an outcome that depends on `data` alone, named
/// `zlib_compressed`: the stream when writing and finishing succeed, and
/// nothing when the encoder reports an error (whose contents are left
/// unsaid).
#[verifier::external_body]
fn zlib_compress(data: &[u8]) -> (r: Result<Vec<u8>, std::io::Error>)
    ensures
        match r {
            Ok(v) => zlib_compressed(data@) == Some(v@),
            Err(_) => zlib_compressed(data@) is None,
        },
{
    let mut enc = flate2::write::ZlibEncoder::new(Vec::new(), flate2::Compression::default());
    enc.write_all(data)?;
    enc.finish()
}

/// The big-endian bytes of `v`.
pub open spec fn be32(v: u32) -> Seq<u8> {
    seq![(v >> 24u32) as u8, (v >> 16u32) as u8, (v >> 8u32) as u8, v as u8]
}

fn push_be32(out: &mut Vec<u8>, v: u32)
    ensures
        final(out)@ == old(out)@ + be32(v),
{
    out.push((v >> 24) as u8);
    out.push((v >> 16) as u8);
    out.push((v >> 8) as u8);
    out.push(v as u8);
    assert(final(out)@ =~= old(out)@ + be32(v));
}

fn push_all(out: &mut Vec<u8>, data: &[u8])
    ensures
        final(out)@ == old(out)@ + data@,
{
    let mut i: usize = 0;
    while i < data.len()
        invariant
            0 <= i <= data@.len(),
            out@ == old(out)@ + data@.take(i as int),
        decreases data@.len() - i,
    {
        out.push(data[i]);
        i += 1;
        assert(out@ =~= old(out)@ + data@.take(i as int));
    }
    assert(data@.take(data@.len() as int) =~= data@);
}

/// The eight bytes every PNG file starts with.
pub open spec fn png_signature() -> Seq<u8> {
    seq![137u8, 80, 78, 71, 13, 10, 26, 10]
}

/// Chunk type `IHDR`.
pub open spec fn ihdr_type() -> Seq<u8> {
    seq![73u8, 72, 68, 82]
}

/// Chunk type `IDAT`.
pub open spec fn idat_type() -> Seq<u8> {
    seq![73u8, 68, 65, 84]
}

/// Chunk type `IEND`.
pub open spec fn iend_type() -> Seq<u8> {
    seq![73u8, 69, 78, 68]
}

/// A PNG chunk: data length, type, data, and the CRC-32 of type and data.
pub open spec fn chunk_bytes(typ: Seq<u8>, data: Seq<u8>) -> Seq<u8> {
    be32(data.len() as u32) + typ + data + be32(crc32_of(typ + data))
}

/// Header data of an 8-bit RGBA image, `w` by `h`, no interlacing.
pub open spec fn ihdr_data(w: usize, h: usize) -> Seq<u8> {
    be32(w as u32) + be32(h as u32) + seq![8u8, 6, 0, 0, 0]
}

/// A PNG file of a `w` by `h` RGBA image whose filtered, compressed pixel
/// stream is `idat`.
pub open spec fn png_file(w: usize, h: usize, idat: Seq<u8>) -> Seq<u8> {
    png_signature() + chunk_bytes(ihdr_type(), ihdr_data(w, h)) + chunk_bytes(idat_type(), idat)
        + chunk_bytes(iend_type(), Seq::empty())
}

/// The first `rows` rows of an RGBA image `w` pixels wide, each preceded by
/// filter type 0.
pub open spec fn scanlines(rgba: Seq<u8>, w: nat, rows: nat) -> Seq<u8>
    decreases rows,
{
    if rows == 0 {
        Seq::empty()
    } else {
        let y = (rows - 1) as nat;
        scanlines(rgba, w, y) + seq![0u8] + rgba.subrange((y * w * 4) as int, ((y + 1) * w * 4) as int)
    }
}

/// Append one chunk of type `typ` and data `data`.
fn push_chunk(out: &mut Vec<u8>, data: &[u8], typ: &[u8; 4])
    ensures
        final(out)@ == old(out)@ + chunk_bytes(typ@, data@),
{
    push_be32(out, data.len() as u32);
    push_all(out, typ);
    push_all(out, data);
    let mut crc_buf: Vec<u8> = Vec::new();
    push_all(&mut crc_buf, typ);
    push_all(&mut crc_buf, data);
    let crc = crc32(crc_buf.as_slice());
    push_be32(out, crc);
    assert(final(out)@ =~= old(out)@ + chunk_bytes(typ@, data@));
}

/// Build one chunk: the data length, the type, the data and the CRC-32 of
/// type and data.
pub fn chunk(data: &[u8], typ: &[u8; 4]) -> (c: Vec<u8>)
    ensures
        c@ == chunk_bytes(typ@, data@),
{
    let mut c: Vec<u8> = Vec::new();
    push_chunk(&mut c, data, typ);
    assert(c@ =~= chunk_bytes(typ@, data@));
    c
}

/// The rows of an RGBA image `w` pixels wide and `h` high, each preceded
/// by filter type 0: the stream a PNG compresses.
pub fn filter_scanlines(rgba: &[u8], w: usize, h: usize) -> (raw: Vec<u8>)
    requires
        rgba@.len() >= h * w * 4,
        h * (1 + w * 4) <= usize::MAX,
    ensures
        raw@ == scanlines(rgba@, w as nat, h as nat),
{
    let mut raw: Vec<u8> = Vec::new();
    let mut y: usize = 0;
    while y < h
        invariant
            0 <= y <= h,
            rgba@.len() >= h * w * 4,
            h * (1 + w * 4) <= usize::MAX,
            raw@ == scanlines(rgba@, w as nat, y as nat),
        decreases h - y,
    {
        proof {
            vstd::arithmetic::mul::lemma_mul_inequality(y as int + 1, h as int, w * 4);
            vstd::arithmetic::mul::lemma_mul_inequality(w * 4, 1 + w * 4, h as int);
            vstd::arithmetic::mul::lemma_mul_is_commutative(w * 4, h as int);
            vstd::arithmetic::mul::lemma_mul_is_associative(h as int, w as int, 4);
            vstd::arithmetic::mul::lemma_mul_is_associative(y as int + 1, w as int, 4);
            vstd::arithmetic::mul::lemma_mul_is_associative(y as int, w as int, 4);
            vstd::arithmetic::mul::lemma_mul_is_distributive_add_other_way(w * 4, y as int, 1);
            vstd::arithmetic::mul::lemma_mul_nonnegative(y as int, w * 4);
        }
        raw.push(0);
        let lo = y * w * 4;
        let hi = (y + 1) * w * 4;
        let mut i: usize = lo;
        let ghost base = raw@;
        while i < hi
            invariant
                lo <= i <= hi,
                hi <= rgba@.len(),
                raw@ == base + rgba@.subrange(lo as int, i as int),
            decreases hi - i,
        {
            raw.push(rgba[i]);
            i += 1;
            assert(raw@ =~= base + rgba@.subrange(lo as int, i as int));
        }
        y += 1;
        assert(raw@ =~= scanlines(rgba@, w as nat, y as nat));
    }
    raw
}

/// The PNG file of a `w` by `h` RGBA image whose filtered pixel stream
/// compresses to `idat`: signature, header, image data and end chunks.
pub fn png_from_stream(w: usize, h: usize, idat: &[u8]) -> (out: Vec<u8>)
    ensures
        out@ == png_file(w, h, idat@),
{
    let mut ihdr: Vec<u8> = Vec::new();
    push_be32(&mut ihdr, w as u32);
    push_be32(&mut ihdr, h as u32);
    ihdr.push(8);
    ihdr.push(6);
    ihdr.push(0);
    ihdr.push(0);
    ihdr.push(0);
    assert(ihdr@ =~= ihdr_data(w, h));
    let mut out: Vec<u8> = vec![137u8, 80, 78, 71, 13, 10, 26, 10];
    assert(out@ =~= png_signature());
    let ihdr_typ: [u8; 4] = [73, 72, 68, 82];
    let idat_typ: [u8; 4] = [73, 68, 65, 84];
    let iend_typ: [u8; 4] = [73, 69, 78, 68];
    assert(ihdr_typ@ =~= ihdr_type());
    assert(idat_typ@ =~= idat_type());
    assert(iend_typ@ =~= iend_type());
    push_chunk(&mut out, ihdr.as_slice(), &ihdr_typ);
    push_chunk(&mut out, idat, &idat_typ);
    let empty: Vec<u8> = Vec::new();
    push_chunk(&mut out, empty.as_slice(), &iend_typ);
    assert(empty@ =~= Seq::<u8>::empty());
    assert(out@ =~= png_file(w, h, idat@));
    out
}

/// Why an image could not be encoded.
#[derive(Debug)]
pub enum PngError {
    /// The zlib encoder failed.
    Compression(std::io::Error),
}

/// Encode an RGBA8 buffer as a PNG file (minimal encoder, filter 0 only):
/// the PNG of the filtered rows, compressed, when compressing them
/// succeeds, and the encoder's error exactly when it fails.
pub fn encode_png(rgba: &[u8], w: usize, h: usize) -> (r: Result<Vec<u8>, PngError>)
    requires
        rgba@.len() >= h * w * 4,
        h * (1 + w * 4) <= usize::MAX,
    ensures
        match zlib_compressed(scanlines(rgba@, w as nat, h as nat)) {
            Some(idat) => r matches Ok(v) && v@ == png_file(w, h, idat),
            None => r matches Err(PngError::Compression(_)),
        },
{
    let raw = filter_scanlines(rgba, w, h);
    match zlib_compress(raw.as_slice()) {
        Ok(idat) => Ok(png_from_stream(w, h, idat.as_slice())),
        Err(e) => Err(PngError::Compression(e)),
    }
}

/// A PNG file starts with the signature, then the header chunk's length
/// (13), type and the image's width and height.
pub proof fn lemma_png_header(w: usize, h: usize, idat: Seq<u8>)
    ensures
        png_file(w, h, idat).subrange(0, 8) == png_signature(),
        png_file(w, h, idat).subrange(8, 12) == be32(13),
        png_file(w, h, idat).subrange(12, 16) == ihdr_type(),
        png_file(w, h, idat).subrange(16, 20) == be32(w as u32),
        png_file(w, h, idat).subrange(20, 24) == be32(h as u32),
{
    let f = png_file(w, h, idat);
    assert(ihdr_data(w, h).len() == 13);
    assert(f.subrange(0, 8) =~= png_signature());
    assert(f.subrange(8, 12) =~= be32(13));
    assert(f.subrange(12, 16) =~= ihdr_type());
    assert(f.subrange(16, 20) =~= be32(w as u32));
    assert(f.subrange(20, 24) =~= be32(h as u32));
}

} // verus!
