//! Picture and text encodings that a page goes through on its way to the terminal.
use crate::text::decimal;
use base64::{engine::general_purpose::STANDARD, Engine};
use vstd::prelude::*;

verus! {

// ---------------------------------------------------------------------------
// Base64
// ---------------------------------------------------------------------------
/// The symbol of a 6-bit value in the standard Base64 alphabet.
pub open spec fn base64_symbol(v: nat) -> char {
    if v < 26 {
        (65 + v) as char
    } else if v < 52 {
        (71 + v) as char
    } else if v < 62 {
        (v - 4) as char
    } else if v == 62 {
        '+'
    } else {
        '/'
    }
}

/// The octet at position `i`, zero past the end.
pub open spec fn octet(data: Seq<u8>, i: int) -> nat {
    if 0 <= i < data.len() {
        data[i] as nat
    } else {
        0
    }
}

/// The `i`-th 6-bit group of `data`, read as one long bit string with zeros past the end.
pub open spec fn sextet(data: Seq<u8>, i: int) -> nat {
    let first = i / 4 * 3;
    let o0 = octet(data, first);
    let o1 = octet(data, first + 1);
    let o2 = octet(data, first + 2);
    if i % 4 == 0 {
        o0 / 4
    } else if i % 4 == 1 {
        o0 % 4 * 16 + o1 / 16
    } else if i % 4 == 2 {
        o1 % 16 * 4 + o2 / 64
    } else {
        o2 % 64
    }
}

/// The number of characters that `n` octets take: four for every three octets begun.
pub open spec fn base64_len(n: nat) -> nat {
    (n + 2) / 3 * 4
}

/// The Base64 text of `data` with the standard alphabet, padded with `=`.
pub open spec fn base64_text(data: Seq<u8>) -> Seq<char> {
    Seq::new(
        base64_len(data.len()),
        |i: int|
            if 6 * i < 8 * data.len() {
                base64_symbol(sextet(data, i))
            } else {
                '='
            },
    )
}

/// `base64::Engine::encode` of `general_purpose::STANDARD`: the Base64 text of `data` with
/// the standard alphabet and padding. It panics where the text's length is more than a
/// vector can hold.
#[verifier::external_body]
pub(crate) fn base64_encode(data: &[u8]) -> (r: String)
    requires
        base64_len(data@.len()) <= isize::MAX,
    ensures
        r@ == base64_text(data@),
{
    STANDARD.encode(data)
}

/// The 6-bit value of a symbol of the standard alphabet.
pub open spec fn base64_value(c: char) -> nat {
    if 'A' <= c <= 'Z' {
        (c as nat - 65) as nat
    } else if 'a' <= c <= 'z' {
        (c as nat - 71) as nat
    } else if '0' <= c <= '9' {
        (c as nat + 4) as nat
    } else if c == '+' {
        62
    } else {
        63
    }
}

/// The number of octets that a padded Base64 text stands for.
pub open spec fn base64_octets(text: Seq<char>) -> nat {
    let n = text.len();
    let whole = n / 4 * 3;
    if n >= 2 && text[n - 2] == '=' {
        (whole - 2) as nat
    } else if n >= 1 && text[n - 1] == '=' {
        (whole - 1) as nat
    } else {
        whole
    }
}

/// The octet at position `i` of what a Base64 text stands for: eight bits of the two
/// symbols that it was spread over.
pub open spec fn base64_octet(text: Seq<char>, i: int) -> nat {
    let hi = base64_value(text[i / 3 * 4 + i % 3]);
    let lo = base64_value(text[i / 3 * 4 + i % 3 + 1]);
    if i % 3 == 0 {
        hi * 4 + lo / 16
    } else if i % 3 == 1 {
        hi % 16 * 16 + lo / 4
    } else {
        hi % 4 * 64 + lo
    }
}

/// What a padded Base64 text stands for.
pub open spec fn base64_decoded(text: Seq<char>) -> Seq<u8> {
    Seq::new(base64_octets(text), |i: int| base64_octet(text, i) as u8)
}

proof fn lemma_symbol_value(v: nat)
    requires
        v < 64,
    ensures
        base64_value(base64_symbol(v)) == v,
        base64_symbol(v) != '=',
        ' ' < base64_symbol(v) <= 'z',
        base64_symbol(v) != ';',
{
}

/// Every character of a Base64 text is printable ASCII, and none is `;`.
pub proof fn base64_is_printable(data: Seq<u8>)
    ensures
        forall|i: int|
            0 <= i < base64_text(data).len() ==> {
                &&& ' ' < #[trigger] base64_text(data)[i] <= 'z'
                &&& base64_text(data)[i] != ';'
            },
{
    assert forall|i: int| 0 <= i < base64_text(data).len() implies {
        &&& ' ' < #[trigger] base64_text(data)[i] <= 'z'
        &&& base64_text(data)[i] != ';'
    } by {
        lemma_symbol_value(sextet(data, i));
    }
}

/// A Base64 text stands for the octets it was made of.
pub proof fn base64_reads_back(data: Seq<u8>)
    ensures
        base64_decoded(base64_text(data)) == data,
{
    let text = base64_text(data);
    let n = data.len();
    assert(text.len() / 4 * 3 == (n + 2) / 3 * 3);
    if n > 0 {
        lemma_symbol_value(sextet(data, text.len() - 1));
        lemma_symbol_value(sextet(data, text.len() - 2));
    }
    assert(base64_octets(text) == n);
    assert forall|i: int| 0 <= i < n implies base64_octet(text, i) == data[i] by {
        let p = i / 3 * 4 + i % 3;
        assert(6 * (p + 1) < 8 * n);
        assert(p / 4 == i / 3 && p % 4 == i % 3);
        assert((p + 1) / 4 == i / 3 && (p + 1) % 4 == i % 3 + 1);
        lemma_symbol_value(sextet(data, p));
        lemma_symbol_value(sextet(data, p + 1));
    }
    assert(base64_decoded(text) =~= data);
}

/// The symbols are the letters, the digits, `+` and `/` in the usual order, and every three
/// octets are written as the four digits of one number of 24 bits in base 64. Octets that are
/// missing at the end count as zero, and each is told by a `=`.
pub proof fn base64_is_the_usual_one(data: Seq<u8>, v: nat, group: int)
    requires
        v < 64,
        0 <= group,
        3 * group < data.len(),
    ensures
        base64_symbol(v) == "ABCDEFGHIJKLMNOPQRSTUVWXYZabcdefghijklmnopqrstuvwxyz0123456789+/"@[v as int],
        sextet(data, 4 * group) * 0x4_0000 + sextet(data, 4 * group + 1) * 0x1000 + sextet(
            data,
            4 * group + 2,
        ) * 0x40 + sextet(data, 4 * group + 3) == octet(data, 3 * group) * 0x1_0000 + octet(
            data,
            3 * group + 1,
        ) * 0x100 + octet(data, 3 * group + 2),
        base64_text(data).len() == (data.len() + 2) / 3 * 4,
        base64_text(data)[4 * group + 2] == '=' <==> 3 * group + 1 >= data.len(),
        base64_text(data)[4 * group + 3] == '=' <==> 3 * group + 2 >= data.len(),
{
    reveal_strlit("ABCDEFGHIJKLMNOPQRSTUVWXYZabcdefghijklmnopqrstuvwxyz0123456789+/");
    assert((4 * group) / 4 * 3 == 3 * group && (4 * group + 1) / 4 * 3 == 3 * group);
    assert((4 * group + 2) / 4 * 3 == 3 * group && (4 * group + 3) / 4 * 3 == 3 * group);
    assert(base64_symbol(sextet(data, 4 * group + 2)) != '=');
    assert(base64_symbol(sextet(data, 4 * group + 3)) != '=');
}

// ---------------------------------------------------------------------------
// PNG
// ---------------------------------------------------------------------------
/// The samples that a pixel is made of.
#[derive(Clone, Copy, Debug, PartialEq, Eq, Structural)]
pub enum ColorType {
    Rgb,
    Rgba,
}

/// The number of bits in a sample.
#[derive(Clone, Copy, Debug, PartialEq, Eq, Structural)]
pub enum BitDepth {
    Eight,
}

/// How hard the encoder tries to make a small file.
#[derive(Clone, Copy, Debug, PartialEq, Eq, Structural)]
pub enum Compression {
    Fast,
}

/// Why a bitmap has no PNG file, with the encoder's own words.
#[derive(Debug)]
pub enum PngError {
    /// The header could not be written.
    Header(String),
    /// The pixels could not be written.
    Image(String),
}

/// The number of samples in a pixel.
pub open spec fn samples(color: ColorType) -> nat {
    match color {
        ColorType::Rgb => 3,
        ColorType::Rgba => 4,
    }
}

/// The number of octets in a bitmap of `width` by `height` pixels with samples of one octet.
pub open spec fn bitmap_len(width: u32, height: u32, color: ColorType) -> nat {
    width as nat * height as nat * samples(color)
}

/// Whether the encoder's own arithmetic is up to a bitmap: the dimensions are multiplied
/// in a machine word, and the octets of a row that is encoded are counted in 32 bits.
pub open spec fn in_range(width: u32, height: u32, color: ColorType, len: nat) -> bool {
    &&& bitmap_len(width, height, color) < usize::MAX
    &&& len == bitmap_len(width, height, color) ==> width as nat * samples(color) < u32::MAX
}

/// The four octets of `x`, most significant first.
pub open spec fn be32(x: u32) -> Seq<u8> {
    seq![
        (x / 0x100_0000) as u8,
        (x / 0x1_0000 % 0x100) as u8,
        (x / 0x100 % 0x100) as u8,
        (x % 0x100) as u8,
    ]
}

/// The first octets of a PNG file: its signature, then the length, the name and the contents
/// of the header chunk, which holds the dimensions, the bit depth and the color type.
pub open spec fn png_header(width: u32, height: u32, color: ColorType) -> Seq<u8> {
    seq![137u8, 80, 78, 71, 13, 10, 26, 10, 0, 0, 0, 13, 73, 72, 68, 82] + be32(width) + be32(
        height,
    ) + seq![
        8u8,
        match color {
            ColorType::Rgb => 2u8,
            ColorType::Rgba => 6u8,
        },
        0,
        0,
        0,
    ]
}

/// The PNG file that the `png` crate's encoder makes of a bitmap.
pub uninterp spec fn png_file(
    width: u32,
    height: u32,
    color: ColorType,
    depth: BitDepth,
    compression: Compression,
    data: Seq<u8>,
) -> Seq<u8>;

/// The samples that the `png` crate's decoder reads from a file, row by row, where no limit is
/// set on its memory and nothing else is changed from its defaults: what `Decoder::read_info`
/// and `Reader::next_frame` deliver. `None` stands for a file that they refuse.
pub uninterp spec fn png_samples(file: Seq<u8>) -> Option<Seq<u8>>;

/// The `png` crate's encoder run over one bitmap: `Encoder::new`, `set_color`, `set_depth`,
/// `set_compression` and `write_header`, `Writer::write_image_data`, and the end of the file
/// when the writer is dropped.
///
/// A dimension of zero is refused by the header; then data of another length than the
/// dimensions ask for is refused, with both lengths in the message. Everything else is
/// encoded. The file is named, not spelled out, but for its first octets, which carry the
/// dimensions. Filters and compression lose nothing: the decoder of the same crate reads the
/// very data back from the file. The encoder counts without checks, so the bitmap must be in
/// its range.
#[verifier::external_body]
pub(crate) fn png_encode(
    width: u32,
    height: u32,
    color: ColorType,
    depth: BitDepth,
    compression: Compression,
    data: &[u8],
) -> (r: Result<Vec<u8>, PngError>)
    requires
        in_range(width, height, color, data@.len()),
    ensures
        match r {
            Ok(file) => {
                &&& width > 0 && height > 0
                &&& data@.len() == bitmap_len(width, height, color)
                &&& file@ == png_file(width, height, color, depth, compression, data@)
                &&& png_header(width, height, color).is_prefix_of(file@)
                &&& png_samples(file@) == Some(data@)
            },
            Err(PngError::Header(words)) => {
                ||| width == 0 && words@ == "Zero width not allowed"@
                ||| width > 0 && height == 0 && words@ == "Zero height not allowed"@
            },
            Err(PngError::Image(words)) => {
                &&& width > 0 && height > 0
                &&& data@.len() != bitmap_len(width, height, color)
                &&& words@ == "wrong data size, expected "@ + decimal(
                    bitmap_len(width, height, color),
                ) + " got "@ + decimal(data@.len())
            },
        },
{
    let mut file: Vec<u8> = Vec::new();
    let mut encoder = png::Encoder::new(&mut file, width, height);
    encoder.set_color(
        match color { ColorType::Rgb => png::ColorType::Rgb, ColorType::Rgba => png::ColorType::Rgba },
    );
    encoder.set_depth(match depth { BitDepth::Eight => png::BitDepth::Eight });
    encoder.set_compression(match compression { Compression::Fast => png::Compression::Fast });
    match encoder.write_header() {
        Ok(mut writer) => match writer.write_image_data(data) {
            Ok(()) => {},
            Err(e) => return Err(PngError::Image(e.to_string())),
        },
        Err(e) => return Err(PngError::Header(e.to_string())),
    }
    Ok(file)
}

/// A PNG file carries the dimensions of its bitmap, so nothing else has to tell them.
pub proof fn png_header_carries_dimensions(
    w1: u32,
    h1: u32,
    c1: ColorType,
    w2: u32,
    h2: u32,
    c2: ColorType,
    file: Seq<u8>,
)
    requires
        png_header(w1, h1, c1).is_prefix_of(file),
        png_header(w2, h2, c2).is_prefix_of(file),
    ensures
        w1 == w2,
        h1 == h2,
        c1 == c2,
{
    lemma_header_fields(w1, h1, c1, file);
    lemma_header_fields(w2, h2, c2, file);
    lemma_be32_differs(w1, w2);
    lemma_be32_differs(h1, h2);
}

/// A PNG file that begins with the header of a bitmap tells its dimensions, most significant
/// octet first, eight bits to a sample, and its color type.
pub proof fn png_header_tells_the_bitmap(width: u32, height: u32, color: ColorType, file: Seq<u8>)
    requires
        png_header(width, height, color).is_prefix_of(file),
    ensures
        file.len() >= 29,
        file[16] * 0x100_0000 + file[17] * 0x1_0000 + file[18] * 0x100 + file[19] == width,
        file[20] * 0x100_0000 + file[21] * 0x1_0000 + file[22] * 0x100 + file[23] == height,
        file[24] == 8,
        file[25] == 6 <==> color == ColorType::Rgba,
        file[25] == 2 <==> color == ColorType::Rgb,
{
    lemma_header_fields(width, height, color, file);
    let h = png_header(width, height, color);
    assert(h == file.subrange(0, 29));
    assert(file[24] == h[24]);
    lemma_be32_sum(width);
    lemma_be32_sum(height);
    let (w4, h4) = (file.subrange(16, 20), file.subrange(20, 24));
    assert(w4[0] == file[16] && w4[1] == file[17] && w4[2] == file[18] && w4[3] == file[19]);
    assert(h4[0] == file[20] && h4[1] == file[21] && h4[2] == file[22] && h4[3] == file[23]);
}

proof fn lemma_be32_differs(a: u32, b: u32)
    ensures
        be32(a) == be32(b) ==> a == b,
{
    if be32(a) == be32(b) {
        assert(be32(a)[0] == be32(b)[0] && be32(a)[1] == be32(b)[1]);
        assert(be32(a)[2] == be32(b)[2] && be32(a)[3] == be32(b)[3]);
        lemma_be32_sum(a);
        lemma_be32_sum(b);
    }
}

proof fn lemma_be32_sum(x: u32)
    ensures
        x == be32(x)[0] * 0x100_0000 + be32(x)[1] * 0x1_0000 + be32(x)[2] * 0x100 + be32(x)[3],
{
    assert(x / 0x100_0000 < 0x100 && x / 0x1_0000 == x / 0x100_0000 * 0x100 + x / 0x1_0000 % 0x100
        && x / 0x100 == x / 0x1_0000 * 0x100 + x / 0x100 % 0x100 && x == x / 0x100 * 0x100 + x
        % 0x100) by (bit_vector);
}

proof fn lemma_header_fields(width: u32, height: u32, color: ColorType, file: Seq<u8>)
    requires
        png_header(width, height, color).is_prefix_of(file),
    ensures
        file.len() >= 29,
        be32(width) == file.subrange(16, 20),
        be32(height) == file.subrange(20, 24),
        file[25] == (match color {
            ColorType::Rgb => 2u8,
            ColorType::Rgba => 6u8,
        }),
{
    let h = png_header(width, height, color);
    assert(h.len() == 29);
    assert(h == file.subrange(0, 29));
    assert forall|i: int| 0 <= i < 29 implies file[i] == #[trigger] h[i] by {}
    assert(be32(width) =~= h.subrange(16, 20));
    assert(be32(height) =~= h.subrange(20, 24));
    assert(h.subrange(16, 20) =~= file.subrange(16, 20));
    assert(h.subrange(20, 24) =~= file.subrange(20, 24));
    assert(file[25] == h[25]);
}

} // verus!
