//! Commands of the Kitty graphics protocol.
use crate::encoding::{
    base64_decoded, base64_encode, base64_is_printable, base64_len, base64_reads_back, base64_text,
    bitmap_len, in_range, png_encode, png_file, png_header, png_samples, BitDepth, ColorType,
    png_header_tells_the_bitmap, Compression, PngError,
};
use crate::drivers::response::GraphicsResponse;
use crate::text::{
    contains_text, decimal, decimal_reads_back, last_separator_cuts_off_the_last_piece,
    numeral_is_digits, numeral_value, numerals_differ, occurs, occurs_at, push_decimal,
    same_middle, split, text_without_separator_is_one_piece,
};
use vstd::prelude::*;
use vstd::string::*;

verus! {

/// The number of characters in a chunk of a direct transmission, but for the last one.
pub const CHUNK_LEN: usize = 4096;

/// The number of chunks that a text of `len` characters is cut into.
pub open spec fn chunk_count(len: nat) -> int {
    (len + 4095) as int / 4096
}

/// The `i`-th chunk of `text`.
pub open spec fn chunk(text: Seq<char>, i: int) -> Seq<char> {
    text.subrange(
        4096 * i,
        if 4096 * (i + 1) < text.len() {
            4096 * (i + 1)
        } else {
            text.len() as int
        },
    )
}

/// The control keys of frame `i` out of `n`. The first frame says what is transmitted; `m`
/// says whether more frames follow, and is left out where there is only one.
pub open spec fn frame_control(id: nat, i: int, n: int) -> Seq<char> {
    if i == 0 {
        if n == 1 {
            "q=2,f=100,i="@ + decimal(id) + ",t=d"@
        } else {
            "q=2,f=100,i="@ + decimal(id) + ",t=d,m=1"@
        }
    } else if i + 1 < n {
        "m=1"@
    } else {
        "m=0"@
    }
}

/// A graphics command: control keys and payload between the marks that the terminal looks
/// for.
pub open spec fn frame(control: Seq<char>, payload: Seq<char>) -> Seq<char> {
    "\x1B_G"@ + control + ";"@ + payload + "\x1B\\"@
}

/// The frames that carry `text`, from frame `i` on.
pub open spec fn frames_from(id: nat, text: Seq<char>, i: int) -> Seq<char>
    decreases chunk_count(text.len()) - i,
{
    let n = chunk_count(text.len());
    if i >= n {
        Seq::<char>::empty()
    } else {
        frame(frame_control(id, i, n), chunk(text, i)) + frames_from(id, text, i + 1)
    }
}

/// The direct transmission of `text` as image `id`.
pub open spec fn transmission(id: nat, text: Seq<char>) -> Seq<char> {
    frames_from(id, text, 0)
}

/// Writes the direct transmission of `text` as image `id`.
fn transmit(id: usize, text: &str) -> (r: String)
    requires
        text.is_ascii(),
    ensures
        r@ == transmission(id as nat, text@),
{
    let ghost n = chunk_count(text@.len());
    let len: usize = text.unicode_len();
    let mut out = String::new();
    let mut start: usize = 0;
    let ghost mut i: int = 0;
    assert(out@ + frames_from(id as nat, text@, 0) =~= transmission(id as nat, text@));
    while start < len
        invariant
            text.is_ascii(),
            len == text@.len(),
            n == chunk_count(text@.len()),
            0 <= i <= n,
            start as int == if i < n {
                4096 * i
            } else {
                len as int
            },
            out@ + frames_from(id as nat, text@, i) == transmission(id as nat, text@),
        decreases len - start,
    {
        let ghost before = out@;
        let end: usize = if len - start > CHUNK_LEN {
            start + CHUNK_LEN
        } else {
            len
        };
        out.append("\x1B_G");
        if start == 0 {
            out.append("q=2,f=100,i=");
            push_decimal(&mut out, id as u128);
            if end == len {
                out.append(",t=d");
            } else {
                out.append(",t=d,m=1");
            }
        } else if end < len {
            out.append("m=1");
        } else {
            out.append("m=0");
        }
        out.append(";");
        out.append(text.substring_ascii(start, end));
        out.append("\x1B\\");
        proof {
            let head = frame(frame_control(id as nat, i, n), chunk(text@, i));
            let tail = frames_from(id as nat, text@, i + 1);
            assert(text@.subrange(start as int, end as int) == chunk(text@, i));
            assert(out@ =~= before + head);
            assert(before + (head + tail) =~= before + head + tail);
            i = i + 1;
        }
        start = end;
    }
    assert(out@ + frames_from(id as nat, text@, i) =~= out@);
    out
}

// ---------------------------------------------------------------------------
// What a terminal reads of a transmission
// ---------------------------------------------------------------------------
/// The position of the first `c` in `s`, or the length of `s`.
pub open spec fn first_of(s: Seq<char>, c: char) -> int
    decreases s.len(),
{
    if s.len() == 0 || s[0] == c {
        0
    } else {
        1 + first_of(s.drop_first(), c)
    }
}

/// The first graphics command of a stream: its control keys, its payload and its length.
/// A command opens with `ESC _ G`, the first `;` ends the control keys, and the first `ESC`
/// after the opening ends the payload and is followed by a backslash.
pub open spec fn read_frame(s: Seq<char>) -> Option<(Seq<char>, Seq<char>, int)> {
    let body = s.subrange(3, s.len() as int);
    let end = first_of(body, '\x1B');
    let inner = body.take(end);
    let semicolon = first_of(inner, ';');
    if s.len() >= 3 && s[0] == '\x1B' && s[1] == '_' && s[2] == 'G' && end + 1 < body.len()
        && body[end + 1] == '\\' && semicolon < inner.len() {
        Some((inner.take(semicolon), inner.skip(semicolon + 1), 3 + end + 2))
    } else {
        None
    }
}

/// The commands of a stream that is made of graphics commands only.
pub open spec fn read_frames(s: Seq<char>) -> Option<Seq<(Seq<char>, Seq<char>)>>
    decreases s.len(),
{
    if s.len() == 0 {
        Some(Seq::empty())
    } else {
        match read_frame(s) {
            Some((control, payload, len)) => if 0 < len <= s.len() {
                match read_frames(s.skip(len)) {
                    Some(rest) => Some(seq![(control, payload)] + rest),
                    None => None,
                }
            } else {
                None
            },
            None => None,
        }
    }
}

/// The payloads of some commands, put together.
pub open spec fn payloads(frames: Seq<(Seq<char>, Seq<char>)>) -> Seq<char>
    decreases frames.len(),
{
    if frames.len() == 0 {
        Seq::empty()
    } else {
        frames[0].1 + payloads(frames.drop_first())
    }
}

/// The file that a terminal gets from a stream: the payloads of its commands, put together and
/// decoded.
pub open spec fn received(stream: Seq<char>) -> Option<Seq<u8>> {
    match read_frames(stream) {
        Some(frames) => Some(base64_decoded(payloads(frames))),
        None => None,
    }
}

proof fn lemma_first_of(a: Seq<char>, c: char, b: Seq<char>)
    requires
        !a.contains(c),
    ensures
        first_of(a.push(c) + b, c) == a.len(),
    decreases a.len(),
{
    let s = a.push(c) + b;
    if a.len() > 0 {
        assert(a.contains(a[0]));
        assert forall|x: char| a.drop_first().contains(x) implies a.contains(x) by {
            let k = choose|k: int| 0 <= k < a.drop_first().len() && a.drop_first()[k] == x;
            assert(a[k + 1] == x);
        }
        assert(s.drop_first() =~= a.drop_first().push(c) + b);
        lemma_first_of(a.drop_first(), c, b);
    }
}

/// A command reads back as it was framed, whatever follows it, where its control keys hold
/// no `;` and neither part holds an `ESC`.
pub proof fn frame_reads_back(control: Seq<char>, payload: Seq<char>, rest: Seq<char>)
    requires
        !control.contains(';'),
        !control.contains('\x1B'),
        !payload.contains('\x1B'),
    ensures
        read_frame(frame(control, payload) + rest) == Some(
            (control, payload, frame(control, payload).len() as int),
        ),
{
    reveal_strlit("\x1B_G");
    reveal_strlit(";");
    reveal_strlit("\x1B\\");
    let s = frame(control, payload) + rest;
    let inner = control.push(';') + payload;
    let body = s.subrange(3, s.len() as int);
    let after = seq!['\\'] + rest;
    assert(body =~= inner.push('\x1B') + after);
    assert(!inner.contains('\x1B')) by {
        if inner.contains('\x1B') {
            let k = choose|k: int| 0 <= k < inner.len() && inner[k] == '\x1B';
            if k < control.len() {
                assert(control[k] == '\x1B');
            } else if k > control.len() {
                assert(payload[k - control.len() - 1] == '\x1B');
            }
        }
    }
    lemma_first_of(inner, '\x1B', after);
    lemma_first_of(control, ';', payload);
    assert(body.take(inner.len() as int) =~= inner);
    assert(inner.take(control.len() as int) =~= control);
    assert(inner.skip(control.len() as int + 1) =~= payload);
    assert(body[inner.len() as int + 1] == after[0]);
    assert(frame(control, payload).len() == 3 + inner.len() + 2);
}

proof fn lemma_control_is_plain(id: nat, i: int, n: int)
    ensures
        !frame_control(id, i, n).contains(';'),
        !frame_control(id, i, n).contains('\x1B'),
{
    reveal_strlit("q=2,f=100,i=");
    reveal_strlit(",t=d");
    reveal_strlit(",t=d,m=1");
    reveal_strlit("m=1");
    reveal_strlit("m=0");
    numeral_is_digits(id, 10);
    let c = frame_control(id, i, n);
    let d = decimal(id);
    assert forall|k: int| 0 <= k < c.len() implies c[k] != ';' && c[k] != '\x1B' by {
        if i == 0 && 12 <= k < 12 + d.len() {
            assert(c[k] == d[k - 12]);
        } else if i == 0 && k >= 12 + d.len() {
            if n == 1 {
                assert(c[k] == ",t=d"@[k - 12 - d.len()]);
            } else {
                assert(c[k] == ",t=d,m=1"@[k - 12 - d.len()]);
            }
        }
    }
}

/// The commands that frames `i` and up are read as.
pub open spec fn sent_from(id: nat, text: Seq<char>, i: int) -> Seq<(Seq<char>, Seq<char>)> {
    let n = chunk_count(text.len());
    Seq::new((n - i) as nat, |k: int| (frame_control(id, i + k, n), chunk(text, i + k)))
}

proof fn lemma_frames_read_back(id: nat, text: Seq<char>, i: int)
    requires
        !text.contains('\x1B'),
        0 <= i <= chunk_count(text.len()),
    ensures
        read_frames(frames_from(id, text, i)) == Some(sent_from(id, text, i)),
        payloads(sent_from(id, text, i)) == text.skip(
            if 4096 * i < text.len() {
                4096 * i
            } else {
                text.len() as int
            },
        ),
    decreases chunk_count(text.len()) - i,
{
    let n = chunk_count(text.len());
    let sent = sent_from(id, text, i);
    if i == n {
        assert(sent =~= Seq::empty());
        assert(text.skip(text.len() as int) =~= Seq::<char>::empty());
    } else {
        let control = frame_control(id, i, n);
        let payload = chunk(text, i);
        let rest = frames_from(id, text, i + 1);
        let s = frames_from(id, text, i);
        lemma_control_is_plain(id, i, n);
        assert(!payload.contains('\x1B')) by {
            if payload.contains('\x1B') {
                let k = choose|k: int| 0 <= k < payload.len() && payload[k] == '\x1B';
                assert(text[4096 * i + k] == '\x1B');
            }
        }
        frame_reads_back(control, payload, rest);
        lemma_frames_read_back(id, text, i + 1);
        reveal_strlit("\x1B_G");
        assert(s.skip(frame(control, payload).len() as int) =~= rest);
        assert(sent =~= seq![(control, payload)] + sent_from(id, text, i + 1));
        assert(sent.drop_first() =~= sent_from(id, text, i + 1));
        assert(payloads(sent) =~= text.skip(4096 * i));
    }
}

/// A terminal that reads a transmission finds one command per chunk, in order, and their
/// payloads together are the text that was transmitted.
pub proof fn transmission_reads_back(id: nat, text: Seq<char>)
    requires
        !text.contains('\x1B'),
    ensures
        read_frames(transmission(id, text)) == Some(sent_from(id, text, 0)),
        payloads(sent_from(id, text, 0)) == text,
{
    lemma_frames_read_back(id, text, 0);
    assert(text.skip(0) =~= text);
}

/// Each chunk holds up to 4096 characters, and each but the last holds exactly as many.
pub proof fn chunks_are_full(text: Seq<char>, i: int)
    requires
        0 <= i < chunk_count(text.len()),
    ensures
        0 < chunk(text, i).len() <= 4096,
        i + 1 < chunk_count(text.len()) ==> chunk(text, i).len() == 4096,
{
}

/// Whether control keys announce another frame.
pub open spec fn announces_more(control: Seq<char>) -> bool {
    control.len() >= 3 && control.subrange(control.len() - 3, control.len() as int) == "m=1"@
}

/// Each frame announces another one exactly where another one follows.
pub proof fn more_is_announced(id: nat, i: int, n: int)
    requires
        0 <= i < n,
    ensures
        announces_more(frame_control(id, i, n)) == (i + 1 < n),
{
    reveal_strlit(",t=d");
    reveal_strlit(",t=d,m=1");
    reveal_strlit("m=1");
    reveal_strlit("m=0");
    let c = frame_control(id, i, n);
    let tail = c.subrange(c.len() - 3, c.len() as int);
    if i == 0 && n == 1 {
        assert(tail[0] == 't');
    } else if i == 0 {
        assert(tail =~= "m=1"@);
    } else {
        assert(tail =~= c);
        assert("m=0"@[2] != "m=1"@[2]);
    }
}

/// A transmission of one frame says nothing of further ones: its control keys hold no `m`.
pub proof fn single_frame_has_no_more_key(id: nat)
    ensures
        !frame_control(id, 0, 1).contains('m'),
{
    reveal_strlit("q=2,f=100,i=");
    reveal_strlit(",t=d");
    numeral_is_digits(id, 10);
    let c = frame_control(id, 0, 1);
    let d = decimal(id);
    assert forall|k: int| 0 <= k < c.len() implies c[k] != 'm' by {
        if 12 <= k < 12 + d.len() {
            assert(c[k] == d[k - 12]);
        } else if k >= 12 + d.len() {
            assert(c[k] == ",t=d"@[k - 12 - d.len()]);
        }
    }
}

// ---------------------------------------------------------------------------
// Commands
// ---------------------------------------------------------------------------
/// Asks for nothing but an answer: a terminal that knows the protocol replies to it.
pub const SUPPORT_QUERY: &'static str = "\x1B_Gi=31,s=1,v=1,a=q,t=d,f=24;AAAA\x1B\\";

/// How long to wait for the answer to `SUPPORT_QUERY`, in milliseconds. It is not known yet
/// whether there will be one.
pub const SUPPORT_TIMEOUT_MS: u64 = 1000;

/// Whether a response says that the command was carried out.
pub open spec fn accepted(payload: Seq<char>) -> bool {
    occurs("OK"@, payload)
}

/// Whether a response says that the command was carried out.
pub fn is_accepted(payload: &str) -> (r: bool)
    ensures
        r == accepted(payload@),
{
    contains_text(payload, "OK")
}

/// What the answer to `SUPPORT_QUERY` says of the terminal. `response` is the response that
/// came, or the words of the channel if none did.
pub fn terminal_graphics_test_support(response: Result<GraphicsResponse, String>) -> (r: Result<
    (),
    String,
>)
    ensures
        r is Ok <==> (response matches Ok(answer) && accepted(answer.payload_text())),
        response matches Err(words) ==> r matches Err(message) && message@
            == "Could not receive from Graphics Response channel: "@ + words@,
        response matches Ok(answer) ==> r matches Err(message) ==> message@
            == "Terminal responded with failed graphics response: "@ + answer.payload_text(),
{
    match response {
        Err(words) => {
            let mut message = String::new();
            message.append("Could not receive from Graphics Response channel: ");
            message.append(words.as_str());
            assert(message@ =~= "Could not receive from Graphics Response channel: "@ + words@);
            Err(message)
        },
        Ok(answer) => {
            if is_accepted(answer.payload()) {
                Ok(())
            } else {
                let mut message = String::new();
                message.append("Terminal responded with failed graphics response: ");
                message.append(answer.payload());
                assert(message@ =~= "Terminal responded with failed graphics response: "@
                    + answer.payload_text());
                Err(message)
            }
        },
    }
}

/// The command that deletes image `id` and frees its data.
pub open spec fn deallocate_command(id: nat) -> Seq<char> {
    "\x1B_Ga=d,d=I,i="@ + decimal(id) + ";\x1B\\"@
}

/// Writes the command that deletes image `id` and frees its data.
pub fn terminal_graphics_deallocate_id(id: usize) -> (r: String)
    ensures
        r@ == deallocate_command(id as nat),
{
    let mut out = String::new();
    out.append("\x1B_Ga=d,d=I,i=");
    push_decimal(&mut out, id as u128);
    out.append(";\x1B\\");
    assert(out@ =~= deallocate_command(id as nat));
    out
}

/// The command that shows a part of image `id`: the cursor is saved and moved to the cell,
/// the part `rect` (left, top, width, height, in pixels) is placed over `c` columns and `r`
/// rows behind cells with a colored background, and the cursor goes back.
pub open spec fn display_command(
    id: nat,
    col: nat,
    row: nat,
    rect: (nat, nat, nat, nat),
    c: nat,
    r: nat,
) -> Seq<char> {
    "\x1B[s\x1B["@ + decimal(row) + ";"@ + decimal(col) + "H"@
        + "\x1B_Gz=-1073741825,a=p,C=1,i="@ + decimal(id) + ",x="@ + decimal(rect.0) + ",y="@
        + decimal(rect.1) + ",w="@ + decimal(rect.2) + ",h="@ + decimal(rect.3) + ",c="@ + decimal(
        c,
    ) + ",r="@ + decimal(r) + ";\x1B\\"@ + "\x1B[u"@
}

/// Writes the command that shows a part of image `id`.
pub fn terminal_graphics_display_image(
    id: usize,
    col: usize,
    row: usize,
    rect: (usize, usize, usize, usize),
    c: usize,
    r: usize,
) -> (out: String)
    ensures
        out@ == display_command(
            id as nat,
            col as nat,
            row as nat,
            (rect.0 as nat, rect.1 as nat, rect.2 as nat, rect.3 as nat),
            c as nat,
            r as nat,
        ),
{
    let mut out = String::new();
    out.append("\x1B[s\x1B[");
    push_decimal(&mut out, row as u128);
    out.append(";");
    push_decimal(&mut out, col as u128);
    out.append("H");
    out.append("\x1B_Gz=-1073741825,a=p,C=1,i=");
    push_decimal(&mut out, id as u128);
    out.append(",x=");
    push_decimal(&mut out, rect.0 as u128);
    out.append(",y=");
    push_decimal(&mut out, rect.1 as u128);
    out.append(",w=");
    push_decimal(&mut out, rect.2 as u128);
    out.append(",h=");
    push_decimal(&mut out, rect.3 as u128);
    out.append(",c=");
    push_decimal(&mut out, c as u128);
    out.append(",r=");
    push_decimal(&mut out, r as u128);
    out.append(";\x1B\\");
    out.append("\x1B[u");
    assert(Seq::<char>::empty() + "\x1B[s\x1B["@ =~= "\x1B[s\x1B["@);
    out
}

/// What showing an image amounts to once its command was flushed: nothing to report, or the
/// words of the failed flush.
pub fn display_outcome(flushed: Result<(), String>) -> (r: Result<(), String>)
    ensures
        r is Ok <==> flushed is Ok,
        flushed matches Err(words) ==> r matches Err(message) && message@
            == "Could not flush stdout: "@ + words@,
{
    match flushed {
        Ok(()) => Ok(()),
        Err(words) => {
            let mut message = String::new();
            message.append("Could not flush stdout: ");
            message.append(words.as_str());
            assert(message@ =~= "Could not flush stdout: "@ + words@);
            Err(message)
        },
    }
}

// ---------------------------------------------------------------------------
// Transfer of a bitmap
// ---------------------------------------------------------------------------
/// What a terminal is sent to hold a bitmap as an image.
#[derive(Debug)]
pub struct Transfer {
    /// The commands, in order.
    pub stream: String,
    /// The length of the PNG file.
    pub png_len: usize,
    /// The length of its Base64 text.
    pub encoded_len: usize,
}

/// Why a bitmap cannot be transferred.
#[derive(Debug)]
pub enum TransferError {
    /// It could not be encoded; the message says why.
    Png(String),
    /// Its PNG file is too long to be encoded as text.
    Oversized,
}

/// The lower 32 bits of a number.
pub open spec fn low32(x: usize) -> u32 {
    (x as nat % 0x1_0000_0000) as u32
}

fn take_low32(x: usize) -> (r: u32)
    ensures
        r == low32(x),
{
    let wide: u64 = x as u64;
    assert(wide as u32 == (wide % 0x1_0000_0000) as u32) by (bit_vector);
    wide as u32
}

/// The color type of a bitmap with or without an alpha channel.
pub open spec fn color_of(alpha: bool) -> ColorType {
    if alpha {
        ColorType::Rgba
    } else {
        ColorType::Rgb
    }
}

/// Whether a bitmap is in the encoder's range.
pub fn bitmap_is_in_range(width: usize, height: usize, len: usize, alpha: bool) -> (r: bool)
    ensures
        r == in_range(low32(width), low32(height), color_of(alpha), len as nat),
{
    let w: u128 = take_low32(width) as u128;
    let h: u128 = take_low32(height) as u128;
    let samples: u128 = if alpha {
        4
    } else {
        3
    };
    assert(w * h <= 0xFFFF_FFFF * 0xFFFF_FFFF) by (nonlinear_arith)
        requires
            w <= 0xFFFF_FFFF,
            h <= 0xFFFF_FFFF,
    ;
    let area: u128 = w * h;
    let bitmap: u128 = area * samples;
    bitmap < usize::MAX as u128 && (len as u128 != bitmap || w * samples < u32::MAX as u128)
}

/// The message with which a bitmap of `len` octets is refused, if it is refused.
pub open spec fn refusal(width: u32, height: u32, color: ColorType, len: nat) -> Option<Seq<char>> {
    if width == 0 {
        Some("PNG header error: "@ + "Zero width not allowed"@)
    } else if height == 0 {
        Some("PNG header error: "@ + "Zero height not allowed"@)
    } else if len != bitmap_len(width, height, color) {
        Some(
            "PNG encode error: "@ + ("wrong data size, expected "@ + decimal(
                bitmap_len(width, height, color),
            ) + " got "@ + decimal(len)),
        )
    } else {
        None
    }
}

/// The PNG file of a bitmap as it is transferred.
pub open spec fn transferred_file(
    width: u32,
    height: u32,
    color: ColorType,
    data: Seq<u8>,
) -> Seq<u8> {
    png_file(width, height, color, BitDepth::Eight, Compression::Fast, data)
}

/// Whether a file of `len` octets can be encoded as text.
pub open spec fn encodable(len: nat) -> bool {
    base64_len(len) <= isize::MAX
}

/// Writes the transfer of a PNG file as image `id`.
pub fn transfer_png(id: usize, png: &[u8]) -> (r: Transfer)
    requires
        encodable(png@.len()),
    ensures
        r.stream@ == transmission(id as nat, base64_text(png@)),
        r.png_len == png@.len(),
        r.encoded_len == base64_len(png@.len()),
{
    let encoded = base64_encode(png);
    proof {
        base64_is_printable(png@);
    }
    let stream = transmit(id, encoded.as_str());
    Transfer { stream, png_len: png.len(), encoded_len: encoded.as_str().unicode_len() }
}

/// Encodes a bitmap of `width` by `height` pixels, row by row and eight bits to a sample,
/// and writes its transfer as image `id`. The dimensions are taken modulo 2^32 and are
/// carried inside the file. A terminal that reads the transfer gets a file of these dimensions
/// whose samples are the data.
pub fn terminal_graphics_transfer_bitmap(
    id: usize,
    width: usize,
    height: usize,
    data: &[u8],
    alpha: bool,
) -> (r: Result<Transfer, TransferError>)
    requires
        in_range(low32(width), low32(height), color_of(alpha), data@.len()),
    ensures
        ({
            let (w, h, color) = (low32(width), low32(height), color_of(alpha));
            let file = transferred_file(w, h, color, data@);
            match r {
                Ok(transfer) => {
                    &&& refusal(w, h, color, data@.len()) is None
                    &&& encodable(file.len())
                    &&& transfer.stream@ == transmission(id as nat, base64_text(file))
                    &&& transfer.png_len == file.len()
                    &&& transfer.encoded_len == base64_len(file.len())
                    &&& received(transfer.stream@) == Some(file)
                    &&& png_header(w, h, color).is_prefix_of(file)
                    &&& png_samples(file) == Some(data@)
                },
                Err(TransferError::Png(message)) => refusal(w, h, color, data@.len()) == Some(
                    message@,
                ),
                Err(TransferError::Oversized) => {
                    &&& refusal(w, h, color, data@.len()) is None
                    &&& !encodable(file.len())
                },
            }
        }),
{
    let color = if alpha {
        ColorType::Rgba
    } else {
        ColorType::Rgb
    };
    let width = take_low32(width);
    let height = take_low32(height);
    match png_encode(width, height, color, BitDepth::Eight, Compression::Fast, data) {
        Ok(file) => {
            if file.len() <= isize::MAX as usize / 4 * 3 {
                proof {
                    transfer_reads_back(id as nat, file@);
                }
                Ok(transfer_png(id, file.as_slice()))
            } else {
                Err(TransferError::Oversized)
            }
        },
        Err(PngError::Header(words)) => {
            let mut message = String::new();
            message.append("PNG header error: ");
            message.append(words.as_str());
            assert(message@ =~= "PNG header error: "@ + words@);
            Err(TransferError::Png(message))
        },
        Err(PngError::Image(words)) => {
            let mut message = String::new();
            message.append("PNG encode error: ");
            message.append(words.as_str());
            assert(message@ =~= "PNG encode error: "@ + words@);
            Err(TransferError::Png(message))
        },
    }
}

/// How long the user must have been idle before a transfer is written, in milliseconds.
pub const TRANSFER_IDLE_MS: u64 = 100;

/// How long to sleep before looking again whether the user is idle, in milliseconds.
pub const TRANSFER_POLL_MS: u64 = 8;

/// Whether a transfer is put off for now: the write is slow and would stall the redraw of a
/// user who is scrolling. A program that is ending puts nothing off.
pub open spec fn deferred(idle_ms: u64, running: bool) -> bool {
    idle_ms < 100 && running
}

/// Whether a transfer is put off for now.
pub fn transfer_is_deferred(idle_ms: u64, running: bool) -> (r: bool)
    ensures
        r == deferred(idle_ms, running),
{
    idle_ms < TRANSFER_IDLE_MS && running
}

/// A terminal that reads the transfer of a file gets that very file.
pub proof fn transfer_reads_back(id: nat, file: Seq<u8>)
    ensures
        received(transmission(id, base64_text(file))) == Some(file),
{
    let text = base64_text(file);
    base64_is_printable(file);
    base64_reads_back(file);
    assert(!text.contains('\x1B'));
    transmission_reads_back(id, text);
}

/// Transfers of different files, or as different images, differ.
pub proof fn transfers_differ(id1: nat, file1: Seq<u8>, id2: nat, file2: Seq<u8>)
    requires
        transmission(id1, base64_text(file1)) == transmission(id2, base64_text(file2)),
        file1.len() > 0,
    ensures
        file1 == file2,
        id1 == id2,
{
    transfer_reads_back(id1, file1);
    transfer_reads_back(id2, file2);
    let (t1, t2) = (base64_text(file1), base64_text(file2));
    base64_is_printable(file1);
    base64_is_printable(file2);
    transmission_reads_back(id1, t1);
    transmission_reads_back(id2, t2);
    let n = chunk_count(t1.len());
    assert(sent_from(id1, t1, 0)[0] == sent_from(id2, t2, 0)[0]);
    assert(frame_control(id1, 0, n) == frame_control(id2, 0, n));
    let tail = if n == 1 {
        ",t=d"@
    } else {
        ",t=d,m=1"@
    };
    same_middle("q=2,f=100,i="@, decimal(id1), decimal(id2), tail);
    numerals_differ(id1, id2, 10);
}

/// What follows the number of the image in the transmission of a text.
pub open spec fn after_id(text: Seq<char>) -> Seq<char> {
    let end = if chunk_count(text.len()) == 1 {
        ",t=d"@
    } else {
        ",t=d,m=1"@
    };
    end + ";"@ + chunk(text, 0) + "\x1B\\"@ + frames_from(0, text, 1)
}

proof fn lemma_later_frames_have_no_id(a: nat, b: nat, text: Seq<char>, i: int)
    requires
        i > 0,
    ensures
        frames_from(a, text, i) == frames_from(b, text, i),
    decreases chunk_count(text.len()) - i,
{
    if i < chunk_count(text.len()) {
        lemma_later_frames_have_no_id(a, b, text, i + 1);
    }
}

proof fn lemma_id_stands_first(id: nat, text: Seq<char>)
    requires
        text.len() > 0,
    ensures
        transmission(id, text) == "\x1B_Gq=2,f=100,i="@ + decimal(id) + after_id(text),
{
    reveal_strlit("\x1B_G");
    reveal_strlit("q=2,f=100,i=");
    reveal_strlit("\x1B_Gq=2,f=100,i=");
    lemma_later_frames_have_no_id(id, 0, text, 1);
    let n = chunk_count(text.len());
    let rest = frames_from(id, text, 1);
    assert("\x1B_G"@ + "q=2,f=100,i="@ =~= "\x1B_Gq=2,f=100,i="@);
    assert(transmission(id, text) == frame(frame_control(id, 0, n), chunk(text, 0)) + rest);
    assert(transmission(id, text) =~= "\x1B_G"@ + "q=2,f=100,i="@ + decimal(id) + after_id(text));
}

/// Transfers of one file as different images differ in the digits of the number alone. These
/// stand once, in the first command: the chunks, their count and the further control keys do
/// not depend on the number.
pub proof fn transfers_of_one_file_differ_in_the_id_alone(a: nat, b: nat, file: Seq<u8>)
    requires
        file.len() > 0,
    ensures
        ({
            let rest = after_id(base64_text(file));
            &&& transmission(a, base64_text(file)) == "\x1B_Gq=2,f=100,i="@ + decimal(a) + rest
            &&& transmission(b, base64_text(file)) == "\x1B_Gq=2,f=100,i="@ + decimal(b) + rest
        }),
{
    lemma_id_stands_first(a, base64_text(file));
    lemma_id_stands_first(b, base64_text(file));
}

/// Commands that delete different images differ.
pub proof fn deallocations_differ(id1: nat, id2: nat)
    requires
        deallocate_command(id1) == deallocate_command(id2),
    ensures
        id1 == id2,
{
    same_middle("\x1B_Ga=d,d=I,i="@, decimal(id1), decimal(id2), ";\x1B\\"@);
    numerals_differ(id1, id2, 10);
}

// ---------------------------------------------------------------------------
// What a terminal reads of the commands
// ---------------------------------------------------------------------------
/// Whether a text can stand among control keys: it holds none of the characters that end a
/// key, the keys or the command.
spec fn is_plain(s: Seq<char>) -> bool {
    !s.contains(';') && !s.contains('\x1B')
}

proof fn lemma_plain_key(key: Seq<char>, n: nat)
    requires
        is_plain(key),
        !key.contains(','),
    ensures
        is_plain(key + decimal(n)),
        !(key + decimal(n)).contains(','),
{
    let s = key + decimal(n);
    decimal_reads_back(n);
    assert forall|k: int| 0 <= k < s.len() implies s[k] != ';' && s[k] != '\x1B' && s[k] != ',' by {
        if k < key.len() {
            assert(key.contains(key[k]));
        } else {
            assert(s[k] == decimal(n)[k - key.len()]);
        }
    }
}

/// A further key behind some control keys.
proof fn lemma_further_key(control: Seq<char>, key: Seq<char>)
    requires
        is_plain(control),
        is_plain(key),
        !key.contains(','),
    ensures
        is_plain(control + seq![','] + key),
        split(control + seq![','] + key, ',') == split(control, ',').push(key),
{
    let s = control + seq![','] + key;
    assert forall|k: int| 0 <= k < s.len() implies s[k] != ';' && s[k] != '\x1B' by {
        if k < control.len() {
            assert(control.contains(control[k]));
        } else if k > control.len() {
            assert(key.contains(key[k - control.len() - 1]));
        }
    }
    last_separator_cuts_off_the_last_piece(control, key, ',');
}

/// A move of the cursor at the beginning of a stream: the row, the column and the length of
/// the command. It is `ESC [`, the row, `;`, the column and `H`.
pub open spec fn read_cursor_move(s: Seq<char>) -> Option<(nat, nat, int)> {
    let body = s.skip(2);
    let semicolon = first_of(body, ';');
    let end = first_of(body, 'H');
    if s.len() >= 2 && s[0] == '\x1B' && s[1] == '[' && semicolon < end < body.len() {
        Some(
            (
                numeral_value(body.take(semicolon), 10),
                numeral_value(body.subrange(semicolon + 1, end), 10),
                2 + end + 1,
            ),
        )
    } else {
        None
    }
}

proof fn lemma_cursor_move_reads_back(row: nat, col: nat, rest: Seq<char>)
    ensures
        ({
            let s = cursor_move(row, col);
            read_cursor_move(s + rest) == Some((row, col, s.len() as int))
        }),
{
    reveal(cursor_move);
    let (r, c) = (decimal(row), decimal(col));
    let s = seq!['\x1B', '['] + r + seq![';'] + c + seq!['H'];
    let body = (s + rest).skip(2);
    decimal_reads_back(row);
    decimal_reads_back(col);
    let numbers = r + seq![';'] + c;
    assert(!r.contains(';')) by {
        if r.contains(';') {
            let k = choose|k: int| 0 <= k < r.len() && r[k] == ';';
            assert('0' <= r[k] <= '9');
        }
    }
    assert(!numbers.contains('H')) by {
        if numbers.contains('H') {
            let k = choose|k: int| 0 <= k < numbers.len() && numbers[k] == 'H';
            if k < r.len() {
                assert('0' <= r[k] <= '9');
            } else if k > r.len() {
                assert('0' <= c[k - r.len() - 1] <= '9');
            }
        }
    }
    lemma_first_of(r, ';', c + seq!['H'] + rest);
    assert(body =~= r.push(';') + (c + seq!['H'] + rest));
    lemma_first_of(numbers, 'H', rest);
    assert(body =~= numbers.push('H') + rest);
    assert(body.take(r.len() as int) =~= r);
    assert(body.subrange(r.len() as int + 1, numbers.len() as int) =~= c);
}

/// The command that moves the cursor.
#[verifier::opaque]
spec fn cursor_move(row: nat, col: nat) -> Seq<char> {
    seq!['\x1B', '['] + decimal(row) + seq![';'] + decimal(col) + seq!['H']
}

/// Some control keys and a further one with a number.
spec fn with_key(control: Seq<char>, key: Seq<char>, n: nat) -> Seq<char> {
    control + seq![','] + (key + decimal(n))
}

/// The keys of a shown image that are always the same.
spec fn fixed_keys() -> Seq<char> {
    "z=-1073741825"@ + seq![','] + "a=p"@ + seq![','] + "C=1"@
}

/// The keys of a shown image.
#[verifier::opaque]
spec fn shown_keys(id: nat, rect: (nat, nat, nat, nat), c: nat, r: nat) -> Seq<char> {
    let corner = with_key(
        with_key(with_key(fixed_keys(), "i="@, id), "x="@, rect.0),
        "y="@,
        rect.1,
    );
    let part = with_key(with_key(corner, "w="@, rect.2), "h="@, rect.3);
    with_key(with_key(part, "c="@, c), "r="@, r)
}

proof fn lemma_fixed_keys()
    ensures
        is_plain(fixed_keys()),
        split(fixed_keys(), ',') == seq!["z=-1073741825"@, "a=p"@, "C=1"@],
        "\x1B_Gz=-1073741825,a=p,C=1,i="@ == "\x1B_G"@ + fixed_keys() + seq![','] + "i="@,
{
    reveal_strlit("z=-1073741825");
    reveal_strlit("a=p");
    reveal_strlit("C=1");
    let (z, a, c) = ("z=-1073741825"@, "a=p"@, "C=1"@);
    text_without_separator_is_one_piece(z, ',');
    lemma_further_key(z, a);
    lemma_further_key(z + seq![','] + a, c);
    assert(split(fixed_keys(), ',') =~= seq![z, a, c]);
    assert("\x1B_Gz=-1073741825,a=p,C=1,i="@ =~= "\x1B_G"@ + fixed_keys() + seq![','] + "i="@) by {
        reveal_strlit("\x1B_Gz=-1073741825,a=p,C=1,i=");
        reveal_strlit("\x1B_G");
        reveal_strlit("i=");
    }
}

proof fn lemma_short_keys()
    ensures
        is_plain("i="@) && !"i="@.contains(','),
        is_plain("x="@) && !"x="@.contains(',') && ",x="@ == seq![','] + "x="@,
        is_plain("y="@) && !"y="@.contains(',') && ",y="@ == seq![','] + "y="@,
        is_plain("w="@) && !"w="@.contains(',') && ",w="@ == seq![','] + "w="@,
        is_plain("h="@) && !"h="@.contains(',') && ",h="@ == seq![','] + "h="@,
        is_plain("c="@) && !"c="@.contains(',') && ",c="@ == seq![','] + "c="@,
        is_plain("r="@) && !"r="@.contains(',') && ",r="@ == seq![','] + "r="@,
{
    reveal_strlit("i=");
    reveal_strlit(",x=");
    reveal_strlit("x=");
    reveal_strlit(",y=");
    reveal_strlit("y=");
    reveal_strlit(",w=");
    reveal_strlit("w=");
    reveal_strlit(",h=");
    reveal_strlit("h=");
    reveal_strlit(",c=");
    reveal_strlit("c=");
    reveal_strlit(",r=");
    reveal_strlit("r=");
    assert(",x="@ =~= seq![','] + "x="@);
    assert(",y="@ =~= seq![','] + "y="@);
    assert(",w="@ =~= seq![','] + "w="@);
    assert(",h="@ =~= seq![','] + "h="@);
    assert(",c="@ =~= seq![','] + "c="@);
    assert(",r="@ =~= seq![','] + "r="@);
}

proof fn lemma_with_key(control: Seq<char>, key: Seq<char>, n: nat)
    requires
        is_plain(control),
        is_plain(key),
        !key.contains(','),
    ensures
        is_plain(with_key(control, key, n)),
        split(with_key(control, key, n), ',') == split(control, ',').push(key + decimal(n)),
{
    lemma_plain_key(key, n);
    lemma_further_key(control, key + decimal(n));
}

proof fn lemma_shown_keys(id: nat, rect: (nat, nat, nat, nat), c: nat, r: nat)
    ensures
        is_plain(shown_keys(id, rect, c, r)),
        split(shown_keys(id, rect, c, r), ',') == seq![
            "z=-1073741825"@,
            "a=p"@,
            "C=1"@,
            "i="@ + decimal(id),
            "x="@ + decimal(rect.0),
            "y="@ + decimal(rect.1),
            "w="@ + decimal(rect.2),
            "h="@ + decimal(rect.3),
            "c="@ + decimal(c),
            "r="@ + decimal(r),
        ],
{
    reveal(shown_keys);
    lemma_fixed_keys();
    lemma_short_keys();
    let k3 = with_key(fixed_keys(), "i="@, id);
    let k4 = with_key(k3, "x="@, rect.0);
    let k5 = with_key(k4, "y="@, rect.1);
    let k6 = with_key(k5, "w="@, rect.2);
    let k7 = with_key(k6, "h="@, rect.3);
    let k8 = with_key(k7, "c="@, c);
    lemma_with_key(fixed_keys(), "i="@, id);
    lemma_with_key(k3, "x="@, rect.0);
    lemma_with_key(k4, "y="@, rect.1);
    lemma_with_key(k5, "w="@, rect.2);
    lemma_with_key(k6, "h="@, rect.3);
    lemma_with_key(k7, "c="@, c);
    lemma_with_key(k8, "r="@, r);
    assert(split(shown_keys(id, rect, c, r), ',') =~= seq![
        "z=-1073741825"@,
        "a=p"@,
        "C=1"@,
        "i="@ + decimal(id),
        "x="@ + decimal(rect.0),
        "y="@ + decimal(rect.1),
        "w="@ + decimal(rect.2),
        "h="@ + decimal(rect.3),
        "c="@ + decimal(c),
        "r="@ + decimal(r),
    ]);
}

/// A key and a number that are appended to a text which ends in some control keys.
proof fn lemma_append_key(
    head: Seq<char>,
    control: Seq<char>,
    mark: Seq<char>,
    key: Seq<char>,
    n: nat,
)
    requires
        mark == seq![','] + key,
    ensures
        head + control + mark + decimal(n) == head + with_key(control, key, n),
{
    assert(head + control + mark + decimal(n) =~= head + with_key(control, key, n));
}

#[verifier::rlimit(40)]
proof fn lemma_shown_image(
    id: nat,
    col: nat,
    row: nat,
    rect: (nat, nat, nat, nat),
    c: nat,
    r: nat,
)
    ensures
        display_command(id, col, row, rect, c, r) == "\x1B[s"@ + (cursor_move(row, col) + (frame(
            shown_keys(id, rect, c, r),
            Seq::empty(),
        ) + "\x1B[u"@)),
{
    reveal(cursor_move);
    reveal(shown_keys);
    lemma_fixed_keys();
    lemma_short_keys();
    let save = "\x1B[s"@;
    let cursor = cursor_move(row, col);
    let head = save + cursor + "\x1B_G"@;
    let start = "\x1B[s\x1B["@ + decimal(row) + ";"@ + decimal(col) + "H"@;
    assert(start =~= save + cursor) by {
        reveal_strlit("\x1B[s\x1B[");
        reveal_strlit("\x1B[s");
        reveal_strlit(";");
        reveal_strlit("H");
    }
    let k3 = with_key(fixed_keys(), "i="@, id);
    let k4 = with_key(k3, "x="@, rect.0);
    let k5 = with_key(k4, "y="@, rect.1);
    let k6 = with_key(k5, "w="@, rect.2);
    let k7 = with_key(k6, "h="@, rect.3);
    let k8 = with_key(k7, "c="@, c);
    let keys = shown_keys(id, rect, c, r);
    assert(save + cursor + ("\x1B_G"@ + fixed_keys() + seq![','] + "i="@) + decimal(id) =~= head
        + k3);
    lemma_append_key(head, k3, ",x="@, "x="@, rect.0);
    lemma_append_key(head, k4, ",y="@, "y="@, rect.1);
    lemma_append_key(head, k5, ",w="@, "w="@, rect.2);
    lemma_append_key(head, k6, ",h="@, "h="@, rect.3);
    lemma_append_key(head, k7, ",c="@, "c="@, c);
    lemma_append_key(head, k8, ",r="@, "r="@, r);
    assert(display_command(id, col, row, rect, c, r) == head + keys + ";\x1B\\"@ + "\x1B[u"@);
    let none = Seq::<char>::empty();
    assert(";\x1B\\"@ =~= ";"@ + none + "\x1B\\"@) by {
        reveal_strlit(";");
        reveal_strlit("\x1B\\");
        reveal_strlit(";\x1B\\");
    }
    let (open, close, restore) = ("\x1B_G"@, "\x1B\\"@, "\x1B[u"@);
    assert(save + cursor + open + keys + (";"@ + none + close) + restore =~= save + (cursor + ((open
        + keys + ";"@ + none + close) + restore)));
}

proof fn lemma_shown_image_is_read(s: Seq<char>, row: nat, col: nat, keys: Seq<char>)
    requires
        s == "\x1B[s"@ + (cursor_move(row, col) + (frame(keys, Seq::empty()) + "\x1B[u"@)),
        is_plain(keys),
    ensures
        ({
            let cursor = cursor_move(row, col);
            let len = cursor.len() as int;
            let len2 = frame(keys, Seq::empty()).len() as int;
            &&& s.len() >= 3 && s.take(3) == "\x1B[s"@
            &&& read_cursor_move(s.skip(3)) == Some((row, col, len))
            &&& read_frame(s.skip(3).skip(len)) == Some((keys, Seq::<char>::empty(), len2))
            &&& s.skip(3).skip(len).skip(len2) == "\x1B[u"@
        }),
{
    let none = Seq::<char>::empty();
    let cursor = cursor_move(row, col);
    let command = frame(keys, none);
    let (save, restore) = ("\x1B[s"@, "\x1B[u"@);
    assert(save.len() == 3) by {
        reveal_strlit("\x1B[s");
    }
    lemma_cursor_move_reads_back(row, col, command + restore);
    frame_reads_back(keys, none, restore);
    lemma_skip_first(save, cursor + (command + restore));
    lemma_skip_first(cursor, command + restore);
    lemma_skip_first(command, restore);
}

proof fn lemma_skip_first(a: Seq<char>, b: Seq<char>)
    ensures
        (a + b).skip(a.len() as int) == b,
        (a + b).take(a.len() as int) == a,
        (a + b).len() >= a.len(),
{
    assert((a + b).skip(a.len() as int) =~= b);
    assert((a + b).take(a.len() as int) =~= a);
}

/// What shows a part of an image is read as: the cursor is saved, it is moved to the row and
/// the column that were given, one command places the given part of the given image over the
/// given columns and rows, behind cells with a colored background and without moving the
/// cursor, and the cursor goes back to where it was saved.
#[verifier::rlimit(40)]
pub proof fn shown_image_reads_back(
    id: usize,
    col: usize,
    row: usize,
    rect: (usize, usize, usize, usize),
    c: usize,
    r: usize,
    out: String,
)
    requires
        call_ensures(terminal_graphics_display_image, (id, col, row, rect, c, r), out),
    ensures
        ({
            let after_save = out@.skip(3);
            &&& out@.len() >= 3 && out@.take(3) == "\x1B[s"@
            &&& read_cursor_move(after_save) matches Some((to_row, to_col, len)) && {
                &&& to_row == row
                &&& to_col == col
                &&& read_frame(after_save.skip(len)) matches Some((control, payload, len2)) && {
                    &&& payload.len() == 0
                    &&& after_save.skip(len).skip(len2) == "\x1B[u"@
                    &&& split(control, ',') == seq![
                        "z=-1073741825"@,
                        "a=p"@,
                        "C=1"@,
                        "i="@ + decimal(id as nat),
                        "x="@ + decimal(rect.0 as nat),
                        "y="@ + decimal(rect.1 as nat),
                        "w="@ + decimal(rect.2 as nat),
                        "h="@ + decimal(rect.3 as nat),
                        "c="@ + decimal(c as nat),
                        "r="@ + decimal(r as nat),
                    ]
                }
            }
        }),
{
    let part = (rect.0 as nat, rect.1 as nat, rect.2 as nat, rect.3 as nat);
    lemma_shown_keys(id as nat, part, c as nat, r as nat);
    lemma_shown_image(id as nat, col as nat, row as nat, part, c as nat, r as nat);
    lemma_shown_image_is_read(
        out@,
        row as nat,
        col as nat,
        shown_keys(id as nat, part, c as nat, r as nat),
    );
}

/// What shows a part of an image tells all that was given: it is the same only for the same
/// image, place, part and size.
pub proof fn shown_images_differ(
    a: (usize, usize, usize, (usize, usize, usize, usize), usize, usize),
    b: (usize, usize, usize, (usize, usize, usize, usize), usize, usize),
    out: String,
    other: String,
)
    requires
        call_ensures(terminal_graphics_display_image, a, out),
        call_ensures(terminal_graphics_display_image, b, other),
        out@ == other@,
    ensures
        a == b,
{
    shown_image_reads_back(a.0, a.1, a.2, a.3, a.4, a.5, out);
    shown_image_reads_back(b.0, b.1, b.2, b.3, b.4, b.5, other);
    let (_, _, len) = read_cursor_move(out@.skip(3))->0;
    let (control, _, _) = read_frame(out@.skip(3).skip(len))->0;
    let keys = split(control, ',');
    let (a_x, a_y, a_w, a_h) = a.3;
    let (b_x, b_y, b_w, b_h) = b.3;
    assert(keys[3] == "i="@ + decimal(a.0 as nat) && keys[3] == "i="@ + decimal(b.0 as nat));
    lemma_same_number("i="@, a.0 as nat, b.0 as nat);
    assert(keys[4] == "x="@ + decimal(a_x as nat) && keys[4] == "x="@ + decimal(b_x as nat));
    lemma_same_number("x="@, a_x as nat, b_x as nat);
    assert(keys[5] == "y="@ + decimal(a_y as nat) && keys[5] == "y="@ + decimal(b_y as nat));
    lemma_same_number("y="@, a_y as nat, b_y as nat);
    assert(keys[6] == "w="@ + decimal(a_w as nat) && keys[6] == "w="@ + decimal(b_w as nat));
    lemma_same_number("w="@, a_w as nat, b_w as nat);
    assert(keys[7] == "h="@ + decimal(a_h as nat) && keys[7] == "h="@ + decimal(b_h as nat));
    lemma_same_number("h="@, a_h as nat, b_h as nat);
    assert(keys[8] == "c="@ + decimal(a.4 as nat) && keys[8] == "c="@ + decimal(b.4 as nat));
    lemma_same_number("c="@, a.4 as nat, b.4 as nat);
    assert(keys[9] == "r="@ + decimal(a.5 as nat) && keys[9] == "r="@ + decimal(b.5 as nat));
    lemma_same_number("r="@, a.5 as nat, b.5 as nat);
}

proof fn lemma_same_number(key: Seq<char>, a: nat, b: nat)
    requires
        key + decimal(a) == key + decimal(b),
    ensures
        a == b,
{
    let none = Seq::<char>::empty();
    assert(key + decimal(a) + none =~= key + decimal(a));
    assert(key + decimal(b) + none =~= key + decimal(b));
    same_middle(key, decimal(a), decimal(b), none);
    numerals_differ(a, b, 10);
}

/// What deletes an image is read as one command, and nothing after it, that deletes just the
/// given image and frees its data.
pub proof fn deallocation_reads_back(id: usize, out: String)
    requires
        call_ensures(terminal_graphics_deallocate_id, (id,), out),
    ensures
        read_frame(out@) matches Some((control, payload, len)) && {
            &&& payload.len() == 0
            &&& len == out@.len()
            &&& split(control, ',') == seq!["a=d"@, "d=I"@, "i="@ + decimal(id as nat)]
        },
{
    reveal_strlit("\x1B_Ga=d,d=I,i=");
    reveal_strlit("\x1B_G");
    reveal_strlit("a=d");
    reveal_strlit("d=I");
    reveal_strlit("i=");
    reveal_strlit(";");
    reveal_strlit("\x1B\\");
    reveal_strlit(";\x1B\\");
    let k1 = "a=d"@ + seq![','] + "d=I"@;
    let k2 = k1 + seq![','] + ("i="@ + decimal(id as nat));
    text_without_separator_is_one_piece("a=d"@, ',');
    lemma_further_key("a=d"@, "d=I"@);
    lemma_plain_key("i="@, id as nat);
    lemma_further_key(k1, "i="@ + decimal(id as nat));
    let none = Seq::<char>::empty();
    frame_reads_back(k2, none, none);
    assert(out@ =~= frame(k2, none) + none);
    assert(split(k2, ',') =~= seq!["a=d"@, "d=I"@, "i="@ + decimal(id as nat)]);
}

/// What a terminal reads of the transmission of a text: the first command says that a PNG file
/// is transmitted directly as the given image and that no answer is wanted, each further one
/// only whether another one follows, and `m` is left out where there is one command alone. The
/// payloads are the pieces of the text, 4096 characters each but for the last one.
pub open spec fn is_read_as(
    frames: Seq<(Seq<char>, Seq<char>)>,
    id: nat,
    text: Seq<char>,
) -> bool {
    &&& 4096 * (frames.len() - 1) < text.len() <= 4096 * frames.len()
    &&& split(frames[0].0, ',') == seq!["q=2"@, "f=100"@, "i="@ + decimal(id), "t=d"@] + (
    if frames.len() > 1 {
        seq!["m=1"@]
    } else {
        seq![]
    })
    &&& forall|i: int|
        1 <= i < frames.len() ==> (#[trigger] frames[i]).0 == if i + 1 < frames.len() {
            "m=1"@
        } else {
            "m=0"@
        }
    &&& forall|i: int|
        0 <= i < frames.len() ==> (#[trigger] frames[i]).1 == text.subrange(
            4096 * i,
            if i + 1 < frames.len() {
                4096 * i + 4096
            } else {
                text.len() as int
            },
        )
}

/// Every text that is transmitted is read as what it is, whatever its length and the number of
/// the image.
pub proof fn transmission_is_direct(id: nat, text: Seq<char>)
    requires
        text.len() > 0,
        !text.contains('\x1B'),
    ensures
        read_frames(transmission(id, text)) matches Some(frames) && is_read_as(frames, id, text),
{
    transmission_reads_back(id, text);
    let frames = sent_from(id, text, 0);
    let n = chunk_count(text.len());
    reveal_strlit("q=2,f=100,i=");
    reveal_strlit("q=2");
    reveal_strlit("f=100");
    reveal_strlit("i=");
    reveal_strlit(",t=d");
    reveal_strlit(",t=d,m=1");
    reveal_strlit("t=d");
    reveal_strlit("m=1");
    let k1 = "q=2"@ + seq![','] + "f=100"@;
    let k2 = k1 + seq![','] + ("i="@ + decimal(id));
    let k3 = k2 + seq![','] + "t=d"@;
    let k4 = k3 + seq![','] + "m=1"@;
    text_without_separator_is_one_piece("q=2"@, ',');
    lemma_further_key("q=2"@, "f=100"@);
    lemma_plain_key("i="@, id);
    lemma_further_key(k1, "i="@ + decimal(id));
    lemma_further_key(k2, "t=d"@);
    lemma_further_key(k3, "m=1"@);
    assert("q=2,f=100,i="@ + decimal(id) =~= k2);
    let keys = split(frames[0].0, ',');
    if n == 1 {
        assert(frames[0].0 =~= k3);
        assert(keys =~= seq!["q=2"@, "f=100"@, "i="@ + decimal(id), "t=d"@] + seq![]);
    } else {
        assert(",t=d,m=1"@ =~= seq![','] + "t=d"@ + seq![','] + "m=1"@);
        assert(frames[0].0 =~= k4);
        assert(keys =~= seq!["q=2"@, "f=100"@, "i="@ + decimal(id), "t=d"@] + seq!["m=1"@]);
    }
}

/// The transfer of a file is read as the direct transmission of its Base64 text, from which the
/// terminal gets the file. The lengths that are told are those of the file and of that text.
/// Nothing is sent of a file without octets.
pub proof fn transferred_file_is_received(id: usize, png: &[u8], r: Transfer)
    requires
        call_ensures(transfer_png, (id, png), r),
    ensures
        png@.len() == 0 ==> r.stream@.len() == 0,
        read_frames(r.stream@) matches Some(frames) && {
            &&& png@.len() > 0 ==> is_read_as(frames, id as nat, payloads(frames))
            &&& base64_decoded(payloads(frames)) == png@
            &&& r.png_len == png@.len()
            &&& r.encoded_len == payloads(frames).len()
        },
{
    let text = base64_text(png@);
    base64_is_printable(png@);
    base64_reads_back(png@);
    transmission_reads_back(id as nat, text);
    if png@.len() > 0 {
        transmission_is_direct(id as nat, text);
    }
}

/// The big-endian number in four octets of a file.
pub open spec fn number_at(file: Seq<u8>, i: int) -> int {
    file[i] * 0x100_0000 + file[i + 1] * 0x1_0000 + file[i + 2] * 0x100 + file[i + 3]
}

/// A bitmap whose dimensions, modulo 2^32, are not zero and whose data has three octets for
/// each pixel, or four with an alpha channel, is read by the terminal as a direct transmission
/// of a PNG file that holds these dimensions, eight bits to a sample, the color type and the
/// very data.
pub proof fn transferred_bitmap_is_received(
    id: usize,
    width: usize,
    height: usize,
    data: &[u8],
    alpha: bool,
    r: Transfer,
)
    requires
        call_ensures(
            terminal_graphics_transfer_bitmap,
            (id, width, height, data, alpha),
            Ok::<Transfer, TransferError>(r),
        ),
    ensures
        ({
            let (w, h) = (width as int % 0x1_0000_0000, height as int % 0x1_0000_0000);
            &&& w > 0 && h > 0
            &&& data@.len() == w * h * if alpha {
                4int
            } else {
                3int
            }
            &&& read_frames(r.stream@) matches Some(frames) && {
                let file = base64_decoded(payloads(frames));
                &&& is_read_as(frames, id as nat, payloads(frames))
                &&& file.len() >= 29
                &&& number_at(file, 16) == w
                &&& number_at(file, 20) == h
                &&& file[24] == 8
                &&& file[25] == if alpha {
                    6u8
                } else {
                    2u8
                }
                &&& png_samples(file) == Some(data@)
                &&& r.png_len == file.len()
                &&& r.encoded_len == payloads(frames).len()
            }
        }),
{
    let (w, h) = (low32(width), low32(height));
    let file = transferred_file(w, h, color_of(alpha), data@);
    let text = base64_text(file);
    png_header_tells_the_bitmap(w, h, color_of(alpha), file);
    base64_is_printable(file);
    base64_reads_back(file);
    transmission_reads_back(id as nat, text);
    transmission_is_direct(id as nat, text);
}

/// A bitmap is turned down exactly where a dimension, modulo 2^32, is zero or the data has not
/// three octets for each pixel, or four with an alpha channel, with a message that says which;
/// or where its file is longer than text can be.
pub proof fn bitmap_is_turned_down_with_the_reason(
    id: usize,
    width: usize,
    height: usize,
    data: &[u8],
    alpha: bool,
    r: Result<Transfer, TransferError>,
)
    requires
        call_ensures(terminal_graphics_transfer_bitmap, (id, width, height, data, alpha), r),
    ensures
        ({
            let (w, h) = (width as int % 0x1_0000_0000, height as int % 0x1_0000_0000);
            let wanted = w * h * if alpha {
                4int
            } else {
                3int
            };
            &&& w == 0 ==> (r matches Err(TransferError::Png(message)) && message@
                == "PNG header error: Zero width not allowed"@)
            &&& w > 0 && h == 0 ==> (r matches Err(TransferError::Png(message)) && message@
                == "PNG header error: Zero height not allowed"@)
            &&& w > 0 && h > 0 && data@.len() != wanted ==> (r matches Err(
                TransferError::Png(message),
            ) && message@ == "PNG encode error: wrong data size, expected "@ + decimal(
                wanted as nat,
            ) + " got "@ + decimal(data@.len()))
            &&& w > 0 && h > 0 && data@.len() == wanted ==> {
                let file = png_file(
                    w as u32,
                    h as u32,
                    if alpha {
                        ColorType::Rgba
                    } else {
                        ColorType::Rgb
                    },
                    BitDepth::Eight,
                    Compression::Fast,
                    data@,
                );
                if (file.len() + 2) / 3 * 4 <= isize::MAX {
                    r is Ok
                } else {
                    r == Err::<Transfer, TransferError>(TransferError::Oversized)
                }
            }
        }),
{
    reveal_strlit("PNG header error: ");
    reveal_strlit("Zero width not allowed");
    reveal_strlit("Zero height not allowed");
    reveal_strlit("PNG header error: Zero width not allowed");
    reveal_strlit("PNG header error: Zero height not allowed");
    reveal_strlit("PNG encode error: ");
    reveal_strlit("wrong data size, expected ");
    reveal_strlit("PNG encode error: wrong data size, expected ");
    assert("PNG header error: "@ + "Zero width not allowed"@
        =~= "PNG header error: Zero width not allowed"@);
    assert("PNG header error: "@ + "Zero height not allowed"@
        =~= "PNG header error: Zero height not allowed"@);
    let (w, h) = (low32(width), low32(height));
    let wanted = decimal(bitmap_len(w, h, color_of(alpha)));
    let got = decimal(data@.len());
    assert("PNG encode error: "@ + ("wrong data size, expected "@ + wanted + " got "@ + got)
        =~= "PNG encode error: "@ + "wrong data size, expected "@ + wanted + " got "@ + got);
    assert("PNG encode error: "@ + "wrong data size, expected "@
        =~= "PNG encode error: wrong data size, expected "@);
}

/// A bitmap is in range where its octets can be counted in a machine word and, if the data has
/// the right length, those of a row in 32 bits.
pub proof fn range_is_that_of_the_counters(
    width: usize,
    height: usize,
    len: usize,
    alpha: bool,
    r: bool,
)
    requires
        call_ensures(bitmap_is_in_range, (width, height, len, alpha), r),
    ensures
        ({
            let (w, h) = (width as int % 0x1_0000_0000, height as int % 0x1_0000_0000);
            let samples = if alpha {
                4int
            } else {
                3int
            };
            r <==> w * h * samples < usize::MAX && (len == w * h * samples ==> w * samples
                < u32::MAX)
        }),
{
}

/// A response accepts a command exactly where an `O` and then a `K` stand in its payload.
pub proof fn ok_means_accepted(payload: &str, r: bool)
    requires
        call_ensures(is_accepted, (payload,), r),
    ensures
        r <==> holds_ok(payload@),
{
    lemma_ok(payload@);
}

/// Whether an `O` and then a `K` stand in a text.
pub open spec fn holds_ok(s: Seq<char>) -> bool {
    exists|i: int| 0 <= i < s.len() - 1 && #[trigger] s[i] == 'O' && s[i + 1] == 'K'
}

pub(crate) proof fn lemma_ok(s: Seq<char>)
    ensures
        accepted(s) == holds_ok(s),
{
    reveal_strlit("OK");
    let ok = "OK"@;
    if accepted(s) {
        let i = choose|i: int| #[trigger] occurs_at(ok, s, i);
        assert(s.subrange(i, i + 2)[0] == ok[0] && s.subrange(i, i + 2)[1] == ok[1]);
        assert(s[i] == 'O' && s[i + 1] == 'K');
    }
    if holds_ok(s) {
        let i = choose|i: int| 0 <= i < s.len() - 1 && #[trigger] s[i] == 'O' && s[i + 1] == 'K';
        assert(s.subrange(i, i + 2) =~= ok);
        assert(occurs_at(ok, s, i));
    }
}

/// The terminal is supported exactly where a response came whose payload holds `OK`. Otherwise
/// the message says what came instead: the payload, or the words of the channel.
pub proof fn support_needs_an_ok(
    response: Result<GraphicsResponse, String>,
    r: Result<(), String>,
)
    requires
        call_ensures(terminal_graphics_test_support, (response,), r),
    ensures
        match response {
            Ok(answer) => if holds_ok(answer.payload_text()) {
                r is Ok
            } else {
                r matches Err(message) && message@
                    == "Terminal responded with failed graphics response: "@
                    + answer.payload_text()
            },
            Err(words) => r matches Err(message) && message@
                == "Could not receive from Graphics Response channel: "@ + words@,
        },
{
    if let Ok(answer) = response {
        lemma_ok(answer.payload_text());
    }
}

/// A flush that went well is nothing to report, and one that failed is reported with its words.
pub proof fn failed_flush_is_reported(flushed: Result<(), String>, r: Result<(), String>)
    requires
        call_ensures(display_outcome, (flushed,), r),
    ensures
        match flushed {
            Ok(_) => r is Ok,
            Err(words) => r matches Err(message) && message@ == "Could not flush stdout: "@ + words@,
        },
{
}

/// A transfer waits exactly as long as the program runs and the user was active less than a
/// tenth of a second ago.
pub proof fn transfer_waits_for_an_idle_user(idle_ms: u64, running: bool, r: bool)
    requires
        call_ensures(transfer_is_deferred, (idle_ms, running), r),
    ensures
        !running ==> !r,
        idle_ms >= 100 ==> !r,
        running && idle_ms < 100 ==> r,
{
}

/// The query for support is read as one command, and nothing after it, that asks for an answer
/// to the direct transmission of one pixel of three octets.
pub proof fn support_query_reads_back()
    ensures
        read_frame(SUPPORT_QUERY@) matches Some((control, payload, len)) && {
            &&& len == SUPPORT_QUERY@.len()
            &&& split(control, ',') == seq!["i=31"@, "s=1"@, "v=1"@, "a=q"@, "t=d"@, "f=24"@]
            &&& payload == "AAAA"@
        },
{
    reveal_strlit("\x1B_Gi=31,s=1,v=1,a=q,t=d,f=24;AAAA\x1B\\");
    reveal_strlit("\x1B_G");
    reveal_strlit("\x1B\\");
    reveal_strlit(";");
    reveal_strlit("i=31");
    reveal_strlit("s=1");
    reveal_strlit("v=1");
    reveal_strlit("a=q");
    reveal_strlit("t=d");
    reveal_strlit("f=24");
    reveal_strlit("AAAA");
    let none = Seq::<char>::empty();
    let k1 = "i=31"@ + seq![','] + "s=1"@;
    let k2 = k1 + seq![','] + "v=1"@;
    let k3 = k2 + seq![','] + "a=q"@;
    let k4 = k3 + seq![','] + "t=d"@;
    let k5 = k4 + seq![','] + "f=24"@;
    text_without_separator_is_one_piece("i=31"@, ',');
    lemma_further_key("i=31"@, "s=1"@);
    lemma_further_key(k1, "v=1"@);
    lemma_further_key(k2, "a=q"@);
    lemma_further_key(k3, "t=d"@);
    lemma_further_key(k4, "f=24"@);
    frame_reads_back(k5, "AAAA"@, none);
    assert(SUPPORT_QUERY@ =~= frame(k5, "AAAA"@) + none);
    assert(split(k5, ',') =~= seq!["i=31"@, "s=1"@, "v=1"@, "a=q"@, "t=d"@, "f=24"@]);
}

} // verus!
