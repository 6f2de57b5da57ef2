//! Messages of the debug log.
use crate::session::WindowSize;
use crate::text::{
    decimal, decimal_reads_back, last_separator_cuts_off_the_last_piece, push_decimal, split,
    text_without_separator_is_one_piece,
};
use vstd::prelude::*;
use vstd::string::*;

verus! {

/// What the log says of a transfer: the lengths in units of 1024 octets, and how long it took
/// to encode, to wait for an idle user and to write, in milliseconds.
pub fn transfer_message(
    id: usize,
    raw_len: usize,
    png_len: usize,
    encoded_len: usize,
    encode_ms: u128,
    waited_ms: u128,
    write_ms: u128,
) -> (r: String)
    ensures
        r@ == "TRANSFER id="@ + decimal(id as nat) + " raw="@ + decimal(raw_len as nat / 1024)
            + "KB png="@ + decimal(png_len as nat / 1024) + "KB b64="@ + decimal(
            encoded_len as nat / 1024,
        ) + "KB encode="@ + decimal(encode_ms as nat) + "ms waited="@ + decimal(waited_ms as nat)
            + "ms write="@ + decimal(write_ms as nat) + "ms"@,
{
    let mut out = "TRANSFER id=".to_owned();
    push_decimal(&mut out, id as u128);
    out.append(" raw=");
    push_decimal(&mut out, raw_len as u128 / 1024);
    out.append("KB png=");
    push_decimal(&mut out, png_len as u128 / 1024);
    out.append("KB b64=");
    push_decimal(&mut out, encoded_len as u128 / 1024);
    out.append("KB encode=");
    push_decimal(&mut out, encode_ms);
    out.append("ms waited=");
    push_decimal(&mut out, waited_ms);
    out.append("ms write=");
    push_decimal(&mut out, write_ms);
    out.append("ms");
    out
}

/// What the log says of a new size of the terminal.
pub fn resize_message(size: WindowSize) -> (r: String)
    ensures
        r@ == "RESIZE -> rows="@ + decimal(size.rows as nat) + " cols="@ + decimal(
            size.columns as nat,
        ) + " xpix="@ + decimal(size.width as nat) + " ypix="@ + decimal(size.height as nat),
{
    let mut out = "RESIZE -> rows=".to_owned();
    push_decimal(&mut out, size.rows as u128);
    out.append(" cols=");
    push_decimal(&mut out, size.columns as u128);
    out.append(" xpix=");
    push_decimal(&mut out, size.width as u128);
    out.append(" ypix=");
    push_decimal(&mut out, size.height as u128);
    out
}

/// Page numbers with a comma and a space between them.
pub open spec fn listed(pages: Seq<usize>) -> Seq<char>
    decreases pages.len(),
{
    if pages.len() == 0 {
        Seq::empty()
    } else if pages.len() == 1 {
        decimal(pages[0] as nat)
    } else {
        listed(pages.drop_last()) + ", "@ + decimal(pages.last() as nat)
    }
}

/// What the log says of the pages that were drawn.
pub fn display_message(pages: &Vec<usize>) -> (r: String)
    ensures
        r@ == "display_pages -> "@ + decimal(pages@.len()) + " page(s): ["@ + listed(pages@) + "]"@,
{
    let mut out = "display_pages -> ".to_owned();
    push_decimal(&mut out, pages.len() as u128);
    out.append(" page(s): [");
    let ghost head = out@;
    let mut i: usize = 0;
    assert(out@ =~= head + listed(pages@.take(0)));
    while i < pages.len()
        invariant
            0 <= i <= pages@.len(),
            out@ == head + listed(pages@.take(i as int)),
        decreases pages.len() - i,
    {
        if i > 0 {
            out.append(", ");
        }
        push_decimal(&mut out, pages[i] as u128);
        proof {
            let upto = pages@.take(i + 1);
            assert(upto.drop_last() =~= pages@.take(i as int));
            assert(upto.last() == pages@[i as int]);
            assert(out@ =~= head + listed(upto));
        }
        i = i + 1;
    }
    assert(pages@.take(pages@.len() as int) =~= pages@);
    out.append("]");
    out
}

/// What the log says when the response to the `i`-th of `n` pages is waited for.
pub fn awaiting_message(i: usize, n: usize, page: usize) -> (r: String)
    ensures
        r@ == "  awaiting response "@ + decimal(i as nat + 1) + "/"@ + decimal(n as nat)
            + " (page "@ + decimal(page as nat) + ")"@,
{
    let mut out = "  awaiting response ".to_owned();
    push_decimal(&mut out, i as u128 + 1);
    out.append("/");
    push_decimal(&mut out, n as u128);
    out.append(" (page ");
    push_decimal(&mut out, page as u128);
    out.append(")");
    out
}

/// What the log says of the response to a page, whose payload is given in quotes.
pub fn response_message(page: usize, quoted: &str) -> (r: String)
    ensures
        r@ == "  got response (page "@ + decimal(page as nat) + "): "@ + quoted@,
{
    let mut out = "  got response (page ".to_owned();
    push_decimal(&mut out, page as u128);
    out.append("): ");
    out.append(quoted);
    out
}

/// What the log says when the response to the `i`-th of `n` pages did not come.
pub fn no_response_message(i: usize, n: usize, page: usize) -> (r: String)
    ensures
        r@ == "  NO RESPONSE for page "@ + decimal(page as nat) + " ("@ + decimal(i as nat + 1)
            + "/"@ + decimal(n as nat) + ") within timeout -- continuing"@,
{
    let mut out = "  NO RESPONSE for page ".to_owned();
    push_decimal(&mut out, page as u128);
    out.append(" (");
    push_decimal(&mut out, i as u128 + 1);
    out.append("/");
    push_decimal(&mut out, n as u128);
    out.append(") within timeout -- continuing");
    out
}

// ---------------------------------------------------------------------------
// What the messages tell
// ---------------------------------------------------------------------------
proof fn lemma_number_in_a_word(before: Seq<char>, n: nat, after: Seq<char>)
    requires
        !before.contains(' '),
        !after.contains(' '),
    ensures
        !(before + decimal(n) + after).contains(' '),
{
    decimal_reads_back(n);
    let s = before + decimal(n) + after;
    assert forall|k: int| 0 <= k < s.len() implies s[k] != ' ' by {
        if k < before.len() {
            assert(before.contains(before[k]));
        } else if k < before.len() + decimal(n).len() {
            assert(s[k] == decimal(n)[k - before.len()]);
        } else {
            assert(after.contains(after[k - before.len() - decimal(n).len()]));
        }
    }
}

/// A text that ends in a word with a number, and goes on with the rest of that word, a space
/// and the beginning of the next one.
proof fn lemma_next_word(
    text: Seq<char>,
    before: Seq<char>,
    n: nat,
    after: Seq<char>,
    joint: Seq<char>,
    next: Seq<char>,
)
    requires
        !before.contains(' '),
        !after.contains(' '),
        joint == after + seq![' '] + next,
    ensures
        text + seq![' '] + before + decimal(n) + joint == text + seq![' '] + (before + decimal(n)
            + after) + seq![' '] + next,
        split(text + seq![' '] + (before + decimal(n) + after), ' ') == split(text, ' ').push(
            before + decimal(n) + after,
        ),
{
    lemma_number_in_a_word(before, n, after);
    last_separator_cuts_off_the_last_piece(text, before + decimal(n) + after, ' ');
    assert(text + seq![' '] + before + decimal(n) + joint =~= text + seq![' '] + (before + decimal(
        n,
    ) + after) + seq![' '] + next);
}

proof fn lemma_last_word(text: Seq<char>, before: Seq<char>, n: nat, after: Seq<char>)
    requires
        !before.contains(' '),
        !after.contains(' '),
    ensures
        split(text + seq![' '] + before + decimal(n) + after, ' ') == split(text, ' ').push(
            before + decimal(n) + after,
        ),
{
    lemma_number_in_a_word(before, n, after);
    last_separator_cuts_off_the_last_piece(text, before + decimal(n) + after, ' ');
    assert(text + seq![' '] + before + decimal(n) + after =~= text + seq![' '] + (before + decimal(n)
        + after));
}

proof fn lemma_transfer_words()
    ensures
        "TRANSFER id="@ == "TRANSFER"@ + seq![' '] + "id="@,
        " raw="@ == ""@ + seq![' '] + "raw="@,
        "KB png="@ == "KB"@ + seq![' '] + "png="@,
        "KB b64="@ == "KB"@ + seq![' '] + "b64="@,
        "KB encode="@ == "KB"@ + seq![' '] + "encode="@,
        "ms waited="@ == "ms"@ + seq![' '] + "waited="@,
        "ms write="@ == "ms"@ + seq![' '] + "write="@,
        ""@ == Seq::<char>::empty(),
        !"TRANSFER"@.contains(' '),
        !"id="@.contains(' '),
        !"raw="@.contains(' '),
        !"png="@.contains(' '),
        !"b64="@.contains(' '),
        !"encode="@.contains(' '),
        !"waited="@.contains(' '),
        !"write="@.contains(' '),
        !"KB"@.contains(' '),
        !"ms"@.contains(' '),
        !""@.contains(' '),
{
    reveal_strlit("TRANSFER id=");
    reveal_strlit("TRANSFER");
    reveal_strlit("id=");
    reveal_strlit(" raw=");
    reveal_strlit("raw=");
    reveal_strlit("KB png=");
    reveal_strlit("png=");
    reveal_strlit("KB b64=");
    reveal_strlit("b64=");
    reveal_strlit("KB encode=");
    reveal_strlit("encode=");
    reveal_strlit("ms waited=");
    reveal_strlit("waited=");
    reveal_strlit("ms write=");
    reveal_strlit("write=");
    reveal_strlit("KB");
    reveal_strlit("ms");
    reveal_strlit("");
    assert("TRANSFER id="@ =~= "TRANSFER"@ + seq![' '] + "id="@);
    assert(" raw="@ =~= ""@ + seq![' '] + "raw="@);
    assert("KB png="@ =~= "KB"@ + seq![' '] + "png="@);
    assert("KB b64="@ =~= "KB"@ + seq![' '] + "b64="@);
    assert("KB encode="@ =~= "KB"@ + seq![' '] + "encode="@);
    assert("ms waited="@ =~= "ms"@ + seq![' '] + "waited="@);
    assert("ms write="@ =~= "ms"@ + seq![' '] + "write="@);
    assert(""@ =~= Seq::<char>::empty());
}

/// The words of the message on a transfer: which image it was, the lengths of the bitmap, of
/// its file and of the text in units of 1024 octets, and what encoding, waiting and writing took.
pub proof fn transfer_message_tells_lengths_and_times(
    id: usize,
    raw_len: usize,
    png_len: usize,
    encoded_len: usize,
    encode_ms: u128,
    waited_ms: u128,
    write_ms: u128,
    r: String,
)
    requires
        call_ensures(
            transfer_message,
            (id, raw_len, png_len, encoded_len, encode_ms, waited_ms, write_ms),
            r,
        ),
    ensures
        split(r@, ' ') == seq![
            "TRANSFER"@,
            "id="@ + decimal(id as nat),
            "raw="@ + decimal(raw_len as nat / 1024) + "KB"@,
            "png="@ + decimal(png_len as nat / 1024) + "KB"@,
            "b64="@ + decimal(encoded_len as nat / 1024) + "KB"@,
            "encode="@ + decimal(encode_ms as nat) + "ms"@,
            "waited="@ + decimal(waited_ms as nat) + "ms"@,
            "write="@ + decimal(write_ms as nat) + "ms"@,
        ],
{
    lemma_transfer_words();
    let (raw, png, b64) = (raw_len as nat / 1024, png_len as nat / 1024, encoded_len as nat / 1024);
    let (encode, waited, write) = (encode_ms as nat, waited_ms as nat, write_ms as nat);
    let w0 = "TRANSFER"@;
    let w1 = w0 + seq![' '] + ("id="@ + decimal(id as nat) + ""@);
    let w2 = w1 + seq![' '] + ("raw="@ + decimal(raw) + "KB"@);
    let w3 = w2 + seq![' '] + ("png="@ + decimal(png) + "KB"@);
    let w4 = w3 + seq![' '] + ("b64="@ + decimal(b64) + "KB"@);
    let w5 = w4 + seq![' '] + ("encode="@ + decimal(encode) + "ms"@);
    let w6 = w5 + seq![' '] + ("waited="@ + decimal(waited) + "ms"@);
    text_without_separator_is_one_piece(w0, ' ');
    lemma_next_word(w0, "id="@, id as nat, ""@, " raw="@, "raw="@);
    lemma_next_word(w1, "raw="@, raw, "KB"@, "KB png="@, "png="@);
    lemma_next_word(w2, "png="@, png, "KB"@, "KB b64="@, "b64="@);
    lemma_next_word(w3, "b64="@, b64, "KB"@, "KB encode="@, "encode="@);
    lemma_next_word(w4, "encode="@, encode, "ms"@, "ms waited="@, "waited="@);
    lemma_next_word(w5, "waited="@, waited, "ms"@, "ms write="@, "write="@);
    lemma_last_word(w6, "write="@, write, "ms"@);
    assert("id="@ + decimal(id as nat) + ""@ =~= "id="@ + decimal(id as nat));
    assert(split(r@, ' ') =~= seq![
        "TRANSFER"@,
        "id="@ + decimal(id as nat),
        "raw="@ + decimal(raw) + "KB"@,
        "png="@ + decimal(png) + "KB"@,
        "b64="@ + decimal(b64) + "KB"@,
        "encode="@ + decimal(encode) + "ms"@,
        "waited="@ + decimal(waited) + "ms"@,
        "write="@ + decimal(write) + "ms"@,
    ]);
}

/// The words of the message on a new size: the rows, the columns and the size in pixels.
pub proof fn resize_message_tells_the_size(size: WindowSize, r: String)
    requires
        call_ensures(resize_message, (size,), r),
    ensures
        split(r@, ' ') == seq![
            "RESIZE"@,
            "->"@,
            "rows="@ + decimal(size.rows as nat),
            "cols="@ + decimal(size.columns as nat),
            "xpix="@ + decimal(size.width as nat),
            "ypix="@ + decimal(size.height as nat),
        ],
{
    reveal_strlit("RESIZE -> rows=");
    reveal_strlit("RESIZE");
    reveal_strlit("->");
    reveal_strlit("rows=");
    reveal_strlit(" cols=");
    reveal_strlit("cols=");
    reveal_strlit(" xpix=");
    reveal_strlit("xpix=");
    reveal_strlit(" ypix=");
    reveal_strlit("ypix=");
    let none = Seq::<char>::empty();
    let (rows, cols) = (size.rows as nat, size.columns as nat);
    let (xpix, ypix) = (size.width as nat, size.height as nat);
    let w1 = "RESIZE"@ + seq![' '] + "->"@;
    let w2 = w1 + seq![' '] + ("rows="@ + decimal(rows) + none);
    let w3 = w2 + seq![' '] + ("cols="@ + decimal(cols) + none);
    let w4 = w3 + seq![' '] + ("xpix="@ + decimal(xpix) + none);
    text_without_separator_is_one_piece("RESIZE"@, ' ');
    last_separator_cuts_off_the_last_piece("RESIZE"@, "->"@, ' ');
    assert("RESIZE -> rows="@ =~= w1 + seq![' '] + "rows="@);
    assert(" cols="@ =~= none + seq![' '] + "cols="@);
    assert(" xpix="@ =~= none + seq![' '] + "xpix="@);
    assert(" ypix="@ =~= none + seq![' '] + "ypix="@);
    lemma_next_word(w1, "rows="@, rows, none, " cols="@, "cols="@);
    lemma_next_word(w2, "cols="@, cols, none, " xpix="@, "xpix="@);
    lemma_next_word(w3, "xpix="@, xpix, none, " ypix="@, "ypix="@);
    lemma_last_word(w4, "ypix="@, ypix, none);
    assert(r@ =~= w4 + seq![' '] + "ypix="@ + decimal(ypix) + none);
    assert("rows="@ + decimal(rows) + none =~= "rows="@ + decimal(rows));
    assert("cols="@ + decimal(cols) + none =~= "cols="@ + decimal(cols));
    assert("xpix="@ + decimal(xpix) + none =~= "xpix="@ + decimal(xpix));
    assert("ypix="@ + decimal(ypix) + none =~= "ypix="@ + decimal(ypix));
    assert(split(r@, ' ') =~= seq![
        "RESIZE"@,
        "->"@,
        "rows="@ + decimal(rows),
        "cols="@ + decimal(cols),
        "xpix="@ + decimal(xpix),
        "ypix="@ + decimal(ypix),
    ]);
}

/// The pages that were drawn are told by their count and one after the other: cut at the commas,
/// the list has one number for each page, in order, with a space before each but the first.
pub proof fn display_message_tells_the_pages(pages: &Vec<usize>, r: String)
    requires
        call_ensures(display_message, (pages,), r),
    ensures
        ({
            let head = "display_pages -> "@ + decimal(pages@.len()) + " page(s): ["@;
            let list = r@.subrange(head.len() as int, r@.len() - 1);
            &&& r@ == head + list + "]"@
            &&& pages@.len() == 0 ==> list.len() == 0
            &&& pages@.len() > 0 ==> {
                &&& split(list, ',').len() == pages@.len()
                &&& split(list, ',')[0] == decimal(pages@[0] as nat)
                &&& forall|i: int|
                    1 <= i < pages@.len() ==> #[trigger] split(list, ',')[i] == seq![' ']
                        + decimal(pages@[i] as nat)
            }
        }),
{
    let head = "display_pages -> "@ + decimal(pages@.len()) + " page(s): ["@;
    let list = r@.subrange(head.len() as int, r@.len() - 1);
    reveal_strlit("]");
    assert(list =~= listed(pages@));
    if pages@.len() > 0 {
        lemma_listed(pages@);
    }
}

proof fn lemma_listed(pages: Seq<usize>)
    requires
        pages.len() > 0,
    ensures
        ({
            let pieces = split(listed(pages), ',');
            &&& pieces.len() == pages.len()
            &&& pieces[0] == decimal(pages[0] as nat)
            &&& forall|i: int|
                1 <= i < pages.len() ==> #[trigger] pieces[i] == seq![' '] + decimal(
                    pages[i] as nat,
                )
        }),
    decreases pages.len(),
{
    let last = decimal(pages.last() as nat);
    decimal_reads_back(pages.last() as nat);
    if pages.len() == 1 {
        assert(!last.contains(',')) by {
            if last.contains(',') {
                let k = choose|k: int| 0 <= k < last.len() && last[k] == ',';
                assert('0' <= last[k] <= '9');
            }
        }
        text_without_separator_is_one_piece(last, ',');
    } else {
        let before = pages.drop_last();
        let piece = seq![' '] + last;
        lemma_listed(before);
        assert(!piece.contains(',')) by {
            if piece.contains(',') {
                let k = choose|k: int| 0 <= k < piece.len() && piece[k] == ',';
                assert(k > 0 && '0' <= last[k - 1] <= '9');
            }
        }
        reveal_strlit(", ");
        assert(listed(pages) =~= listed(before) + seq![','] + piece);
        last_separator_cuts_off_the_last_piece(listed(before), piece, ',');
        let pieces = split(listed(pages), ',');
        assert forall|i: int| 1 <= i < pages.len() implies #[trigger] pieces[i] == seq![' ']
            + decimal(pages[i] as nat) by {
            if i < before.len() {
                assert(split(listed(before), ',')[i] == pieces[i]);
            }
        }
    }
}

/// The words of the message on a wait: the number of the page among those that were drawn,
/// counted from one, their count and the page.
pub proof fn awaiting_message_tells_the_page(i: usize, n: usize, page: usize, r: String)
    requires
        call_ensures(awaiting_message, (i, n, page), r),
    ensures
        split(r@, ' ') == seq![
            ""@,
            ""@,
            "awaiting"@,
            "response"@,
            decimal(i as nat + 1) + "/"@ + decimal(n as nat),
            "(page"@,
            decimal(page as nat) + ")"@,
        ],
{
    reveal_strlit("");
    reveal_strlit("  awaiting response ");
    reveal_strlit("awaiting");
    reveal_strlit("response");
    reveal_strlit("/");
    reveal_strlit(" (page ");
    reveal_strlit("(page");
    reveal_strlit(")");
    let none = Seq::<char>::empty();
    let (a, b, c) = (decimal(i as nat + 1), decimal(n as nat), decimal(page as nat));
    let w1 = none + seq![' '] + none;
    let w2 = w1 + seq![' '] + "awaiting"@;
    let w3 = w2 + seq![' '] + "response"@;
    let w4 = w3 + seq![' '] + (a + "/"@ + b);
    let w5 = w4 + seq![' '] + "(page"@;
    let w6 = w5 + seq![' '] + (c + ")"@);
    assert(""@ =~= none);
    text_without_separator_is_one_piece(none, ' ');
    last_separator_cuts_off_the_last_piece(none, none, ' ');
    last_separator_cuts_off_the_last_piece(w1, "awaiting"@, ' ');
    last_separator_cuts_off_the_last_piece(w2, "response"@, ' ');
    lemma_number_in_a_word(none, i as nat + 1, "/"@);
    lemma_number_in_a_word(none + a + "/"@, n as nat, none);
    assert(none + a + "/"@ + b + none =~= a + "/"@ + b);
    last_separator_cuts_off_the_last_piece(w3, a + "/"@ + b, ' ');
    last_separator_cuts_off_the_last_piece(w4, "(page"@, ' ');
    lemma_number_in_a_word(none, page as nat, ")"@);
    assert(none + c + ")"@ =~= c + ")"@);
    last_separator_cuts_off_the_last_piece(w5, c + ")"@, ' ');
    assert("  awaiting response "@ =~= w3 + seq![' ']);
    assert(" (page "@ =~= seq![' '] + "(page"@ + seq![' ']);
    assert(r@ =~= w6);
    assert(split(w6, ' ') =~= seq![
        ""@,
        ""@,
        "awaiting"@,
        "response"@,
        a + "/"@ + b,
        "(page"@,
        c + ")"@,
    ]);
}

/// The message on a response that failed to come: the page, its number among those that were
/// drawn, counted from one, and their count.
pub proof fn no_response_message_tells_the_page(i: usize, n: usize, page: usize, r: String)
    requires
        call_ensures(no_response_message, (i, n, page), r),
    ensures
        split(r@, ' ') == seq![
            ""@,
            ""@,
            "NO"@,
            "RESPONSE"@,
            "for"@,
            "page"@,
            decimal(page as nat),
            "("@ + decimal(i as nat + 1) + "/"@ + decimal(n as nat) + ")"@,
            "within"@,
            "timeout"@,
            "--"@,
            "continuing"@,
        ],
{
    reveal_strlit("");
    reveal_strlit("  NO RESPONSE for page ");
    reveal_strlit("NO");
    reveal_strlit("RESPONSE");
    reveal_strlit("for");
    reveal_strlit("page");
    reveal_strlit(" (");
    reveal_strlit("(");
    reveal_strlit("/");
    reveal_strlit(")");
    reveal_strlit(") within timeout -- continuing");
    reveal_strlit("within");
    reveal_strlit("timeout");
    reveal_strlit("--");
    reveal_strlit("continuing");
    let none = Seq::<char>::empty();
    let (a, b, c) = (decimal(i as nat + 1), decimal(n as nat), decimal(page as nat));
    let count = "("@ + a + "/"@ + b + ")"@;
    let w1 = none + seq![' '] + none;
    let w2 = w1 + seq![' '] + "NO"@;
    let w3 = w2 + seq![' '] + "RESPONSE"@;
    let w4 = w3 + seq![' '] + "for"@;
    let w5 = w4 + seq![' '] + "page"@;
    let w6 = w5 + seq![' '] + c;
    let w7 = w6 + seq![' '] + count;
    let w8 = w7 + seq![' '] + "within"@;
    let w9 = w8 + seq![' '] + "timeout"@;
    let w10 = w9 + seq![' '] + "--"@;
    let w11 = w10 + seq![' '] + "continuing"@;
    assert(""@ =~= none);
    text_without_separator_is_one_piece(none, ' ');
    last_separator_cuts_off_the_last_piece(none, none, ' ');
    last_separator_cuts_off_the_last_piece(w1, "NO"@, ' ');
    last_separator_cuts_off_the_last_piece(w2, "RESPONSE"@, ' ');
    last_separator_cuts_off_the_last_piece(w3, "for"@, ' ');
    last_separator_cuts_off_the_last_piece(w4, "page"@, ' ');
    lemma_number_in_a_word(none, page as nat, none);
    assert(none + c + none =~= c);
    last_separator_cuts_off_the_last_piece(w5, c, ' ');
    lemma_number_in_a_word("("@, i as nat + 1, "/"@);
    lemma_number_in_a_word("("@ + a + "/"@, n as nat, ")"@);
    last_separator_cuts_off_the_last_piece(w6, count, ' ');
    last_separator_cuts_off_the_last_piece(w7, "within"@, ' ');
    last_separator_cuts_off_the_last_piece(w8, "timeout"@, ' ');
    last_separator_cuts_off_the_last_piece(w9, "--"@, ' ');
    last_separator_cuts_off_the_last_piece(w10, "continuing"@, ' ');
    assert("  NO RESPONSE for page "@ =~= w5 + seq![' ']);
    assert(" ("@ =~= seq![' '] + "("@);
    let end = seq![' '] + "within"@ + seq![' '] + "timeout"@ + seq![' '] + "--"@ + seq![' ']
        + "continuing"@;
    assert(") within timeout -- continuing"@ =~= ")"@ + end);
    assert(r@ =~= w7 + end);
    assert(w7 + end =~= w11);
    assert(split(w11, ' ') =~= seq![
        ""@,
        ""@,
        "NO"@,
        "RESPONSE"@,
        "for"@,
        "page"@,
        c,
        count,
        "within"@,
        "timeout"@,
        "--"@,
        "continuing"@,
    ]);
}

/// The message on a response ends in the payload as it was quoted, behind the page.
pub proof fn response_message_tells_page_and_payload(
    page: usize,
    quoted: &str,
    other_page: usize,
    other: &str,
    r: String,
    s: String,
)
    requires
        call_ensures(response_message, (page, quoted), r),
        call_ensures(response_message, (other_page, other), s),
    ensures
        r@.take(20) == "  got response (page"@,
        r@.skip(r@.len() - quoted@.len()) == quoted@,
        r@ == s@ && quoted@ == other@ ==> page == other_page,
        r@ == s@ && page == other_page ==> quoted@ == other@,
{
    reveal_strlit("  got response (page ");
    reveal_strlit("  got response (page");
    reveal_strlit("): ");
    assert(r@.take(20) =~= "  got response (page"@);
    assert(r@.skip(r@.len() - quoted@.len()) =~= quoted@);
    let head = "  got response (page "@;
    let (a, b) = (decimal(page as nat), decimal(other_page as nat));
    if r@ == s@ && quoted@ == other@ {
        let tail = "): "@ + quoted@;
        assert(r@ =~= head + a + tail);
        assert(s@ =~= head + b + tail);
        crate::text::same_middle(head, a, b, tail);
        crate::text::numerals_differ(page as nat, other_page as nat, 10);
    }
    if r@ == s@ && page == other_page {
        let start = head + a + "): "@;
        assert(r@.skip(start.len() as int) =~= quoted@);
        assert(s@.skip(start.len() as int) =~= other@);
    }
}

} // verus!
