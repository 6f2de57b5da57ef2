use meowpdf::drivers::graphics::{
    bitmap_is_in_range, display_outcome, is_accepted, terminal_graphics_deallocate_id,
    terminal_graphics_display_image, terminal_graphics_test_support,
    terminal_graphics_transfer_bitmap, transfer_is_deferred, transfer_png, Transfer,
    TransferError, CHUNK_LEN, SUPPORT_QUERY,
};
use meowpdf::drivers::response::GraphicsResponse;

use base64::Engine;

/// The control keys and the payload of each command in a stream.
fn commands(stream: &str) -> Vec<(String, String)> {
    let mut found = Vec::new();
    let mut rest = stream;
    while !rest.is_empty() {
        let body = rest.strip_prefix("\x1B_G").unwrap();
        let end = body.find('\x1B').unwrap();
        let (control, payload) = body[..end].split_once(';').unwrap();
        found.push((control.to_string(), payload.to_string()));
        rest = body[end..].strip_prefix("\x1B\\").unwrap();
    }
    found
}

fn file_of(transfer: &Transfer) -> Vec<u8> {
    let text: String = commands(&transfer.stream).into_iter().map(|c| c.1).collect();
    assert_eq!(text.len(), transfer.encoded_len);
    let file = base64::engine::general_purpose::STANDARD.decode(text).unwrap();
    assert_eq!(file.len(), transfer.png_len);
    file
}

/// Octets that do not compress well.
fn noise(len: usize) -> Vec<u8> {
    let mut x: u32 = 0x2545_F491;
    let mut data = Vec::new();
    for _ in 0..len {
        x ^= x << 13;
        x ^= x >> 17;
        x ^= x << 5;
        data.push(x as u8);
    }
    data
}

#[test]
fn deallocation_names_the_image() {
    assert_eq!(terminal_graphics_deallocate_id(42), "\x1B_Ga=d,d=I,i=42;\x1B\\");
    assert_eq!(terminal_graphics_deallocate_id(0), "\x1B_Ga=d,d=I,i=0;\x1B\\");
    assert_eq!(
        terminal_graphics_deallocate_id(usize::MAX),
        format!("\x1B_Ga=d,d=I,i={};\x1B\\", usize::MAX)
    );
}

#[test]
fn deallocations_of_different_images_differ() {
    assert_ne!(terminal_graphics_deallocate_id(1), terminal_graphics_deallocate_id(11));
}

#[test]
fn display_places_a_part_behind_the_text() {
    let command = terminal_graphics_display_image(7, 3, 12, (10, 20, 300, 400), 30, 25);
    assert_eq!(
        command,
        "\x1B[s\x1B[12;3H\x1B_Gz=-1073741825,a=p,C=1,i=7,x=10,y=20,w=300,h=400,c=30,r=25;\x1B\\\x1B[u"
    );
}

#[test]
fn display_reports_a_failed_flush() {
    assert_eq!(display_outcome(Ok(())), Ok(()));
    assert_eq!(
        display_outcome(Err("broken pipe".to_string())),
        Err("Could not flush stdout: broken pipe".to_string())
    );
}

#[test]
fn support_is_recognised_by_ok() {
    assert_eq!(SUPPORT_QUERY, "\x1B_Gi=31,s=1,v=1,a=q,t=d,f=24;AAAA\x1B\\");
    let answer = GraphicsResponse::new(b"Gi=31;OK");
    assert_eq!(terminal_graphics_test_support(Ok(answer)), Ok(()));
}

#[test]
fn failed_response_is_reported() {
    let answer = GraphicsResponse::new(b"Gi=31;EINVAL:no such thing");
    assert_eq!(
        terminal_graphics_test_support(Ok(answer)),
        Err("Terminal responded with failed graphics response: EINVAL:no such thing".to_string())
    );
}

#[test]
fn missing_response_is_reported() {
    assert_eq!(
        terminal_graphics_test_support(Err("timed out waiting on channel".to_string())),
        Err(
            "Could not receive from Graphics Response channel: timed out waiting on channel"
                .to_string()
        )
    );
}

#[test]
fn acceptance_looks_for_ok_anywhere() {
    assert!(is_accepted("OK"));
    assert!(is_accepted("NOT OK"));
    assert!(!is_accepted("ok"));
    assert!(!is_accepted("O K"));
    assert!(!is_accepted(""));
    assert!(!is_accepted("O"));
}

#[test]
fn short_file_takes_one_command_without_more_key() {
    let transfer = transfer_png(5, b"Man");
    assert_eq!(transfer.stream, "\x1B_Gq=2,f=100,i=5,t=d;TWFu\x1B\\");
    assert_eq!(transfer.png_len, 3);
    assert_eq!(transfer.encoded_len, 4);
}

#[test]
fn encoding_is_padded_and_uses_the_standard_alphabet() {
    assert_eq!(transfer_png(1, b"M").stream, "\x1B_Gq=2,f=100,i=1,t=d;TQ==\x1B\\");
    assert_eq!(transfer_png(1, b"Ma").stream, "\x1B_Gq=2,f=100,i=1,t=d;TWE=\x1B\\");
    assert_eq!(
        transfer_png(1, &[0xFB, 0xFF, 0xBF]).stream,
        "\x1B_Gq=2,f=100,i=1,t=d;+/+/\x1B\\"
    );
}

#[test]
fn empty_file_takes_no_command() {
    let transfer = transfer_png(5, b"");
    assert_eq!(transfer.stream, "");
    assert_eq!(transfer.encoded_len, 0);
}

#[test]
fn full_chunk_is_not_split() {
    // 3072 octets make exactly one chunk.
    let commands = commands(&transfer_png(9, &noise(3072)).stream);
    assert_eq!(commands.len(), 1);
    assert_eq!(commands[0].0, "q=2,f=100,i=9,t=d");
    assert_eq!(commands[0].1.len(), CHUNK_LEN);
}

#[test]
fn long_file_is_cut_into_chunks() {
    let data = noise(3072 * 2 + 1);
    let transfer = transfer_png(9, &data);
    let commands = commands(&transfer.stream);
    let controls: Vec<&str> = commands.iter().map(|c| c.0.as_str()).collect();
    assert_eq!(controls, vec!["q=2,f=100,i=9,t=d,m=1", "m=1", "m=0"]);
    let lengths: Vec<usize> = commands.iter().map(|c| c.1.len()).collect();
    assert_eq!(lengths, vec![4096, 4096, 4]);
    assert_eq!(file_of(&transfer), data);
}

#[test]
fn transfers_of_different_files_differ() {
    assert_ne!(transfer_png(1, b"abc").stream, transfer_png(1, b"abd").stream);
    assert_ne!(transfer_png(1, b"abc").stream, transfer_png(2, b"abc").stream);
}

#[test]
fn bitmap_comes_through_with_its_dimensions() {
    for alpha in [false, true] {
        let (width, height) = (40, 30);
        let channels = if alpha { 4 } else { 3 };
        let data = noise(width * height * channels);
        let transfer =
            terminal_graphics_transfer_bitmap(3, width, height, &data, alpha).unwrap();
        assert!(transfer.stream.starts_with("\x1B_Gq=2,f=100,i=3,t=d"));
        let file = file_of(&transfer);
        assert_eq!(&file[..16], b"\x89PNG\r\n\x1A\n\0\0\0\x0DIHDR");
        assert_eq!(&file[16..29], &[0, 0, 0, 40, 0, 0, 0, 30, 8, if alpha { 6 } else { 2 }, 0, 0, 0]);
        let mut reader = png::Decoder::new(std::io::Cursor::new(file)).read_info().unwrap();
        let mut pixels = vec![0; reader.output_buffer_size().unwrap()];
        let info = reader.next_frame(&mut pixels).unwrap();
        assert_eq!((info.width, info.height), (40, 30));
        assert_eq!(pixels, data);
    }
}

#[test]
fn large_bitmap_takes_several_commands() {
    let data = noise(100 * 100 * 4);
    let transfer = terminal_graphics_transfer_bitmap(77, 100, 100, &data, true).unwrap();
    let commands = commands(&transfer.stream);
    assert!(commands.len() > 2);
    assert_eq!(commands[0].0, "q=2,f=100,i=77,t=d,m=1");
    assert_eq!(commands[commands.len() - 1].0, "m=0");
    assert!(commands[..commands.len() - 1].iter().all(|c| c.1.len() == CHUNK_LEN));
}

#[test]
fn transfers_of_one_bitmap_differ_in_the_id_alone() {
    for side in [2, 100] {
        let data = noise(side * side * 3);
        let one = terminal_graphics_transfer_bitmap(7, side, side, &data, false).unwrap();
        let other = terminal_graphics_transfer_bitmap(1234, side, side, &data, false).unwrap();
        assert_eq!(one.stream.replacen("i=7,", "i=1234,", 1), other.stream);
        assert_ne!(one.stream, other.stream);
    }
}

#[test]
fn samples_survive_runs_and_gradients() {
    let side = 70;
    let bitmaps: Vec<Vec<u8>> = vec![
        vec![0; side * side * 4],
        vec![255; side * side * 4],
        (0..side * side * 4).map(|i| (i / 4 % 256) as u8).collect(),
        (0..side * side * 4).map(|i| if i % 97 == 0 { 200 } else { 0 }).collect(),
    ];
    for data in bitmaps {
        let transfer = terminal_graphics_transfer_bitmap(1, side, side, &data, true).unwrap();
        let file = std::io::Cursor::new(file_of(&transfer));
        let mut reader = png::Decoder::new(file).read_info().unwrap();
        let mut pixels = vec![0; reader.output_buffer_size().unwrap()];
        reader.next_frame(&mut pixels).unwrap();
        assert_eq!(pixels, data);
    }
}

fn message(r: Result<Transfer, TransferError>) -> String {
    match r {
        Err(TransferError::Png(message)) => message,
        other => panic!("unexpected: {:?}", other),
    }
}

#[test]
fn zero_dimensions_are_refused() {
    assert_eq!(
        message(terminal_graphics_transfer_bitmap(1, 0, 5, &[], true)),
        "PNG header error: Zero width not allowed"
    );
    assert_eq!(
        message(terminal_graphics_transfer_bitmap(1, 5, 0, &[], true)),
        "PNG header error: Zero height not allowed"
    );
    assert_eq!(
        message(terminal_graphics_transfer_bitmap(1, 0, 0, &[1, 2, 3], false)),
        "PNG header error: Zero width not allowed"
    );
}

#[test]
fn wrong_data_length_is_refused() {
    assert_eq!(
        message(terminal_graphics_transfer_bitmap(1, 2, 2, &[0; 12], true)),
        "PNG encode error: wrong data size, expected 16 got 12"
    );
    assert_eq!(
        message(terminal_graphics_transfer_bitmap(1, 2, 2, &[], false)),
        "PNG encode error: wrong data size, expected 12 got 0"
    );
}

#[test]
fn dimensions_are_taken_modulo_two_to_the_thirty_two() {
    if usize::BITS == 64 {
        let wide = 1usize.wrapping_shl(32);
        assert_eq!(
            message(terminal_graphics_transfer_bitmap(1, wide, 1, &[0; 3], false)),
            "PNG header error: Zero width not allowed"
        );
        assert!(terminal_graphics_transfer_bitmap(1, wide + 1, 1, &[0; 3], false).is_ok());
    }
}

#[test]
fn range_of_bitmaps() {
    assert!(bitmap_is_in_range(1000, 1000, 4_000_000, true));
    assert!(bitmap_is_in_range(0, 0, 0, true));
    let most = u32::MAX as usize;
    assert!(!bitmap_is_in_range(most, most, 0, true));
    if usize::BITS == 64 {
        assert!(bitmap_is_in_range(most, 1, 0, true));
        assert!(!bitmap_is_in_range(most, 1, most * 4, true));
    }
}

#[test]
fn transfer_waits_for_an_idle_user() {
    assert!(transfer_is_deferred(0, true));
    assert!(transfer_is_deferred(99, true));
    assert!(!transfer_is_deferred(100, true));
    assert!(!transfer_is_deferred(0, false));
    assert!(!transfer_is_deferred(u64::MAX, true));
}
