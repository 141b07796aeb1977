use gifdec::byte_source::VecByteSource;
use gifdec::gif_decoder::GifDecoder;
use gifdec::gif_error::Error;
use gifdec::renderer::{RecordedCall, RecordingRenderer};

fn decoder_for(bytes: Vec<u8>) -> GifDecoder<VecByteSource, RecordingRenderer> {
    GifDecoder::new(VecByteSource::new(bytes), RecordingRenderer::new())
}

/// Minimal 1x1 GIF: white global palette of two entries, one pixel of
/// index 0, initial LZW size 2.
fn minimal_1x1() -> Vec<u8> {
    let mut b: Vec<u8> = Vec::new();
    b.extend_from_slice(b"GIF89a");
    // logical screen descriptor: 1x1, global color table of 2 entries
    b.extend_from_slice(&[0x01, 0x00, 0x01, 0x00, 0x80, 0x00, 0x00]);
    // global color table: white, black
    b.extend_from_slice(&[0xFF, 0xFF, 0xFF, 0x00, 0x00, 0x00]);
    // image descriptor at (0,0), 1x1, no local table
    b.extend_from_slice(&[0x2C, 0x00, 0x00, 0x00, 0x00, 0x01, 0x00, 0x01, 0x00, 0x00]);
    // image data: initial LZW size 2; codes [clear=4, 0, stop=5] at 3 bits
    b.extend_from_slice(&[0x02, 0x02, 0x44, 0x01, 0x00]);
    // trailer
    b.push(0x3B);
    b
}

/// 2x2 GIF with a four-color palette and pixel indices [0,1,2,3].
fn four_pixel_2x2() -> Vec<u8> {
    let mut b: Vec<u8> = Vec::new();
    b.extend_from_slice(b"GIF89a");
    // logical screen descriptor: 2x2, global color table of 4 entries
    b.extend_from_slice(&[0x02, 0x00, 0x02, 0x00, 0x81, 0x00, 0x00]);
    // palette: black, red, green, blue
    b.extend_from_slice(&[0, 0, 0, 255, 0, 0, 0, 255, 0, 0, 0, 255]);
    // image descriptor at (0,0), 2x2
    b.extend_from_slice(&[0x2C, 0x00, 0x00, 0x00, 0x00, 0x02, 0x00, 0x02, 0x00, 0x00]);
    // codes [4, 0, 1, 2] at 3 bits, then [3, 5] at 4 bits after the bump
    b.extend_from_slice(&[0x02, 0x03, 0x44, 0x34, 0x05, 0x00]);
    b.push(0x3B);
    b
}

#[test]
fn wrong_filetype_is_refused() {
    let mut d = decoder_for(b"GIF87a\x01\x00\x01\x00\x00\x00\x00".to_vec());
    assert_eq!(d.parse_gif_metadata(), Err(Error::WrongFiletype));
}

#[test]
fn minimal_gif_decodes_to_one_white_pixel() {
    let mut d = decoder_for(minimal_1x1());
    assert_eq!(d.parse_gif_metadata(), Ok(()));
    {
        let m = d.get_gif_metadata().unwrap();
        assert_eq!(m.width, 1);
        assert_eq!(m.height, 1);
        assert!(m.has_global_color_table);
        assert_eq!(m.global_color_table_size, 2);
    }
    assert_eq!(d.global_color_table[0], 0xFFFF);
    assert_eq!(d.global_color_table[1], 0x0000);

    assert_eq!(d.parse_frame_metadata(), Ok(()));
    assert_eq!(d.decode_frame_image(), Ok(()));

    let calls = &d.renderer.calls;
    assert_eq!(calls.len(), 2);
    match &calls[0] {
        RecordedCall::Write(w) => {
            assert_eq!((w.xpos, w.ypos, w.width, w.height), (0, 0, 1, 1));
            assert_eq!(w.pixels, vec![0u8]);
            assert_eq!(w.colors[0], 0xFFFF, "the write carries the color table");
        }
        RecordedCall::Flush => panic!("first renderer call must be a write"),
    }
    assert!(matches!(calls[1], RecordedCall::Flush));

    // the trailer follows: no frame is left
    assert_eq!(d.parse_frame_metadata(), Err(Error::GifEnded));
}

#[test]
fn two_by_two_gif_decodes_row_major() {
    let mut d = decoder_for(four_pixel_2x2());
    assert_eq!(d.parse_gif_metadata(), Ok(()));
    assert_eq!(d.global_color_table[0], 0x0000);
    assert_eq!(d.global_color_table[1], 0xF800);
    assert_eq!(d.global_color_table[2], 0x07E0);
    assert_eq!(d.global_color_table[3], 0x001F);

    assert_eq!(d.parse_frame_metadata(), Ok(()));
    assert_eq!(d.decode_frame_image(), Ok(()));

    let calls = &d.renderer.calls;
    let mut pixels: Vec<u8> = Vec::new();
    let mut height_sum: u16 = 0;
    let mut flushes = 0;
    for c in calls.iter() {
        match c {
            RecordedCall::Write(w) => {
                assert_eq!(flushes, 0, "no write after the flush");
                assert_eq!(w.width, 2);
                assert_eq!(w.ypos, height_sum, "writes are contiguous");
                height_sum += w.height;
                pixels.extend_from_slice(&w.pixels);
            }
            RecordedCall::Flush => flushes += 1,
        }
    }
    assert_eq!(height_sum, 2);
    assert_eq!(flushes, 1);
    assert_eq!(pixels, vec![0, 1, 2, 3]);
}

#[test]
fn interlaced_image_is_refused_before_any_rendering() {
    let mut b: Vec<u8> = Vec::new();
    b.extend_from_slice(b"GIF89a");
    b.extend_from_slice(&[0x02, 0x00, 0x02, 0x00, 0x00, 0x00, 0x00]);
    // image descriptor with the interlace bit set
    b.extend_from_slice(&[0x2C, 0x00, 0x00, 0x00, 0x00, 0x02, 0x00, 0x02, 0x00, 0x40]);
    let mut d = decoder_for(b);
    assert_eq!(d.parse_gif_metadata(), Ok(()));
    assert_eq!(d.parse_frame_metadata(), Err(Error::InterlacingNotSupported));
    assert_eq!(d.renderer.calls.len(), 0);
}

#[test]
fn truncated_sub_block_is_file_ended() {
    let mut b: Vec<u8> = Vec::new();
    b.extend_from_slice(b"GIF89a");
    b.extend_from_slice(&[0x02, 0x00, 0x02, 0x00, 0x00, 0x00, 0x00]);
    b.extend_from_slice(&[0x2C, 0x00, 0x00, 0x00, 0x00, 0x02, 0x00, 0x02, 0x00, 0x00]);
    // initial code size, then a sub-block claiming 10 bytes with only 5 present
    b.extend_from_slice(&[0x02, 0x0A, 0x44, 0x34, 0x05, 0x00, 0x01]);
    let mut d = decoder_for(b);
    assert_eq!(d.parse_gif_metadata(), Ok(()));
    assert_eq!(d.parse_frame_metadata(), Ok(()));
    assert_eq!(d.decode_frame_image(), Err(Error::FileEnded));
}

#[test]
fn oversized_screen_is_refused() {
    let mut b: Vec<u8> = Vec::new();
    b.extend_from_slice(b"GIF89a");
    // width 400 > MAX_SIZE
    b.extend_from_slice(&[0x90, 0x01, 0x01, 0x00, 0x00, 0x00, 0x00]);
    let mut d = decoder_for(b);
    assert_eq!(d.parse_gif_metadata(), Err(Error::ImageTooBig));
}

#[test]
fn unknown_block_introducer_is_refused() {
    let mut b: Vec<u8> = Vec::new();
    b.extend_from_slice(b"GIF89a");
    b.extend_from_slice(&[0x01, 0x00, 0x01, 0x00, 0x00, 0x00, 0x00]);
    b.push(0x99);
    let mut d = decoder_for(b);
    assert_eq!(d.parse_gif_metadata(), Ok(()));
    assert_eq!(d.parse_frame_metadata(), Err(Error::InvalidBlockintroducer));
}

#[test]
fn graphics_control_extension_needs_terminator() {
    let mut b: Vec<u8> = Vec::new();
    b.extend_from_slice(b"GIF89a");
    b.extend_from_slice(&[0x01, 0x00, 0x01, 0x00, 0x00, 0x00, 0x00]);
    // extension introducer, graphics-control label, size, packed, delay,
    // transparency index, then a wrong terminator
    b.extend_from_slice(&[0x21, 0xF9, 0x04, 0x01, 0x0A, 0x00, 0x07, 0xFF]);
    let mut d = decoder_for(b);
    assert_eq!(d.parse_gif_metadata(), Ok(()));
    assert_eq!(d.parse_frame_metadata(), Err(Error::MissingBlockterminator));
}

#[test]
fn graphics_control_extension_reaches_frame_metadata() {
    let mut b: Vec<u8> = Vec::new();
    b.extend_from_slice(b"GIF89a");
    b.extend_from_slice(&[0x01, 0x00, 0x01, 0x00, 0x00, 0x00, 0x00]);
    // graphics control: transparency on, delay 10 hundredths, index 7
    b.extend_from_slice(&[0x21, 0xF9, 0x04, 0x01, 0x0A, 0x00, 0x07, 0x00]);
    // an unknown extension, skipped over its sub-blocks
    b.extend_from_slice(&[0x21, 0xFE, 0x03, b'h', b'e', b'y', 0x00]);
    b.extend_from_slice(&[0x2C, 0x00, 0x00, 0x00, 0x00, 0x01, 0x00, 0x01, 0x00, 0x00]);
    let mut d = decoder_for(b);
    assert_eq!(d.parse_gif_metadata(), Ok(()));
    assert_eq!(d.parse_frame_metadata(), Ok(()));
    let m = d.current_frame_metadata.as_ref().unwrap();
    let e = m.extension.as_ref().unwrap();
    assert!(e.has_transparency);
    assert_eq!(e.millis_delay, 100);
    assert_eq!(e.transparency_index, 7);
}

#[test]
fn transparency_index_reaches_the_renderer() {
    let mut b: Vec<u8> = Vec::new();
    b.extend_from_slice(b"GIF89a");
    b.extend_from_slice(&[0x01, 0x00, 0x01, 0x00, 0x80, 0x00, 0x00]);
    b.extend_from_slice(&[0xFF, 0xFF, 0xFF, 0x00, 0x00, 0x00]);
    // graphics control: transparency on, index 1
    b.extend_from_slice(&[0x21, 0xF9, 0x04, 0x01, 0x00, 0x00, 0x01, 0x00]);
    b.extend_from_slice(&[0x2C, 0x00, 0x00, 0x00, 0x00, 0x01, 0x00, 0x01, 0x00, 0x00]);
    b.extend_from_slice(&[0x02, 0x02, 0x44, 0x01, 0x00]);
    b.push(0x3B);
    let mut d = decoder_for(b);
    assert_eq!(d.parse_gif_metadata(), Ok(()));
    assert_eq!(d.parse_frame_metadata(), Ok(()));
    assert_eq!(d.decode_frame_image(), Ok(()));
    match &d.renderer.calls[0] {
        RecordedCall::Write(w) => assert_eq!(w.transparency_index, Some(1)),
        RecordedCall::Flush => panic!("first renderer call must be a write"),
    }
}

#[test]
fn rewind_restarts_the_stream() {
    let mut d = decoder_for(minimal_1x1());
    assert_eq!(d.parse_gif_metadata(), Ok(()));
    assert_eq!(d.parse_frame_metadata(), Ok(()));
    assert_eq!(d.decode_frame_image(), Ok(()));
    assert_eq!(d.rewind(), Ok(()));
    // the whole file can be decoded again
    assert_eq!(d.parse_gif_metadata(), Ok(()));
    assert_eq!(d.parse_frame_metadata(), Ok(()));
    assert_eq!(d.decode_frame_image(), Ok(()));
    assert_eq!(d.renderer.calls.len(), 4);
}

#[test]
fn local_color_table_overrides_global() {
    let mut b: Vec<u8> = Vec::new();
    b.extend_from_slice(b"GIF89a");
    b.extend_from_slice(&[0x01, 0x00, 0x01, 0x00, 0x80, 0x00, 0x00]);
    b.extend_from_slice(&[0x00, 0x00, 0x00, 0x00, 0x00, 0x00]);
    // image descriptor with a local color table of 2 entries
    b.extend_from_slice(&[0x2C, 0x00, 0x00, 0x00, 0x00, 0x01, 0x00, 0x01, 0x00, 0x80]);
    b.extend_from_slice(&[0xFF, 0x00, 0x00, 0x00, 0xFF, 0x00]);
    b.extend_from_slice(&[0x02, 0x02, 0x44, 0x01, 0x00]);
    b.push(0x3B);
    let mut d = decoder_for(b);
    assert_eq!(d.parse_gif_metadata(), Ok(()));
    assert_eq!(d.parse_frame_metadata(), Ok(()));
    let m = d.current_frame_metadata.as_ref().unwrap();
    assert!(m.has_local_color_table);
    assert_eq!(m.local_color_table_size, 2);
    assert_eq!(d.current_local_color_table[0], 0xF800);
    assert_eq!(d.current_local_color_table[1], 0x07E0);
    assert_eq!(d.decode_frame_image(), Ok(()));
}

#[test]
fn two_frames_decode_in_sequence() {
    let mut b: Vec<u8> = Vec::new();
    b.extend_from_slice(b"GIF89a");
    b.extend_from_slice(&[0x01, 0x00, 0x01, 0x00, 0x80, 0x00, 0x00]);
    b.extend_from_slice(&[0xFF, 0xFF, 0xFF, 0x00, 0x00, 0x00]);
    // first frame, preceded by a graphics-control extension
    b.extend_from_slice(&[0x21, 0xF9, 0x04, 0x00, 0x05, 0x00, 0x00, 0x00]);
    b.extend_from_slice(&[0x2C, 0x00, 0x00, 0x00, 0x00, 0x01, 0x00, 0x01, 0x00, 0x00]);
    b.extend_from_slice(&[0x02, 0x02, 0x44, 0x01, 0x00]);
    // second frame, bare
    b.extend_from_slice(&[0x2C, 0x00, 0x00, 0x00, 0x00, 0x01, 0x00, 0x01, 0x00, 0x00]);
    b.extend_from_slice(&[0x02, 0x02, 0x4C, 0x01, 0x00]);
    b.push(0x3B);

    let mut d = decoder_for(b);
    assert_eq!(d.parse_gif_metadata(), Ok(()));

    assert_eq!(d.parse_frame_metadata(), Ok(()));
    assert_eq!(
        d.current_frame_metadata.as_ref().unwrap().extension.as_ref().unwrap().millis_delay,
        50
    );
    assert_eq!(d.decode_frame_image(), Ok(()));

    assert_eq!(d.parse_frame_metadata(), Ok(()));
    assert!(d.current_frame_metadata.as_ref().unwrap().extension.is_none());
    assert_eq!(d.decode_frame_image(), Ok(()));

    assert_eq!(d.parse_frame_metadata(), Err(Error::GifEnded));

    // each frame: one write, then its flush
    assert_eq!(d.renderer.calls.len(), 4);
    match (&d.renderer.calls[0], &d.renderer.calls[2]) {
        (RecordedCall::Write(w1), RecordedCall::Write(w2)) => {
            assert_eq!(w1.pixels, vec![0u8]);
            assert_eq!(w2.pixels, vec![1u8]);
        }
        _ => panic!("each frame starts with a write"),
    }
    assert!(matches!(d.renderer.calls[1], RecordedCall::Flush));
    assert!(matches!(d.renderer.calls[3], RecordedCall::Flush));
}

#[test]
fn code_size_outside_range_is_refused() {
    let mut b: Vec<u8> = Vec::new();
    b.extend_from_slice(b"GIF89a");
    b.extend_from_slice(&[0x01, 0x00, 0x01, 0x00, 0x00, 0x00, 0x00]);
    b.extend_from_slice(&[0x2C, 0x00, 0x00, 0x00, 0x00, 0x01, 0x00, 0x01, 0x00, 0x00]);
    // an initial LZW code size of 15 is outside the wire format's 2..=8
    b.extend_from_slice(&[0x0F, 0x00]);
    let mut d = decoder_for(b);
    assert_eq!(d.parse_gif_metadata(), Ok(()));
    assert_eq!(d.parse_frame_metadata(), Ok(()));
    assert_eq!(d.decode_frame_image(), Err(Error::InvalidSymbol));
}

#[test]
fn zero_width_frame_is_refused() {
    let mut b: Vec<u8> = Vec::new();
    b.extend_from_slice(b"GIF89a");
    b.extend_from_slice(&[0x02, 0x00, 0x02, 0x00, 0x00, 0x00, 0x00]);
    // image descriptor declaring a width of zero
    b.extend_from_slice(&[0x2C, 0x00, 0x00, 0x00, 0x00, 0x00, 0x00, 0x02, 0x00, 0x00]);
    let mut d = decoder_for(b);
    assert_eq!(d.parse_gif_metadata(), Ok(()));
    assert_eq!(d.parse_frame_metadata(), Err(Error::ImageTooBig));
}

#[test]
fn color565_packs_channel_high_bits() {
    assert_eq!(gifdec::util::color565_from_rgb(255, 255, 255), 0xFFFF);
    assert_eq!(gifdec::util::color565_from_rgb(0, 0, 0), 0x0000);
    assert_eq!(gifdec::util::color565_from_rgb(255, 0, 0), 0xF800);
    assert_eq!(gifdec::util::color565_from_rgb(0, 255, 0), 0x07E0);
    assert_eq!(gifdec::util::color565_from_rgb(0, 0, 255), 0x001F);
    assert_eq!(gifdec::util::color565_from_rgb(0x12, 0x34, 0x56), 0x11AA);
}
