use gifdec::frame_decoder::{FrameDecoder, GifFrameMetadata, ImageArea, LzwEntry};
use gifdec::gif_error::Error;
use gifdec::renderer::{RecordedCall, RecordingRenderer};

fn frame(width: u16, height: u16) -> GifFrameMetadata {
    GifFrameMetadata {
        frame_area: ImageArea { xpos: 0, ypos: 0, width, height },
        local_color_table_size: 4,
        has_local_color_table: false,
        extension: None,
    }
}

fn fresh(width: u16, height: u16, initial_lzw_size: u8) -> FrameDecoder {
    FrameDecoder::new(&frame(width, height), vec![0u16; 256], initial_lzw_size)
}

#[test]
fn kwkwk_sequence_decodes_to_three_pixels() {
    // initial LZW size 2: clear = 4, stop = 5; the code 6 names the slot
    // that is only being written by the code itself
    let mut d = fresh(3, 1, 2);
    let mut r = RecordingRenderer::new();
    assert_eq!(d.process_symbol(4, &mut r), Ok(()));
    assert_eq!(d.process_symbol(1, &mut r), Ok(()));
    assert_eq!(d.process_symbol(6, &mut r), Ok(()));

    let e: LzwEntry = d.lzw_table[6];
    assert_eq!(e.first, 1);
    assert_eq!(e.last, 1);

    assert_eq!(d.process_symbol(5, &mut r), Ok(()));
    assert_eq!(r.calls.len(), 2);
    match &r.calls[0] {
        RecordedCall::Write(w) => {
            assert_eq!((w.xpos, w.ypos, w.width, w.height), (0, 0, 3, 1));
            assert_eq!(w.pixels, vec![1, 1, 1]);
        }
        RecordedCall::Flush => panic!("first renderer call must be a write"),
    }
    assert!(matches!(r.calls[1], RecordedCall::Flush));
}

#[test]
fn clear_twice_equals_clear_once() {
    let mut a = fresh(4, 4, 2);
    let mut b = fresh(4, 4, 2);
    let mut ra = RecordingRenderer::new();
    let mut rb = RecordingRenderer::new();
    for &code in &[4u16, 0, 1, 2] {
        assert_eq!(a.process_symbol(code, &mut ra), Ok(()));
        assert_eq!(b.process_symbol(code, &mut rb), Ok(()));
    }
    assert_eq!(a.process_symbol(4, &mut ra), Ok(()));
    assert_eq!(b.process_symbol(4, &mut rb), Ok(()));
    // one more clear on a only
    assert_eq!(a.process_symbol(4, &mut ra), Ok(()));

    assert_eq!(a.current_symbol_size, b.current_symbol_size);
    assert_eq!(a.table_index, b.table_index);
    assert_eq!(a.last_symbol, b.last_symbol);
    assert_eq!(a.output_index, b.output_index);
    assert_eq!(a.output_line, b.output_line);
    assert_eq!(a.finished, b.finished);
    // the frozen entries written before the clears are untouched
    assert_eq!(a.lzw_table[6], b.lzw_table[6]);
    assert_eq!(a.lzw_table[7], b.lzw_table[7]);
}

#[test]
fn width_bumps_exactly_when_insertions_fill_it() {
    // initial LZW size 2: width starts at 3 bits; the slot after the next
    // one no longer fits once (1 << 3) - stop_code - 1 = 2 insertions
    // have happened since the clear
    let mut d = fresh(8, 8, 2);
    let mut r = RecordingRenderer::new();
    assert_eq!(d.process_symbol(4, &mut r), Ok(()));
    assert_eq!(d.current_symbol_size, 3);
    assert_eq!(d.process_symbol(0, &mut r), Ok(()));
    assert_eq!(d.current_symbol_size, 3);
    // first insertion: slot 6
    assert_eq!(d.process_symbol(1, &mut r), Ok(()));
    assert_eq!(d.current_symbol_size, 3);
    // second insertion fills the width: slot 7, and 8 == 1 << 3
    assert_eq!(d.process_symbol(2, &mut r), Ok(()));
    assert_eq!(d.current_symbol_size, 4);
    // a clear restores the width
    assert_eq!(d.process_symbol(4, &mut r), Ok(()));
    assert_eq!(d.current_symbol_size, 3);
}

#[test]
fn code_after_stop_is_refused() {
    let mut d = fresh(2, 1, 2);
    let mut r = RecordingRenderer::new();
    assert_eq!(d.process_symbol(4, &mut r), Ok(()));
    assert_eq!(d.process_symbol(0, &mut r), Ok(()));
    assert_eq!(d.process_symbol(0, &mut r), Ok(()));
    assert_eq!(d.process_symbol(5, &mut r), Ok(()));
    assert!(d.finished);
    assert_eq!(d.process_symbol(0, &mut r), Err(Error::DecoderAlreadyFinished));
    // exactly one flush, as the last call
    assert!(matches!(r.calls.last(), Some(RecordedCall::Flush)));
    let flushes = r
        .calls
        .iter()
        .filter(|c| matches!(c, RecordedCall::Flush))
        .count();
    assert_eq!(flushes, 1);
}

#[test]
fn code_beyond_next_slot_is_refused() {
    let mut d = fresh(2, 2, 2);
    let mut r = RecordingRenderer::new();
    assert_eq!(d.process_symbol(4, &mut r), Ok(()));
    assert_eq!(d.process_symbol(0, &mut r), Ok(()));
    // table_index is 5; 6 would be legal (the KwKwK slot), 7 is not
    assert_eq!(d.process_symbol(7, &mut r), Err(Error::InvalidSymbol));
}

#[test]
fn first_code_after_clear_must_be_a_literal() {
    let mut d = fresh(2, 2, 2);
    let mut r = RecordingRenderer::new();
    assert_eq!(d.process_symbol(4, &mut r), Ok(()));
    assert_eq!(d.process_symbol(6, &mut r), Err(Error::InvalidSymbol));
}

#[test]
fn more_pixels_than_the_frame_holds_are_refused() {
    // a 1x1 frame cannot take a second flushed section
    let mut d = fresh(1, 1, 2);
    let mut r = RecordingRenderer::new();
    assert_eq!(d.process_symbol(4, &mut r), Ok(()));
    let mut res = Ok(());
    // the output buffer holds 4800 pixels of this 1-wide frame; feeding
    // beyond one section must fail before anything out of bounds is drawn
    for _ in 0..6000 {
        res = d.process_symbol(0, &mut r);
        if res.is_err() {
            break;
        }
    }
    assert_eq!(res, Err(Error::InvalidSymbol));
    assert_eq!(r.calls.len(), 0);
}

#[test]
fn overlong_chain_overflows_the_reverse_buffer() {
    let mut d = fresh(360, 360, 2);
    let mut r = RecordingRenderer::new();
    assert_eq!(d.process_symbol(4, &mut r), Ok(()));
    assert_eq!(d.process_symbol(0, &mut r), Ok(()));
    // hand-build a chain of 600 linked entries, each pointing one below
    for i in 7..=600u16 {
        d.lzw_table[i as usize] = LzwEntry { first: i - 1, last: 0 };
    }
    d.lzw_table[6] = LzwEntry { first: 0, last: 0 };
    d.table_index = 600;
    d.last_symbol = Some(600);
    assert_eq!(d.process_symbol(601, &mut r), Err(Error::ReverseBufferOverflow));
}

#[test]
fn wide_frame_flushes_in_contiguous_sections() {
    // 240 wide, 40 tall: the 4800-byte buffer holds 20 lines, so the frame
    // leaves in two full sections
    let mut d = fresh(240, 40, 2);
    let mut r = RecordingRenderer::new();
    assert_eq!(d.process_symbol(4, &mut r), Ok(()));
    for _ in 0..(240 * 40) {
        assert_eq!(d.process_symbol(0, &mut r), Ok(()));
    }
    assert_eq!(d.process_symbol(5, &mut r), Ok(()));

    let mut height_sum: u16 = 0;
    let mut flushes = 0;
    for c in r.calls.iter() {
        match c {
            RecordedCall::Write(w) => {
                assert_eq!(flushes, 0, "no write after the flush");
                assert_eq!(w.width, 240);
                assert_eq!(w.ypos, height_sum, "writes are contiguous");
                assert_eq!(w.pixels.len(), 240 * w.height as usize);
                height_sum += w.height;
            }
            RecordedCall::Flush => flushes += 1,
        }
    }
    assert_eq!(height_sum, 40, "write heights sum to the frame height");
    assert_eq!(flushes, 1);
    assert_eq!(r.calls.len(), 3);
}

#[test]
fn frozen_table_keeps_decoding() {
    // fill the dictionary to its last slot, then keep sending codes: no
    // further entries are inserted but decoding continues until a clear
    let mut d = fresh(360, 360, 8);
    let mut r = RecordingRenderer::new();
    assert_eq!(d.process_symbol(256, &mut r), Ok(()));
    assert_eq!(d.process_symbol(0, &mut r), Ok(()));
    while d.table_index < 4095 {
        assert_eq!(d.process_symbol(0, &mut r), Ok(()));
    }
    assert_eq!(d.table_index, 4095);
    let width_at_full = d.current_symbol_size;
    assert_eq!(d.process_symbol(0, &mut r), Ok(()));
    assert_eq!(d.table_index, 4095, "full table is frozen");
    assert_eq!(d.current_symbol_size, width_at_full, "width never changes at 4095");
    assert_eq!(d.process_symbol(256, &mut r), Ok(()));
    assert_eq!(d.table_index, 257, "clear resets the table");
}
