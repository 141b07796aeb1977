use vstd::prelude::*;
use crate::gif_decoder::{MAX_SIZE, OUT_BUF_LEN, REVERSE_BUF_LEN, skip_subblocks};
use crate::lzw::{
    lzw_wf, valid_code, expand_code, first_literal, LzwState, clear_step, lit_step, data_step,
    emitted, lemma_expand_head, lemma_data_step_wf,
};
use crate::sink::{
    SinkState, feed_one, feed, writes_shape, frame_delta, lemma_frame_delta_refl,
    lemma_frame_delta_trans, lemma_frame_delta_one_write, lemma_feed_concat,
    lemma_feed_singleton, lemma_feed_no_flush, lemma_feed_line_monotone,
};
use crate::renderer::{ImageRenderer, RenderEvent};
use crate::byte_source::ByteSource;
use crate::gif_error::Error;

verus! {

/// A rectangle in the logical screen, in 16-bit coordinates.
#[derive(Clone, Copy, Debug, PartialEq, Eq, Structural)]
pub struct ImageArea {
    pub xpos: u16,
    pub ypos: u16,
    pub width: u16,
    pub height: u16,
}

/// The graphics-control extension of one frame.
#[derive(Clone, Copy, Debug)]
pub struct GraphicsControlExtension {
    pub millis_delay: u32,
    pub has_transparency: bool,
    pub transparency_index: u8,
}

/// The metadata of one frame, as the container reader supplies it.
#[derive(Clone, Copy, Debug)]
pub struct GifFrameMetadata {
    pub frame_area: ImageArea,
    pub local_color_table_size: usize,
    pub has_local_color_table: bool,
    pub extension: Option<GraphicsControlExtension>,
}

/// One LZW dictionary record.  `first` is the predecessor code; `last` is the
/// byte the entry appends to the predecessor's expansion.  Its value equals
/// the first literal of the code that caused the insertion.
#[derive(Clone, Copy, Debug, PartialEq, Eq, Structural)]
pub struct LzwEntry {
    pub first: u16,
    pub last: u8,
}

/// Decodes the LZW image data of a single frame.
///
/// The decoder owns its working memory — the dictionary, the chain-expansion
/// stack, the output buffer and the active color table — and is driven with
/// a byte source and a renderer.  A 2–12 bit unit read from the bit stream
/// is called a symbol; a dictionary slot holding a `(first, last)` pair is
/// called an entry.
pub struct FrameDecoder {
    // fixed for the duration of the frame
    pub frame_area: ImageArea,
    pub transparency_index: Option<u8>,
    pub color_table: Vec<u16>,
    pub initial_symbol_size: u8,
    pub clear_code: u16,
    pub stop_code: u16,
    pub output_section_height: u16,
    // working memory
    pub lzw_table: Vec<LzwEntry>,
    pub reverse_buffer: Vec<u8>,
    pub output_buffer: Vec<u8>,
    // mutable state
    pub current_symbol_size: u8,
    pub table_index: u16,
    pub bit_buffer: u32,
    pub bit_count: u8,
    pub last_symbol: Option<u16>,
    pub output_line: u16,
    pub output_index: usize,
    pub finished: bool,
}

impl FrameDecoder {
    /// Pixels of one full output section.
    pub open spec fn section_len(self) -> int {
        self.frame_area.width as int * self.output_section_height as int
    }

    /// The dictionary machine this decoder is in.
    pub open spec fn lzw_state(self) -> LzwState {
        LzwState {
            clear_code: self.clear_code as int,
            initial_symbol_size: self.initial_symbol_size as int,
            current_symbol_size: self.current_symbol_size as int,
            table_index: self.table_index as int,
            table: self.lzw_table@,
            last_symbol: self.last_symbol,
        }
    }

    /// The line batcher this decoder is in.
    pub open spec fn sink_state(self) -> SinkState {
        SinkState {
            buf: self.output_buffer@,
            index: self.output_index as int,
            line: self.output_line as int,
        }
    }

    /// The frame geometry, the buffer sizes and the derived constants: what
    /// never changes while a frame is decoded.
    pub open spec fn static_wf(self) -> bool {
        // frame geometry
        &&& 1 <= self.frame_area.width <= MAX_SIZE
        &&& self.frame_area.height <= MAX_SIZE
        &&& self.frame_area.ypos + self.frame_area.height <= 65535
        &&& self.output_section_height as int == OUT_BUF_LEN as int
            / self.frame_area.width as int
        &&& 1 <= self.output_section_height
        &&& self.section_len() <= OUT_BUF_LEN
        // working memory
        &&& self.color_table@.len() == 256
        &&& self.reverse_buffer@.len() == REVERSE_BUF_LEN
        &&& self.output_buffer@.len() == OUT_BUF_LEN
        // dictionary constants
        &&& self.stop_code == self.clear_code + 1
        &&& self.clear_code == (1u16 << ((self.initial_symbol_size - 1) as u16))
    }

    /// Well-formedness, established by `new` and preserved by every method.
    pub open spec fn wf(self) -> bool {
        &&& self.static_wf()
        &&& lzw_wf(self.lzw_state())
        // bit reader
        &&& self.bit_count <= 32
        // line batcher
        &&& self.output_index < self.section_len()
        &&& self.output_line <= self.frame_area.height
    }

    /// The fields that never change while a frame is decoded.
    pub open spec fn same_static(a: Self, b: Self) -> bool {
        &&& b.frame_area == a.frame_area
        &&& b.transparency_index == a.transparency_index
        &&& b.color_table@ == a.color_table@
        &&& b.initial_symbol_size == a.initial_symbol_size
        &&& b.clear_code == a.clear_code
        &&& b.stop_code == a.stop_code
        &&& b.output_section_height == a.output_section_height
    }

    /// The bit reader's register, untouched by the symbol layer.
    pub open spec fn same_bits(a: Self, b: Self) -> bool {
        &&& b.bit_buffer == a.bit_buffer
        &&& b.bit_count == a.bit_count
    }

    /// Sets up the decoder for one frame: width fresh, dictionary holding
    /// only the implicit literals and the two control codes, batcher empty.
    pub fn new(
        frame_metadata: &GifFrameMetadata,
        color_table: Vec<u16>,
        initial_lzw_size: u8,
    ) -> (d: Self)
        requires
            2 <= initial_lzw_size <= 8,
            color_table@.len() == 256,
            1 <= frame_metadata.frame_area.width <= MAX_SIZE,
            frame_metadata.frame_area.height <= MAX_SIZE,
            frame_metadata.frame_area.ypos + frame_metadata.frame_area.height <= 65535,
        ensures
            d.wf(),
            d.frame_area == frame_metadata.frame_area,
            d.color_table@ == color_table@,
            d.transparency_index == (match frame_metadata.extension {
                Some(e) => if e.has_transparency {
                    Some(e.transparency_index)
                } else {
                    None
                },
                None => None::<u8>,
            }),
            d.initial_symbol_size == initial_lzw_size + 1,
            d.clear_code == (1u16 << (initial_lzw_size as u16)),
            d.stop_code == d.clear_code + 1,
            d.current_symbol_size == d.initial_symbol_size,
            d.table_index == d.stop_code,
            d.bit_buffer == 0,
            d.bit_count == 0,
            d.last_symbol is None,
            d.output_line == 0,
            d.output_index == 0,
            !d.finished,
            d.lzw_table@ == Seq::new(4096nat, |i: int| (LzwEntry { first: 0, last: 0 })),
            d.output_buffer@ == Seq::new(OUT_BUF_LEN as nat, |i: int| 0u8),
    {
        let clear_code: u16 = 1u16 << (initial_lzw_size as u16);
        proof {
            assert(2 <= initial_lzw_size <= 8 ==> 4 <= (1u16 << (initial_lzw_size as u16))
                <= 256) by (bit_vector);
        }

        let transparency_index = match frame_metadata.extension {
            Some(GraphicsControlExtension { has_transparency: true, transparency_index, .. }) => {
                Some(transparency_index)
            },
            _ => None,
        };

        let width = frame_metadata.frame_area.width;
        proof {
            vstd::arithmetic::div_mod::lemma_fundamental_div_mod(
                OUT_BUF_LEN as int,
                width as int,
            );
            vstd::arithmetic::div_mod::lemma_div_non_zero(OUT_BUF_LEN as int, width as int);
        }
        let output_section_height: u16 = (OUT_BUF_LEN / (width as usize)) as u16;

        let d = FrameDecoder {
            frame_area: frame_metadata.frame_area,
            transparency_index,
            color_table,
            initial_symbol_size: initial_lzw_size + 1,
            clear_code,
            stop_code: clear_code + 1,
            output_section_height,
            lzw_table: vec![LzwEntry { first: 0, last: 0 }; 4096],
            reverse_buffer: vec![0u8; REVERSE_BUF_LEN],
            output_buffer: vec![0u8; OUT_BUF_LEN],
            current_symbol_size: initial_lzw_size + 1,
            table_index: clear_code + 1,
            bit_buffer: 0,
            bit_count: 0,
            last_symbol: None,
            output_line: 0,
            output_index: 0,
            finished: false,
        };
        proof {
            assert(d.lzw_table@ =~= Seq::new(4096nat, |i: int| (LzwEntry { first: 0, last: 0 })));
            assert(d.output_buffer@ =~= Seq::new(OUT_BUF_LEN as nat, |i: int| 0u8));
            assert(d.clear_code == (1u16 << ((d.initial_symbol_size - 1) as u16)));
            assert(d.section_len() <= OUT_BUF_LEN as int && d.section_len() >= 1) by (
            nonlinear_arith)
                requires
                    d.section_len() == d.frame_area.width as int
                        * d.output_section_height as int,
                    d.output_section_height as int == OUT_BUF_LEN as int
                        / d.frame_area.width as int,
                    1 <= d.frame_area.width,
                    OUT_BUF_LEN as int == d.frame_area.width as int
                        * (OUT_BUF_LEN as int / d.frame_area.width as int) + OUT_BUF_LEN as int
                        % d.frame_area.width as int,
                    0 <= OUT_BUF_LEN as int % d.frame_area.width as int,
                    1 <= OUT_BUF_LEN as int / d.frame_area.width as int,
            ;
        }
        d
    }

    /// Hands the renderer the batched pixels as one rectangle of `height`
    /// lines directly under what was rendered before, and restarts the
    /// batcher.  The batcher restarts even when the renderer fails: the
    /// frame is abandoned then.
    fn render_buffer<R: ImageRenderer>(&mut self, height: u16, renderer: &mut R) -> (r: Result<
        (),
        Error,
    >)
        requires
            old(self).static_wf(),
            lzw_wf(old(self).lzw_state()),
            old(self).bit_count <= 32,
            1 <= height,
            old(self).output_line + height <= old(self).frame_area.height,
            old(self).frame_area.width as int * height as int <= OUT_BUF_LEN as int,
        ensures
            final(self).wf(),
            Self::same_static(*old(self), *final(self)),
            Self::same_bits(*old(self), *final(self)),
            final(self).lzw_state() == old(self).lzw_state(),
            final(self).finished == old(self).finished,
            final(self).reverse_buffer@ == old(self).reverse_buffer@,
            final(self).output_buffer@ == old(self).output_buffer@,
            final(self).output_index == 0,
            final(self).output_line == old(self).output_line + height,
            r is Ok ==> final(renderer).history() == old(renderer).history().push(
                RenderEvent::Write {
                    xpos: old(self).frame_area.xpos,
                    ypos: (old(self).frame_area.ypos + old(self).output_line) as u16,
                    width: old(self).frame_area.width,
                    height: height,
                    pixels: old(self).output_buffer@.take(
                        old(self).frame_area.width as int * height as int,
                    ),
                    colors: old(self).color_table@,
                    transparency: old(self).transparency_index,
                },
            ),
            r is Err ==> r == Err::<(), Error>(Error::RenderError),
    {
        let output_area = ImageArea {
            xpos: self.frame_area.xpos,
            ypos: self.frame_area.ypos + self.output_line,
            width: self.frame_area.width,
            height,
        };

        self.output_index = 0;
        self.output_line = self.output_line + height;

        let r = renderer.write_area(
            output_area,
            self.output_buffer.as_slice(),
            self.color_table.as_slice(),
            self.transparency_index,
        );
        proof {
            assert(1 <= self.section_len()) by (nonlinear_arith)
                requires
                    self.section_len() == self.frame_area.width as int
                        * self.output_section_height as int,
                    1 <= self.frame_area.width,
                    1 <= self.output_section_height,
            ;
        }
        r
    }

    /// Puts one pixel into the batcher; a pixel that fills a whole section
    /// hands the section to the renderer.  Success is owed whenever the
    /// batcher has room; a pixel that would flush a section beyond the
    /// declared frame height is image data the frame cannot hold.
    fn process_pixel<R: ImageRenderer>(&mut self, pixel: u8, renderer: &mut R) -> (r: Result<
        (),
        Error,
    >)
        requires
            old(self).wf(),
        ensures
            final(self).wf(),
            Self::same_static(*old(self), *final(self)),
            Self::same_bits(*old(self), *final(self)),
            final(self).lzw_state() == old(self).lzw_state(),
            final(self).finished == old(self).finished,
            final(self).reverse_buffer@ == old(self).reverse_buffer@,
            final(self).output_line >= old(self).output_line,
            ({
                let full = old(self).output_index + 1 == old(self).section_len();
                let over = full && old(self).output_line + old(self).output_section_height
                    > old(self).frame_area.height;
                let fed = feed_one(
                    old(self).frame_area,
                    old(self).output_section_height as int,
                    old(self).color_table@,
                    old(self).transparency_index,
                    old(self).sink_state(),
                    old(renderer).history(),
                    pixel,
                );
                &&& (over ==> r == Err::<(), Error>(Error::InvalidSymbol) && *final(self)
                    == *old(self) && *final(renderer) == *old(renderer))
                &&& (!over ==> final(self).sink_state() == fed.0)
                &&& (!full ==> r is Ok && *final(renderer) == *old(renderer))
                &&& (r is Ok ==> !over && final(renderer).history() == fed.1 && frame_delta(
                    old(renderer).history(),
                    final(renderer).history(),
                    old(self).frame_area,
                    old(self).output_line as int,
                    final(self).output_line as int,
                    false,
                ))
                &&& (r is Err && !over ==> full && r == Err::<(), Error>(Error::RenderError))
            }),
    {
        let max_size: usize = (self.frame_area.width as usize) * (self.output_section_height
            as usize);
        if self.output_index + 1 == max_size && self.output_line + self.output_section_height
            > self.frame_area.height {
            return Err(Error::InvalidSymbol);
        }

        self.output_buffer[self.output_index] = pixel;
        self.output_index = self.output_index + 1;

        if self.output_index >= max_size {
            let section_height = self.output_section_height;
            self.render_buffer(section_height, renderer)?;
            proof {
                let ev = RenderEvent::Write {
                    xpos: old(self).frame_area.xpos,
                    ypos: (old(self).frame_area.ypos + old(self).output_line) as u16,
                    width: old(self).frame_area.width,
                    height: old(self).output_section_height,
                    pixels: old(self).output_buffer@.update(
                        old(self).output_index as int,
                        pixel,
                    ).take(old(self).section_len()),
                    colors: old(self).color_table@,
                    transparency: old(self).transparency_index,
                };
                assert(writes_shape(seq![ev].drop_first(), old(self).frame_area,
                    old(self).output_line as int + old(self).output_section_height as int,
                    self.output_line as int));
                assert(writes_shape(seq![ev], old(self).frame_area,
                    old(self).output_line as int, self.output_line as int));
                lemma_frame_delta_one_write(old(renderer).history(), ev, old(self).frame_area,
                    old(self).output_line as int, self.output_line as int);
            }
        } else {
            proof {
                lemma_frame_delta_refl(old(renderer).history(), old(self).frame_area,
                    old(self).output_line as int);
            }
        }
        Ok(())
    }

    /// Follows a chain of `first` links down to its literal.
    fn find_first_symbol_in_chain(&self, start: u16) -> (lit: u8)
        requires
            self.wf(),
            valid_code(self.clear_code as int, self.table_index as int, start as int),
        ensures
            lit == first_literal(self.lzw_table@, self.clear_code as int, start as int),
    {
        let mut current_symbol = start;

        while current_symbol >= self.clear_code
            invariant
                self.wf(),
                valid_code(self.clear_code as int, self.table_index as int,
                    current_symbol as int),
                first_literal(self.lzw_table@, self.clear_code as int, current_symbol as int)
                    == first_literal(self.lzw_table@, self.clear_code as int, start as int),
            decreases current_symbol,
        {
            proof {
                assert(valid_code(self.clear_code as int, current_symbol as int - 1,
                    self.lzw_table@[current_symbol as int].first as int));
            }
            current_symbol = self.lzw_table[current_symbol as usize].first;
        }

        current_symbol as u8
    }

    /// Emits the expansion of `start` pixel by pixel, reversing the chain of
    /// dictionary entries through the reverse buffer.  An expansion longer
    /// than the reverse buffer is refused before any pixel is emitted.
    fn emit_entry_chain<R: ImageRenderer>(&mut self, start: u16, renderer: &mut R) -> (r: Result<
        (),
        Error,
    >)
        requires
            old(self).wf(),
            valid_code(old(self).clear_code as int, old(self).table_index as int, start as int),
        ensures
            final(self).wf(),
            Self::same_static(*old(self), *final(self)),
            Self::same_bits(*old(self), *final(self)),
            final(self).lzw_state() == old(self).lzw_state(),
            final(self).finished == old(self).finished,
            final(self).output_line >= old(self).output_line,
            ({
                let expansion = expand_code(
                    old(self).lzw_table@,
                    old(self).clear_code as int,
                    start as int,
                );
                let fed = feed(
                    old(self).frame_area,
                    old(self).output_section_height as int,
                    old(self).color_table@,
                    old(self).transparency_index,
                    old(self).sink_state(),
                    old(renderer).history(),
                    expansion,
                );
                &&& (expansion.len() > REVERSE_BUF_LEN <==> r == Err::<(), Error>(
                    Error::ReverseBufferOverflow,
                ))
                &&& (r == Err::<(), Error>(Error::ReverseBufferOverflow) ==> final(self).sink_state() == old(self).sink_state() && *final(renderer) == *old(renderer))
                &&& (r is Ok ==> expansion.len() <= REVERSE_BUF_LEN && final(self).sink_state()
                    == fed.0 && final(renderer).history() == fed.1 && frame_delta(
                    old(renderer).history(),
                    final(renderer).history(),
                    old(self).frame_area,
                    old(self).output_line as int,
                    final(self).output_line as int,
                    false,
                ))
                // pixels that stay within the open section cannot fail:
                // no renderer call happens at all
                &&& (expansion.len() <= REVERSE_BUF_LEN && old(self).output_index
                    + expansion.len() < old(self).section_len() ==> r is Ok && *final(renderer)
                    == *old(renderer))
                &&& (r is Err ==> r == Err::<(), Error>(Error::ReverseBufferOverflow) || r
                    == Err::<(), Error>(Error::InvalidSymbol) || r == Err::<(), Error>(
                    Error::RenderError,
                ))
                &&& (r == Err::<(), Error>(Error::InvalidSymbol) ==> fed.0.line > old(self).frame_area.height)
            }),
    {
        let ghost t = self.lzw_table@;
        let ghost clear = self.clear_code as int;
        let ghost expansion = expand_code(t, clear, start as int);
        proof {
            lemma_expand_head(t, clear, self.table_index as int, start as int);
        }

        // shortcut for the hot path: a literal is its own expansion
        if start < self.clear_code {
            proof {
                assert(expansion =~= seq![start as u8]);
                lemma_feed_singleton(
                    self.frame_area,
                    self.output_section_height as int,
                    self.color_table@,
                    self.transparency_index,
                    self.sink_state(),
                    renderer.history(),
                    start as u8,
                );
            }
            let r = self.process_pixel(start as u8, renderer);
            return r;
        }

        let mut current_symbol = start;
        let mut reverse_index: usize = 0;

        // follow the chain, collecting the expansion back to front
        loop
            invariant_except_break
                self.clear_code <= current_symbol,
                valid_code(clear, self.table_index as int, current_symbol as int),
                reverse_index < REVERSE_BUF_LEN,
                reverse_index as int == expansion.len() - expand_code(t, clear,
                    current_symbol as int).len(),
                expand_code(t, clear, current_symbol as int).len() >= 1,
                forall|i: int|
                    0 <= i < expand_code(t, clear, current_symbol as int).len()
                        ==> expansion[i] == expand_code(t, clear, current_symbol as int)[i],
            invariant
                self.wf(),
                Self::same_static(*old(self), *self),
                Self::same_bits(*old(self), *self),
                self.lzw_state() == old(self).lzw_state(),
                self.finished == old(self).finished,
                self.sink_state() == old(self).sink_state(),
                *renderer == *old(renderer),
                t == self.lzw_table@,
                clear == self.clear_code as int,
                expansion == expand_code(t, clear, start as int),
                reverse_index <= REVERSE_BUF_LEN,
                forall|j: int|
                    0 <= j < reverse_index ==> self.reverse_buffer@[j] == expansion[
                        expansion.len() - 1 - j],
            ensures
                self.wf(),
                Self::same_static(*old(self), *self),
                Self::same_bits(*old(self), *self),
                self.lzw_state() == old(self).lzw_state(),
                self.finished == old(self).finished,
                self.sink_state() == old(self).sink_state(),
                *renderer == *old(renderer),
                reverse_index as int == expansion.len(),
                reverse_index <= REVERSE_BUF_LEN,
                forall|j: int|
                    0 <= j < reverse_index ==> self.reverse_buffer@[j] == expansion[
                        expansion.len() - 1 - j],
            decreases current_symbol,
        {
            proof {
                assert(valid_code(clear, current_symbol as int - 1,
                    t[current_symbol as int].first as int));
            }
            let entry = self.lzw_table[current_symbol as usize];
            let ghost prev_symbol = current_symbol;
            current_symbol = entry.first;

            self.reverse_buffer[reverse_index] = entry.last;
            reverse_index = reverse_index + 1;

            proof {
                let prev_exp = expand_code(t, clear, prev_symbol as int);
                assert(prev_exp == expand_code(t, clear, entry.first as int).push(entry.last));
                if entry.first >= self.clear_code {
                    lemma_expand_head(t, clear, self.table_index as int, entry.first as int);
                }
            }

            if reverse_index >= REVERSE_BUF_LEN {
                proof {
                    lemma_expand_head(t, clear, self.table_index as int, entry.first as int);
                    assert(expansion.len() > REVERSE_BUF_LEN);
                }
                return Err(Error::ReverseBufferOverflow);
            }

            if entry.first < self.clear_code {
                self.reverse_buffer[reverse_index] = entry.first as u8;
                reverse_index = reverse_index + 1;
                proof {
                    assert(expand_code(t, clear, current_symbol as int) =~= seq![
                        current_symbol as u8]);
                    assert(expansion[0] == current_symbol as u8);
                    assert(reverse_index as int == expansion.len());
                }
                break;
            }
        }

        proof {
            assert(expansion.take(expansion.len() - reverse_index) =~= Seq::<u8>::empty());
            lemma_frame_delta_refl(
                old(renderer).history(),
                old(self).frame_area,
                old(self).output_line as int,
            );
        }

        // unwind the reverse buffer into the batcher
        while reverse_index > 0
            invariant
                self.wf(),
                Self::same_static(*old(self), *self),
                Self::same_bits(*old(self), *self),
                self.lzw_state() == old(self).lzw_state(),
                self.finished == old(self).finished,
                self.output_line >= old(self).output_line,
                t == self.lzw_table@,
                clear == self.clear_code as int,
                expansion == expand_code(t, clear, start as int),
                reverse_index <= expansion.len() <= REVERSE_BUF_LEN,
                forall|j: int|
                    0 <= j < reverse_index ==> self.reverse_buffer@[j] == expansion[
                        expansion.len() - 1 - j],
                ({
                    let fed_now = feed(
                        old(self).frame_area,
                        old(self).output_section_height as int,
                        old(self).color_table@,
                        old(self).transparency_index,
                        old(self).sink_state(),
                        old(renderer).history(),
                        expansion.take(expansion.len() - reverse_index),
                    );
                    self.sink_state() == fed_now.0 && renderer.history() == fed_now.1
                }),
                old(self).output_index + expansion.len() < old(self).section_len()
                    ==> *renderer == *old(renderer),
                frame_delta(
                    old(renderer).history(),
                    renderer.history(),
                    old(self).frame_area,
                    old(self).output_line as int,
                    self.output_line as int,
                    false,
                ),
            decreases reverse_index,
        {
            let ghost done = expansion.take(expansion.len() - reverse_index);
            let ghost mid_sink = self.sink_state();
            let ghost mid_hist = renderer.history();
            let ghost mid_line = self.output_line as int;

            proof {
                if old(self).output_index + expansion.len() < old(self).section_len() {
                    lemma_feed_no_flush(
                        old(self).frame_area,
                        old(self).output_section_height as int,
                        old(self).color_table@,
                        old(self).transparency_index,
                        old(self).sink_state(),
                        old(renderer).history(),
                        done,
                    );
                }
            }

            reverse_index = reverse_index - 1;
            let px = self.reverse_buffer[reverse_index];
            let r = self.process_pixel(px, renderer);
            if r.is_err() {
                proof {
                    let frame = old(self).frame_area;
                    let section = old(self).output_section_height as int;
                    if r == Err::<(), Error>(Error::InvalidSymbol) {
                        let k = done.len() + 1;
                        assert(px == expansion[done.len() as int]);
                        assert(expansion.take(k as int) =~= done + seq![px]);
                        lemma_feed_concat(
                            frame,
                            section,
                            old(self).color_table@,
                            old(self).transparency_index,
                            old(self).sink_state(),
                            old(renderer).history(),
                            done,
                            seq![px],
                        );
                        lemma_feed_singleton(frame, section, old(self).color_table@,
                    old(self).transparency_index, mid_sink, mid_hist, px);
                        let fed_k = feed(
                            frame,
                            section,
                            old(self).color_table@,
                            old(self).transparency_index,
                            old(self).sink_state(),
                            old(renderer).history(),
                            expansion.take(k as int),
                        );
                        assert(fed_k.0.line > frame.height);
                        assert(expansion =~= expansion.take(k as int) + expansion.skip(
                            k as int,
                        ));
                        lemma_feed_concat(
                            frame,
                            section,
                            old(self).color_table@,
                            old(self).transparency_index,
                            old(self).sink_state(),
                            old(renderer).history(),
                            expansion.take(k as int),
                            expansion.skip(k as int),
                        );
                        lemma_feed_line_monotone(
                            frame,
                            section,
                            old(self).color_table@,
                            old(self).transparency_index,
                            fed_k.0,
                            fed_k.1,
                            expansion.skip(k as int),
                        );
                    }
                }
                return r;
            }

            proof {
                let frame = old(self).frame_area;
                let section = old(self).output_section_height as int;
                let done2 = expansion.take(expansion.len() - reverse_index);
                assert(done2 =~= done + seq![px]);
                lemma_feed_concat(
                    frame,
                    section,
                    old(self).color_table@,
                    old(self).transparency_index,
                    old(self).sink_state(),
                    old(renderer).history(),
                    done,
                    seq![px],
                );
                lemma_feed_singleton(frame, section, old(self).color_table@,
                    old(self).transparency_index, mid_sink, mid_hist, px);
                lemma_frame_delta_trans(
                    old(renderer).history(),
                    mid_hist,
                    renderer.history(),
                    frame,
                    old(self).output_line as int,
                    mid_line,
                    self.output_line as int,
                    false,
                );
            }
        }

        proof {
            assert(expansion.take(expansion.len() - 0) =~= expansion);
        }
        Ok(())
    }

    /// Resets the dictionary machine: the width returns to its initial
    /// value, the table shrinks back to the control codes, and the
    /// remembered code is forgotten.
    fn on_clear_code(&mut self) -> (r: Result<(), Error>)
        requires
            old(self).wf(),
        ensures
            final(self).wf(),
            r is Ok,
            Self::same_static(*old(self), *final(self)),
            Self::same_bits(*old(self), *final(self)),
            final(self).sink_state() == old(self).sink_state(),
            final(self).finished == old(self).finished,
            final(self).reverse_buffer@ == old(self).reverse_buffer@,
            final(self).lzw_state() == clear_step(old(self).lzw_state()),
    {
        self.current_symbol_size = self.initial_symbol_size;
        self.table_index = self.stop_code;
        self.last_symbol = None;
        Ok(())
    }

    /// Ends the image: the lines still in the batcher go to the renderer as
    /// one final partial rectangle, then the frame is flushed.  Success is
    /// refused when fewer pixels arrived than even the last section needs —
    /// the renderer would be handed bytes that were never written.
    fn on_stop_code<R: ImageRenderer>(&mut self, renderer: &mut R) -> (r: Result<(), Error>)
        requires
            old(self).wf(),
            !old(self).finished,
        ensures
            final(self).wf(),
            Self::same_static(*old(self), *final(self)),
            Self::same_bits(*old(self), *final(self)),
            final(self).lzw_state() == old(self).lzw_state(),
            final(self).output_line >= old(self).output_line,
            ({
                let remaining = old(self).frame_area.height - old(self).output_line;
                &&& (old(self).output_line < old(self).frame_area.height && remaining
                    > old(self).output_section_height ==> r == Err::<(), Error>(
                    Error::InvalidSymbol,
                ) && *final(self) == *old(self) && *final(renderer) == *old(renderer))
                &&& (r is Ok ==> final(self).finished && final(self).output_line
                    == old(self).frame_area.height && frame_delta(
                    old(renderer).history(),
                    final(renderer).history(),
                    old(self).frame_area,
                    old(self).output_line as int,
                    old(self).frame_area.height as int,
                    true,
                ))
                // exactly one final partial write, then the one flush
                &&& (r is Ok ==> final(renderer).history() == (if old(self).output_line
                    < old(self).frame_area.height {
                    old(renderer).history().push(
                        RenderEvent::Write {
                            xpos: old(self).frame_area.xpos,
                            ypos: (old(self).frame_area.ypos + old(self).output_line) as u16,
                            width: old(self).frame_area.width,
                            height: remaining as u16,
                            pixels: old(self).output_buffer@.take(
                                old(self).frame_area.width as int * remaining,
                            ),
                            colors: old(self).color_table@,
                            transparency: old(self).transparency_index,
                        },
                    ).push(RenderEvent::Flush)
                } else {
                    old(renderer).history().push(RenderEvent::Flush)
                }))
                &&& (r is Ok ==> final(self).output_buffer@ == old(self).output_buffer@
                    && final(self).output_index == (if old(self).output_line < old(self).frame_area.height {
                    0int
                } else {
                    old(self).output_index as int
                }))
                &&& (r is Err ==> r == Err::<(), Error>(Error::InvalidSymbol) || r == Err::<
                    (),
                    Error,
                >(Error::RenderError))
                &&& (r is Err && !(old(self).output_line < old(self).frame_area.height
                    && remaining > old(self).output_section_height) ==> r == Err::<(), Error>(
                    Error::RenderError,
                ))
            }),
    {
        let ghost h0 = renderer.history();
        let ghost line0 = self.output_line as int;

        if self.output_line < self.frame_area.height {
            let remaining_height = self.frame_area.height - self.output_line;
            if remaining_height > self.output_section_height {
                return Err(Error::InvalidSymbol);
            }
            proof {
                assert(self.frame_area.width as int * remaining_height as int
                    <= self.section_len()) by (nonlinear_arith)
                    requires
                        self.section_len() == self.frame_area.width as int
                            * self.output_section_height as int,
                        remaining_height <= self.output_section_height,
                        0 <= self.frame_area.width,
                ;
            }
            self.render_buffer(remaining_height, renderer)?;
        }
        self.finished = true;

        let r = renderer.flush_frame();
        if r.is_err() {
            return r;
        }

        proof {
            let frame = old(self).frame_area;
            let h2 = renderer.history();
            if line0 < frame.height as int {
                let remaining = (frame.height - old(self).output_line) as u16;
                let ev = RenderEvent::Write {
                    xpos: frame.xpos,
                    ypos: (frame.ypos + old(self).output_line) as u16,
                    width: frame.width,
                    height: remaining,
                    pixels: old(self).output_buffer@.take(
                        frame.width as int * remaining as int,
                    ),
                    colors: old(self).color_table@,
                    transparency: old(self).transparency_index,
                };
                assert(h2 =~= h0.push(ev).push(RenderEvent::Flush));
                let d = h2.skip(h0.len() as int);
                assert(d =~= seq![ev, RenderEvent::Flush]);
                assert(h2.take(h0.len() as int) =~= h0);
                assert(d.take(d.len() - 1) =~= seq![ev]);
                assert(seq![ev].drop_first() =~= Seq::<RenderEvent>::empty());
                assert(ev.arrow_Write_pixels().len() == frame.width as int * remaining as int);
                assert(writes_shape(
                    seq![ev].drop_first(),
                    frame,
                    line0 + remaining as int,
                    frame.height as int,
                ));
                assert(writes_shape(seq![ev], frame, line0, frame.height as int));
            } else {
                let d = h2.skip(h0.len() as int);
                assert(d =~= seq![RenderEvent::Flush]);
                assert(h2.take(h0.len() as int) =~= h0);
                assert(d.take(d.len() - 1) =~= Seq::<RenderEvent>::empty());
            }
        }
        Ok(())
    }

    /// Decodes one LZW symbol: the state machine of the frame decoder.
    ///
    /// A clear code resets the dictionary machine; the stop code flushes the
    /// rest of the frame and finishes; the first data code after start or a
    /// clear must be a literal and paints one pixel; any other data code may
    /// insert one entry and paints its expansion.  What each case does to
    /// the dictionary, the batcher and the renderer is stated exactly over
    /// `clear_step`, `lit_step`, `data_step` and `feed`.
    pub fn process_symbol<R: ImageRenderer>(&mut self, symbol: u16, renderer: &mut R) -> (r:
        Result<(), Error>)
        requires
            old(self).wf(),
            symbol < 4096,
        ensures
            final(self).wf(),
            Self::same_static(*old(self), *final(self)),
            Self::same_bits(*old(self), *final(self)),
            final(self).output_line >= old(self).output_line,
            // the state machine refuses anything after the stop code
            old(self).finished ==> r == Err::<(), Error>(Error::DecoderAlreadyFinished)
                && *final(self) == *old(self) && *final(renderer) == *old(renderer),
            // clear code: reset, nothing rendered
            !old(self).finished && symbol == old(self).clear_code ==> r is Ok && final(self).lzw_state() == clear_step(old(self).lzw_state()) && final(self).sink_state()
                == old(self).sink_state() && !final(self).finished && *final(renderer) == *old(renderer),
            // stop code: one final partial write where lines are left, then
            // exactly one flush_frame
            !old(self).finished && symbol == old(self).stop_code ==> final(self).lzw_state()
                == old(self).lzw_state() && (r is Ok ==> final(self).finished && final(self).output_line == old(self).frame_area.height && final(renderer).history() == (
            if old(self).output_line < old(self).frame_area.height {
                old(renderer).history().push(
                    RenderEvent::Write {
                        xpos: old(self).frame_area.xpos,
                        ypos: (old(self).frame_area.ypos + old(self).output_line) as u16,
                        width: old(self).frame_area.width,
                        height: (old(self).frame_area.height - old(self).output_line) as u16,
                        pixels: old(self).output_buffer@.take(
                            old(self).frame_area.width as int * (old(self).frame_area.height
                                - old(self).output_line),
                        ),
                        colors: old(self).color_table@,
                        transparency: old(self).transparency_index,
                    },
                ).push(RenderEvent::Flush)
            } else {
                old(renderer).history().push(RenderEvent::Flush)
            }) && final(self).output_buffer@ == old(self).output_buffer@ && final(self).output_index == (if old(self).output_line < old(self).frame_area.height {
                0int
            } else {
                old(self).output_index as int
            })) && (r is Err ==> (old(self).output_line < old(self).frame_area.height
                && old(self).frame_area.height - old(self).output_line > old(self).output_section_height && r == Err::<(), Error>(Error::InvalidSymbol)) || r
                == Err::<(), Error>(Error::RenderError)) && (old(self).output_line < old(self).frame_area.height && old(self).frame_area.height - old(self).output_line > old(self).output_section_height ==> r == Err::<(), Error>(Error::InvalidSymbol)
                && *final(self) == *old(self) && *final(renderer) == *old(renderer)),
            // first data code after start or clear must be a literal
            !old(self).finished && symbol != old(self).clear_code && symbol != old(self).stop_code && old(self).last_symbol is None ==> {
                &&& (symbol >= old(self).clear_code ==> r == Err::<(), Error>(
                    Error::InvalidSymbol,
                ) && *final(self) == *old(self) && *final(renderer) == *old(renderer))
                &&& (symbol < old(self).clear_code && r is Ok ==> final(self).lzw_state()
                    == lit_step(old(self).lzw_state(), symbol) && !final(self).finished && ({
                    let fed = feed_one(
                        old(self).frame_area,
                        old(self).output_section_height as int,
                        old(self).color_table@,
                        old(self).transparency_index,
                        old(self).sink_state(),
                        old(renderer).history(),
                        symbol as u8,
                    );
                    final(self).sink_state() == fed.0 && final(renderer).history() == fed.1
                }))
                &&& (symbol < old(self).clear_code && r is Ok ==> !(old(self).output_index + 1
                    == old(self).section_len() && old(self).output_line + old(self).output_section_height > old(self).frame_area.height))
                &&& (symbol < old(self).clear_code && old(self).output_index + 1 < old(self).section_len() ==> r is Ok && *final(renderer) == *old(renderer))
                &&& (symbol < old(self).clear_code && r is Err ==> (old(self).output_index + 1
                    == old(self).section_len() && old(self).output_line + old(self).output_section_height > old(self).frame_area.height && r == Err::<(), Error>(
                    Error::InvalidSymbol,
                )) || r == Err::<(), Error>(Error::RenderError))
            },
            // a code beyond the next free slot is invalid
            !old(self).finished && symbol != old(self).clear_code && symbol != old(self).stop_code && old(self).last_symbol is Some && symbol as int > old(self).table_index as int + 1 ==> r == Err::<(), Error>(Error::InvalidSymbol) && *final(self) == *old(self) && *final(renderer) == *old(renderer),
            // a data code: insert if there is room, then emit the expansion
            !old(self).finished && symbol != old(self).clear_code && symbol != old(self).stop_code && old(self).last_symbol is Some && symbol as int <= old(self).table_index as int + 1 ==> {
                let s2 = data_step(old(self).lzw_state(), symbol);
                let pixels = emitted(old(self).lzw_state(), symbol);
                let fed = feed(
                    old(self).frame_area,
                    old(self).output_section_height as int,
                    old(self).color_table@,
                    old(self).transparency_index,
                    old(self).sink_state(),
                    old(renderer).history(),
                    pixels,
                );
                &&& (pixels.len() > REVERSE_BUF_LEN <==> r == Err::<(), Error>(
                    Error::ReverseBufferOverflow,
                ))
                &&& (r == Err::<(), Error>(Error::ReverseBufferOverflow) ==> final(self).sink_state() == old(self).sink_state() && *final(renderer) == *old(renderer))
                &&& (r is Ok ==> pixels.len() <= REVERSE_BUF_LEN && final(self).lzw_state()
                    == s2 && !final(self).finished && final(self).sink_state() == fed.0
                    && final(renderer).history() == fed.1)
                // an expansion that stays within the open section cannot fail
                &&& (pixels.len() <= REVERSE_BUF_LEN && old(self).output_index + pixels.len()
                    < old(self).section_len() ==> r is Ok && *final(renderer) == *old(renderer))
                // InvalidSymbol here means one thing: the expansion would
                // paint past the declared frame area
                &&& (r == Err::<(), Error>(Error::InvalidSymbol) ==> fed.0.line > old(self).frame_area.height)
            },
            // whatever the case: on success the renderer only ever received
            // contiguous writes, with the one flush last and the frame
            // complete exactly when the stop code ended it
            r is Ok ==> frame_delta(
                old(renderer).history(),
                final(renderer).history(),
                old(self).frame_area,
                old(self).output_line as int,
                final(self).output_line as int,
                final(self).finished && !old(self).finished,
            ) && (final(self).finished && !old(self).finished ==> final(self).output_line
                == old(self).frame_area.height) && (final(self).finished && !old(self).finished <==> symbol == old(self).stop_code),
            // no other failure kind can come out of the symbol layer
            r is Err ==> r == Err::<(), Error>(Error::DecoderAlreadyFinished) || r == Err::<
                (),
                Error,
            >(Error::InvalidSymbol) || r == Err::<(), Error>(Error::ReverseBufferOverflow)
                || r == Err::<(), Error>(Error::RenderError),
            !old(self).finished ==> r != Err::<(), Error>(Error::DecoderAlreadyFinished),
    {
        if self.finished {
            return Err(Error::DecoderAlreadyFinished);
        }

        if symbol == self.clear_code {
            let r = self.on_clear_code();
            proof {
                lemma_frame_delta_refl(
                    renderer.history(),
                    self.frame_area,
                    self.output_line as int,
                );
            }
            return r;
        } else if symbol == self.stop_code {
            return self.on_stop_code(renderer);
        }

        // first symbol after start or clear: must be a literal
        if self.last_symbol.is_none() {
            if symbol >= self.clear_code {
                return Err(Error::InvalidSymbol);
            }
            self.last_symbol = Some(symbol);
            let r = self.process_pixel(symbol as u8, renderer);
            return r;
        }

        if symbol > self.table_index + 1 {
            return Err(Error::InvalidSymbol);
        }

        let ghost l0 = old(self).lzw_state();

        // space in the table: insert one entry
        if self.table_index < 4096 - 1 {
            // the incoming code may name the very slot about to be written
            let current_symbol = if symbol <= self.table_index {
                symbol
            } else {
                self.last_symbol.unwrap()
            };

            let first_symbol = self.find_first_symbol_in_chain(current_symbol);
            let new_entry = LzwEntry { first: self.last_symbol.unwrap(), last: first_symbol };

            self.table_index = self.table_index + 1;
            let slot = self.table_index as usize;
            self.lzw_table[slot] = new_entry;

            // the width grows when the next slot no longer fits in it
            if self.table_index + 1 == 1u16 << (self.current_symbol_size as u16) {
                if self.current_symbol_size < 12 {
                    self.current_symbol_size = self.current_symbol_size + 1;
                }
            }
        }

        proof {
            lemma_data_step_wf(l0, symbol);
            assert(self.lzw_state() == LzwState {
                last_symbol: old(self).last_symbol,
                ..data_step(l0, symbol)
            });
            assert(lzw_wf(self.lzw_state()));
            assert(valid_code(
                self.clear_code as int,
                self.table_index as int,
                symbol as int,
            ));
        }

        let r = self.emit_entry_chain(symbol, renderer);
        if r.is_err() {
            return r;
        }

        self.last_symbol = Some(symbol);
        proof {
            assert(self.lzw_state() == data_step(l0, symbol));
        }
        Ok(())
    }

    /// The symbol machine without the bit register: what one decoded code
    /// acts on.
    pub open spec fn decode_core(self) -> DecodeCore {
        DecodeCore { lzw: self.lzw_state(), sink: self.sink_state(), finished: self.finished }
    }

    /// Pulls one byte from the source; an exhausted source is `FileEnded`.
    fn next_byte<DS: ByteSource>(source: &mut DS) -> (r: Result<u8, Error>)
        ensures
            match r {
                Ok(b) => old(source).remaining().len() > 0 && b == old(source).remaining()[0]
                    && final(source).remaining() == old(source).remaining().drop_first(),
                Err(e) => e == Error::FileEnded && old(source).remaining().len() == 0
                    && final(source).remaining() == old(source).remaining(),
            },
    {
        match source.next() {
            Some(b) => Ok(b),
            None => Err(Error::FileEnded),
        }
    }

    /// Shifts one data byte into the register and decodes every symbol that
    /// is now complete.  Bits arrive above the pending bits; symbols leave
    /// from below, least-significant-first, at the current width.
    fn process_byte<R: ImageRenderer>(&mut self, byte: u8, renderer: &mut R) -> (r: Result<
        (),
        Error,
    >)
        requires
            old(self).wf(),
            old(self).finished || old(self).bit_count <= 24,
        ensures
            final(self).wf(),
            Self::same_static(*old(self), *final(self)),
            final(self).output_line >= old(self).output_line,
            r is Ok ==> final(self).bit_count < final(self).current_symbol_size || final(self).finished,
            r is Ok ==> frame_delta(
                old(renderer).history(),
                final(renderer).history(),
                old(self).frame_area,
                old(self).output_line as int,
                final(self).output_line as int,
                final(self).finished && !old(self).finished,
            ) && (final(self).finished && !old(self).finished ==> final(self).output_line
                == old(self).frame_area.height),
            // once the image is complete, further data bytes are drained
            old(self).finished ==> r is Ok && *final(self) == *old(self) && *final(renderer)
                == *old(renderer),
            // only the symbol layer can fail here
            r is Err ==> r == Err::<(), Error>(Error::DecoderAlreadyFinished) || r == Err::<
                (),
                Error,
            >(Error::InvalidSymbol) || r == Err::<(), Error>(Error::ReverseBufferOverflow)
                || r == Err::<(), Error>(Error::RenderError),
            // the register drains exactly as the interpreter says; a failing
            // renderer can only replace the outcome with its own error
            !old(self).finished ==> ({
                let d = drain_register(
                    old(self).frame_area,
                    old(self).output_section_height as int,
                    old(self).color_table@,
                    old(self).transparency_index,
                    (old(self).bit_buffer >> 8) | ((byte as u32) << 24),
                    (old(self).bit_count + 8) as u8,
                    old(self).decode_core(),
                    old(renderer).history(),
                );
                &&& (d.4 is None ==> r is Ok || r == Err::<(), Error>(Error::RenderError))
                &&& (r is Ok ==> d.4 is None && final(self).bit_buffer == d.0 && final(self).bit_count == d.1 && final(self).decode_core() == d.2 && final(renderer).history()
                    == d.3)
                &&& (d.4 is Some ==> r is Err && (r == Err::<(), Error>(d.4.unwrap()) || r
                    == Err::<(), Error>(Error::RenderError)))
            }),
            // a byte that does not complete a symbol only lands in the register
            !old(self).finished && old(self).bit_count + 8 < old(self).current_symbol_size
                ==> r is Ok && final(self).bit_buffer == ((old(self).bit_buffer >> 8) | ((
            byte as u32) << 24)) && final(self).bit_count == old(self).bit_count + 8 && *final(renderer) == *old(renderer) && final(self).lzw_state() == old(self).lzw_state() && final(self).sink_state() == old(self).sink_state() && final(self).finished == old(self).finished,
    {
        if self.finished {
            proof {
                lemma_frame_delta_refl(
                    renderer.history(),
                    self.frame_area,
                    self.output_line as int,
                );
            }
            return Ok(());
        }
        self.bit_buffer = (self.bit_buffer >> 8) | ((byte as u32) << 24);
        self.bit_count = self.bit_count + 8;

        proof {
            lemma_frame_delta_refl(
                renderer.history(),
                self.frame_area,
                self.output_line as int,
            );
        }

        while self.current_symbol_size <= self.bit_count && !self.finished
            invariant
                self.wf(),
                Self::same_static(*old(self), *self),
                self.output_line >= old(self).output_line,
                frame_delta(
                    old(renderer).history(),
                    renderer.history(),
                    old(self).frame_area,
                    old(self).output_line as int,
                    self.output_line as int,
                    self.finished && !old(self).finished,
                ),
                old(self).finished ==> self.finished && *renderer == *old(renderer)
                    && self.sink_state() == old(self).sink_state(),
                self.finished && !old(self).finished ==> self.output_line
                    == old(self).frame_area.height,
                old(self).bit_count + 8 < old(self).current_symbol_size ==> self.bit_buffer
                    == ((old(self).bit_buffer >> 8) | ((byte as u32) << 24)) && self.bit_count
                    == old(self).bit_count + 8 && *renderer == *old(renderer)
                    && self.lzw_state() == old(self).lzw_state() && self.sink_state()
                    == old(self).sink_state() && self.finished == old(self).finished,
                self.bit_buffer == ((old(self).bit_buffer >> 8) | ((byte as u32) << 24)),
                drain_register(
                    old(self).frame_area,
                    old(self).output_section_height as int,
                    old(self).color_table@,
                    old(self).transparency_index,
                    (old(self).bit_buffer >> 8) | ((byte as u32) << 24),
                    (old(self).bit_count + 8) as u8,
                    old(self).decode_core(),
                    old(renderer).history(),
                ) == drain_register(
                    old(self).frame_area,
                    old(self).output_section_height as int,
                    old(self).color_table@,
                    old(self).transparency_index,
                    self.bit_buffer,
                    self.bit_count,
                    self.decode_core(),
                    renderer.history(),
                ),
            decreases self.bit_count,
        {
            let ghost h_prev = renderer.history();
            let ghost line_prev = self.output_line as int;
            let ghost finished_prev = self.finished;
            let ghost core_head = self.decode_core();
            let ghost bc_head = self.bit_count;

            let shift: u8 = 32 - self.bit_count;
            let width_pow: u32 = 1u32 << (self.current_symbol_size as u32);
            proof {
                let c: u32 = self.current_symbol_size as u32;
                assert(c <= 12 ==> 1 <= (1u32 << c) && (1u32 << c) <= 4096) by (bit_vector);
            }
            let mask: u32 = (width_pow - 1) << (shift as u32);
            let symbol_word: u32 = (self.bit_buffer & mask) >> (shift as u32);
            proof {
                let bb: u32 = self.bit_buffer;
                let wp: u32 = width_pow;
                let sh: u32 = shift as u32;
                assert(1 <= wp ==> ((bb & (((wp - 1) as u32) << sh)) >> sh) < wp) by (
                bit_vector);
                assert(mask == ((wp - 1) as u32) << sh);
                assert(symbol_word < 4096);
            }
            let symbol = symbol_word as u16;
            self.bit_count = self.bit_count - self.current_symbol_size;

            proof {
                let c = core_head.lzw.current_symbol_size;
                let sh2: u32 = (32 - bc_head) as u32;
                assert(sh2 == shift as u32);
                assert(symbol == ((self.bit_buffer & (((width_pow - 1) as u32) << sh2))
                    >> sh2) as u16);
            }

            let ghost step = sym_step(
                old(self).frame_area,
                old(self).output_section_height as int,
                old(self).color_table@,
                old(self).transparency_index,
                core_head,
                h_prev,
                symbol,
            );

            let r = self.process_symbol(symbol, renderer);
            if r.is_err() {
                proof {
                    if step.2 is Some {
                        assert(r == Err::<(), Error>(step.2.unwrap()) || r == Err::<(), Error>(
                            Error::RenderError,
                        ));
                    } else {
                        assert(r == Err::<(), Error>(Error::RenderError));
                    }
                }
                return r;
            }

            proof {
                assert(!core_head.finished);
                if symbol as int == core_head.lzw.clear_code {
                    assert(step.0 == self.decode_core());
                } else if symbol as int == core_head.lzw.clear_code + 1 {
                    if core_head.sink.line < old(self).frame_area.height as int {
                        assert(step.0.sink.buf == self.sink_state().buf);
                        assert(step.0.sink.index == self.sink_state().index);
                        assert(step.0.sink.line == self.sink_state().line);
                    } else {
                        assert(core_head.sink.line == old(self).frame_area.height as int);
                        assert(step.0.sink.buf == self.sink_state().buf);
                        assert(step.0.sink.index == self.sink_state().index);
                        assert(step.0.sink.line == self.sink_state().line);
                    }
                    assert(step.0.sink == self.sink_state());
                    assert(step.0 == self.decode_core());
                    assert(step.1 == renderer.history());
                } else if core_head.lzw.last_symbol is None {
                    assert(step.0 == self.decode_core());
                } else {
                    assert(step.0.sink == self.sink_state());
                    assert(step.0 == self.decode_core());
                }
                assert(step == (self.decode_core(), renderer.history(), None::<Error>));
                lemma_frame_delta_trans(
                    old(renderer).history(),
                    h_prev,
                    renderer.history(),
                    old(self).frame_area,
                    old(self).output_line as int,
                    line_prev,
                    self.output_line as int,
                    self.finished && !old(self).finished,
                );
            }
        }
        Ok(())
    }

    /// Consumes and decodes every sub-block of image data: a byte counting
    /// each block's length, the data bytes, and the zero terminator.  On
    /// success the renderer received nothing but contiguous writes and, if
    /// the stop code arrived, the one final `flush_frame` of the now fully
    /// painted frame.
    pub fn decode_frame<DS: ByteSource, R: ImageRenderer>(
        &mut self,
        source: &mut DS,
        renderer: &mut R,
    ) -> (r: Result<(), Error>)
        requires
            old(self).wf(),
            old(self).finished || old(self).bit_count < 12,
        ensures
            final(self).wf(),
            Self::same_static(*old(self), *final(self)),
            final(self).output_line >= old(self).output_line,
            r is Ok ==> frame_delta(
                old(renderer).history(),
                final(renderer).history(),
                old(self).frame_area,
                old(self).output_line as int,
                final(self).output_line as int,
                final(self).finished && !old(self).finished,
            ) && (final(self).finished && !old(self).finished ==> final(self).output_line
                == old(self).frame_area.height),
            // on success, what left the source is exactly one sub-block
            // chain, terminator included
            r is Ok ==> skip_subblocks(old(source).remaining()) is Some && final(source).remaining() == old(source).remaining().skip(
                skip_subblocks(old(source).remaining()).unwrap(),
            ),
            skip_subblocks(old(source).remaining()) is None ==> r is Err,
            // an exhausted source, and only an exhausted source, is FileEnded
            old(source).remaining().len() == 0 ==> r == Err::<(), Error>(Error::FileEnded)
                && *final(self) == *old(self) && *final(renderer) == *old(renderer),
            r == Err::<(), Error>(Error::FileEnded) ==> skip_subblocks(
                old(source).remaining(),
            ) is None,
            // the empty chain decodes to nothing, and cannot fail
            old(source).remaining().len() >= 1 && old(source).remaining()[0] == 0 ==> r is Ok
                && *final(self) == *old(self) && *final(renderer) == *old(renderer),
            r is Err ==> r == Err::<(), Error>(Error::FileEnded) || r == Err::<(), Error>(
                Error::DecoderAlreadyFinished,
            ) || r == Err::<(), Error>(Error::InvalidSymbol) || r == Err::<(), Error>(
                Error::ReverseBufferOverflow,
            ) || r == Err::<(), Error>(Error::RenderError),
            // the stream decodes exactly as the interpreter says; a failing
            // renderer can only substitute its own error for the outcome
            ({
                let run = run_chain(
                    old(self).frame_area,
                    old(self).output_section_height as int,
                    old(self).color_table@,
                    old(self).transparency_index,
                    old(self).bit_buffer,
                    old(self).bit_count,
                    old(self).decode_core(),
                    old(renderer).history(),
                    old(source).remaining(),
                );
                &&& (run.4 is None ==> r is Ok || r == Err::<(), Error>(Error::RenderError))
                &&& (r is Ok ==> run.4 is None && final(self).bit_buffer == run.0 && final(self).bit_count == run.1 && final(self).decode_core() == run.2 && final(renderer).history() == run.3)
                &&& (run.4 is Some ==> r is Err && (r == Err::<(), Error>(run.4.unwrap()) || r
                    == Err::<(), Error>(Error::RenderError)))
            }),
    {
        proof {
            lemma_frame_delta_refl(
                renderer.history(),
                self.frame_area,
                self.output_line as int,
            );
        }
        let ghost c0 = source.remaining();
        let ghost run0 = run_chain(
            self.frame_area,
            self.output_section_height as int,
            self.color_table@,
            self.transparency_index,
            self.bit_buffer,
            self.bit_count,
            self.decode_core(),
            renderer.history(),
            c0,
        );
        proof {
            assert(run_chain(
                old(self).frame_area,
                old(self).output_section_height as int,
                old(self).color_table@,
                old(self).transparency_index,
                old(self).bit_buffer,
                old(self).bit_count,
                old(self).decode_core(),
                old(renderer).history(),
                old(source).remaining(),
            ) == run0);
        }
        let mut block_size = match Self::next_byte(source) {
            Ok(b) => b,
            Err(e) => {
                proof {
                    assert(skip_subblocks(c0) is None);
                    assert(run0.4 == Some(Error::FileEnded));
                }
                return Err(e);
            },
        };
        proof {
            assert(seq![block_size] + source.remaining() =~= c0);
        }

        while block_size != 0
            invariant
                self.wf(),
                Self::same_static(*old(self), *self),
                !self.finished ==> self.bit_count < 12,
                self.output_line >= old(self).output_line,
                frame_delta(
                    old(renderer).history(),
                    renderer.history(),
                    old(self).frame_area,
                    old(self).output_line as int,
                    self.output_line as int,
                    self.finished && !old(self).finished,
                ),
                old(self).finished ==> self.finished,
                self.finished && !old(self).finished ==> self.output_line
                    == old(self).frame_area.height,
                c0 == old(source).remaining(),
                run0 == run_chain(
                    old(self).frame_area,
                    old(self).output_section_height as int,
                    old(self).color_table@,
                    old(self).transparency_index,
                    old(self).bit_buffer,
                    old(self).bit_count,
                    old(self).decode_core(),
                    old(renderer).history(),
                    old(source).remaining(),
                ),
                c0.len() >= 1 && c0[0] == 0 ==> block_size == 0 && *self == *old(self)
                    && *renderer == *old(renderer),
                ({
                    let chain = seq![block_size] + source.remaining();
                    &&& chain.len() <= c0.len()
                    &&& chain == c0.skip(c0.len() - chain.len())
                    &&& match skip_subblocks(chain) {
                        Some(k) => skip_subblocks(c0) == Some(k + (c0.len() - chain.len())),
                        None => skip_subblocks(c0) is None,
                    }
                }),
                run0 == run_chain(
                    old(self).frame_area,
                    old(self).output_section_height as int,
                    old(self).color_table@,
                    old(self).transparency_index,
                    self.bit_buffer,
                    self.bit_count,
                    self.decode_core(),
                    renderer.history(),
                    seq![block_size] + source.remaining(),
                ),
            decreases source.remaining().len(),
        {
            let ghost chain = seq![block_size] + source.remaining();
            let ghost rem0 = source.remaining();
            let ghost sbb = self.bit_buffer;
            let ghost sbc = self.bit_count;
            let ghost score = self.decode_core();
            let ghost sh = renderer.history();
            let ghost data_seq = if chain.len() >= 1 + block_size as int {
                chain.subrange(1, 1 + block_size as int)
            } else {
                chain.drop_first()
            };
            proof {
                if rem0.len() >= block_size as int {
                    assert(data_seq =~= rem0.take(block_size as int));
                } else {
                    assert(data_seq =~= rem0);
                }
            }
            proof {
                assert(data_seq.skip(0) =~= data_seq);
            }
            let mut i: u8 = 0;
            while i < block_size
                invariant
                    i <= block_size,
                    block_size != 0,
                    source.remaining() == rem0.skip(i as int),
                    rem0.len() >= i as int,
                    data_seq == (if rem0.len() >= block_size as int {
                        rem0.take(block_size as int)
                    } else {
                        rem0
                    }),
                    i as int <= data_seq.len() || rem0.len() < block_size as int,
                    run0 == run_chain(
                        old(self).frame_area,
                        old(self).output_section_height as int,
                        old(self).color_table@,
                        old(self).transparency_index,
                        sbb,
                        sbc,
                        score,
                        sh,
                        chain,
                    ),
                    run_bytes(
                        old(self).frame_area,
                        old(self).output_section_height as int,
                        old(self).color_table@,
                        old(self).transparency_index,
                        sbb,
                        sbc,
                        score,
                        sh,
                        data_seq,
                    ) == run_bytes(
                        old(self).frame_area,
                        old(self).output_section_height as int,
                        old(self).color_table@,
                        old(self).transparency_index,
                        self.bit_buffer,
                        self.bit_count,
                        self.decode_core(),
                        renderer.history(),
                        data_seq.skip(i as int),
                    ),
                    self.wf(),
                    Self::same_static(*old(self), *self),
                    !self.finished ==> self.bit_count < 12,
                    self.output_line >= old(self).output_line,
                    frame_delta(
                        old(renderer).history(),
                        renderer.history(),
                        old(self).frame_area,
                        old(self).output_line as int,
                        self.output_line as int,
                        self.finished && !old(self).finished,
                    ),
                    old(self).finished ==> self.finished,
                    self.finished && !old(self).finished ==> self.output_line
                        == old(self).frame_area.height,
                    c0 == old(source).remaining(),
                    run0 == run_chain(
                        old(self).frame_area,
                        old(self).output_section_height as int,
                        old(self).color_table@,
                        old(self).transparency_index,
                        old(self).bit_buffer,
                        old(self).bit_count,
                        old(self).decode_core(),
                        old(renderer).history(),
                        old(source).remaining(),
                    ),
                    c0.len() >= 1 ==> c0[0] != 0,
                    chain == seq![block_size] + rem0,
                    chain.len() <= c0.len(),
                    chain == c0.skip(c0.len() - chain.len()),
                    match skip_subblocks(chain) {
                        Some(k) => skip_subblocks(c0) == Some(k + (c0.len() - chain.len())),
                        None => skip_subblocks(c0) is None,
                    },
                decreases block_size - i,
            {
                let ghost h_prev = renderer.history();
                let ghost line_prev = self.output_line as int;
                let ghost fin_prev = self.finished;

                let ghost bb_now = self.bit_buffer;
                let ghost bc_now = self.bit_count;
                let ghost core_now = self.decode_core();
                let ghost h_now = renderer.history();

                let data = match Self::next_byte(source) {
                    Ok(b) => b,
                    Err(e) => {
                        proof {
                            // the source dried inside the block: the
                            // interpreter's truncated branch answers FileEnded
                            assert(rem0.len() == i as int);
                            assert(data_seq =~= rem0);
                            assert(data_seq.skip(i as int).len() == 0);
                            let r1 = run_bytes(
                                old(self).frame_area,
                                old(self).output_section_height as int,
                                old(self).color_table@,
                                old(self).transparency_index,
                                sbb,
                                sbc,
                                score,
                                sh,
                                data_seq,
                            );
                            assert(r1.4 is None);
                            assert(chain.len() < 1 + block_size as int);
                            assert(chain.drop_first() == data_seq) by {
                                assert(chain.drop_first() =~= data_seq);
                            }
                            assert(run0 == (r1.0, r1.1, r1.2, r1.3, Some(Error::FileEnded)));
                            assert(run0.4 == Some(Error::FileEnded));
                            assert(run_chain(
                                old(self).frame_area,
                                old(self).output_section_height as int,
                                old(self).color_table@,
                                old(self).transparency_index,
                                old(self).bit_buffer,
                                old(self).bit_count,
                                old(self).decode_core(),
                                old(renderer).history(),
                                old(source).remaining(),
                            ) == run0);
                        }
                        return Err(e);
                    },
                };
                proof {
                    assert(rem0.skip(i as int).drop_first() =~= rem0.skip(i as int + 1));
                    assert((i as int) < data_seq.len());
                    assert(data_seq.skip(i as int)[0] == data);
                    assert(data_seq.skip(i as int).drop_first() =~= data_seq.skip(
                        i as int + 1,
                    ));
                }
                let r = self.process_byte(data, renderer);
                if r.is_err() {
                    proof {
                        if !fin_prev {
                            let d = drain_register(
                                old(self).frame_area,
                                old(self).output_section_height as int,
                                old(self).color_table@,
                                old(self).transparency_index,
                                (bb_now >> 8) | ((data as u32) << 24),
                                (bc_now + 8) as u8,
                                core_now,
                                h_now,
                            );
                            if d.4 is Some {
                                let r1 = run_bytes(
                                    old(self).frame_area,
                                    old(self).output_section_height as int,
                                    old(self).color_table@,
                                    old(self).transparency_index,
                                    sbb,
                                    sbc,
                                    score,
                                    sh,
                                    data_seq,
                                );
                                assert(run_bytes(
                                    old(self).frame_area,
                                    old(self).output_section_height as int,
                                    old(self).color_table@,
                                    old(self).transparency_index,
                                    bb_now,
                                    bc_now,
                                    core_now,
                                    h_now,
                                    data_seq.skip(i as int),
                                ) == d);
                                assert(r1 == d);
                                if chain.len() >= 1 + block_size as int {
                                    assert(chain.subrange(1, 1 + block_size as int)
                                        == data_seq) by {
                                        assert(chain.subrange(1, 1 + block_size as int)
                                            =~= data_seq);
                                    }
                                } else {
                                    assert(chain.drop_first() == data_seq) by {
                                        assert(chain.drop_first() =~= data_seq);
                                    }
                                }
                                assert(run0 == d);
                                assert(run0.4 == d.4);
                            }
                        }
                    }
                    return r;
                }
                proof {
                    if !fin_prev {
                        lemma_frame_delta_trans(
                            old(renderer).history(),
                            h_prev,
                            renderer.history(),
                            old(self).frame_area,
                            old(self).output_line as int,
                            line_prev,
                            self.output_line as int,
                            self.finished && !old(self).finished,
                        );
                    }
                    assert(run_bytes(
                        old(self).frame_area,
                        old(self).output_section_height as int,
                        old(self).color_table@,
                        old(self).transparency_index,
                        bb_now,
                        bc_now,
                        core_now,
                        h_now,
                        data_seq.skip(i as int),
                    ) == run_bytes(
                        old(self).frame_area,
                        old(self).output_section_height as int,
                        old(self).color_table@,
                        old(self).transparency_index,
                        self.bit_buffer,
                        self.bit_count,
                        self.decode_core(),
                        renderer.history(),
                        data_seq.skip(i as int + 1),
                    ));
                }
                i = i + 1;
            }
            let ghost bs = block_size;
            proof {
                assert(source.remaining() =~= chain.skip(1 + bs as int));
                assert(rem0.len() >= bs as int);
                assert(data_seq =~= chain.subrange(1, 1 + bs as int));
                assert(data_seq.skip(bs as int).len() == 0);
            }
            block_size = match Self::next_byte(source) {
                Ok(b) => b,
                Err(e) => {
                    proof {
                        assert(chain.len() == 1 + bs as int);
                        assert(skip_subblocks(chain.skip(1 + bs as int)) is None);
                        assert(skip_subblocks(chain) is None);
                        // the interpreter also answers FileEnded here
                        assert(chain.skip(1 + bs as int).len() == 0);
                        let r1 = run_bytes(
                            old(self).frame_area,
                            old(self).output_section_height as int,
                            old(self).color_table@,
                            old(self).transparency_index,
                            sbb,
                            sbc,
                            score,
                            sh,
                            data_seq,
                        );
                        assert(r1 == (self.bit_buffer, self.bit_count, self.decode_core(),
                        renderer.history(), None::<Error>));
                        assert(chain.subrange(1, 1 + bs as int) == data_seq) by {
                            assert(chain.subrange(1, 1 + bs as int) =~= data_seq);
                        }
                        assert(!(chain.len() < 1 + chain[0] as int));
                        assert(run_chain(
                            old(self).frame_area,
                            old(self).output_section_height as int,
                            old(self).color_table@,
                            old(self).transparency_index,
                            r1.0,
                            r1.1,
                            r1.2,
                            r1.3,
                            chain.skip(1 + bs as int),
                        ).4 == Some(Error::FileEnded));
                        assert(run0.4 == Some(Error::FileEnded));
                    }
                    return Err(e);
                },
            };
            proof {
                let chain2 = seq![block_size] + source.remaining();
                assert(chain2 =~= chain.skip(1 + bs as int));
                assert(chain2 =~= c0.skip(c0.len() - chain2.len()));
                assert(run_bytes(
                    old(self).frame_area,
                    old(self).output_section_height as int,
                    old(self).color_table@,
                    old(self).transparency_index,
                    sbb,
                    sbc,
                    score,
                    sh,
                    data_seq,
                ) == (self.bit_buffer, self.bit_count, self.decode_core(),
                renderer.history(), None::<Error>));
                assert(run0 == run_chain(
                    old(self).frame_area,
                    old(self).output_section_height as int,
                    old(self).color_table@,
                    old(self).transparency_index,
                    self.bit_buffer,
                    self.bit_count,
                    self.decode_core(),
                    renderer.history(),
                    chain2,
                ));
            }
        }
        proof {
            let chain = seq![block_size] + source.remaining();
            assert(skip_subblocks(chain) == Some(1int));
            assert(source.remaining() =~= chain.drop_first());
            assert(source.remaining() =~= c0.skip(skip_subblocks(c0).unwrap()));
            assert(run0 == (self.bit_buffer, self.bit_count, self.decode_core(),
            renderer.history(), None::<Error>));
        }
        Ok(())
    }
}

/// The decoder state one symbol acts on: the dictionary machine, the line
/// batcher, and the terminal flag.
pub struct DecodeCore {
    pub lzw: LzwState,
    pub sink: SinkState,
    pub finished: bool,
}

/// What one symbol does, assuming every renderer call succeeds: the next
/// state, the renderer history, and the error a malformed code raises.
/// This is the state machine of `process_symbol` as one mathematical step.
pub open spec fn sym_step(
    frame: ImageArea,
    section: int,
    colors: Seq<u16>,
    transparency: Option<u8>,
    st: DecodeCore,
    h: Seq<RenderEvent>,
    symbol: u16,
) -> (DecodeCore, Seq<RenderEvent>, Option<Error>) {
    if st.finished {
        (st, h, Some(Error::DecoderAlreadyFinished))
    } else if symbol as int == st.lzw.clear_code {
        (DecodeCore { lzw: clear_step(st.lzw), ..st }, h, None)
    } else if symbol as int == st.lzw.clear_code + 1 {
        if st.sink.line < frame.height as int {
            let remaining = frame.height as int - st.sink.line;
            if remaining > section {
                (st, h, Some(Error::InvalidSymbol))
            } else {
                let ev = RenderEvent::Write {
                    xpos: frame.xpos,
                    ypos: (frame.ypos + st.sink.line) as u16,
                    width: frame.width,
                    height: remaining as u16,
                    pixels: st.sink.buf.take(frame.width as int * remaining),
                    colors: colors,
                    transparency: transparency,
                };
                (
                    DecodeCore {
                        sink: SinkState {
                            buf: st.sink.buf,
                            index: 0,
                            line: frame.height as int,
                        },
                        finished: true,
                        ..st
                    },
                    h.push(ev).push(RenderEvent::Flush),
                    None,
                )
            }
        } else {
            (DecodeCore { finished: true, ..st }, h.push(RenderEvent::Flush), None)
        }
    } else if st.lzw.last_symbol is None {
        if symbol as int >= st.lzw.clear_code {
            (st, h, Some(Error::InvalidSymbol))
        } else if st.sink.index + 1 == frame.width as int * section && st.sink.line + section
            > frame.height as int {
            (st, h, Some(Error::InvalidSymbol))
        } else {
            let fed = feed_one(frame, section, colors, transparency, st.sink, h, symbol as u8);
            (DecodeCore { lzw: lit_step(st.lzw, symbol), sink: fed.0, ..st }, fed.1, None)
        }
    } else if symbol as int > st.lzw.table_index + 1 {
        (st, h, Some(Error::InvalidSymbol))
    } else {
        let pixels = emitted(st.lzw, symbol);
        if pixels.len() > REVERSE_BUF_LEN {
            (st, h, Some(Error::ReverseBufferOverflow))
        } else {
            let fed = feed(frame, section, colors, transparency, st.sink, h, pixels);
            if fed.0.line > frame.height as int {
                (st, h, Some(Error::InvalidSymbol))
            } else {
                (DecodeCore { lzw: data_step(st.lzw, symbol), sink: fed.0, ..st }, fed.1, None)
            }
        }
    }
}

/// Decodes every symbol the register can complete, as `process_byte` does:
/// symbols leave from below the pending bits at the current width, each one
/// stepping the machine, until too few bits remain, the image finishes, or
/// an error stops the frame.
pub open spec fn drain_register(
    frame: ImageArea,
    section: int,
    colors: Seq<u16>,
    transparency: Option<u8>,
    bit_buffer: u32,
    bit_count: u8,
    st: DecodeCore,
    h: Seq<RenderEvent>,
) -> (u32, u8, DecodeCore, Seq<RenderEvent>, Option<Error>)
    decreases bit_count,
{
    let c = st.lzw.current_symbol_size;
    if st.finished || c < 1 || c > bit_count as int {
        (bit_buffer, bit_count, st, h, None)
    } else {
        let sh: u32 = (32 - bit_count) as u32;
        let wp: u32 = (1u32 << (c as u32));
        let symbol: u16 = ((bit_buffer & (((wp - 1) as u32) << sh)) >> sh) as u16;
        let bc2: u8 = (bit_count - c) as u8;
        let step = sym_step(frame, section, colors, transparency, st, h, symbol);
        if step.2 is Some {
            (bit_buffer, bc2, step.0, step.1, step.2)
        } else {
            drain_register(frame, section, colors, transparency, bit_buffer, bc2, step.0,
                step.1)
        }
    }
}

/// Feeds the data bytes of one sub-block into the register, draining after
/// each byte.  Once the image is finished, remaining bytes are consumed
/// without effect, as the decoder drains them.
pub open spec fn run_bytes(
    frame: ImageArea,
    section: int,
    colors: Seq<u16>,
    transparency: Option<u8>,
    bit_buffer: u32,
    bit_count: u8,
    st: DecodeCore,
    h: Seq<RenderEvent>,
    bytes: Seq<u8>,
) -> (u32, u8, DecodeCore, Seq<RenderEvent>, Option<Error>)
    decreases bytes.len(),
{
    if bytes.len() == 0 {
        (bit_buffer, bit_count, st, h, None)
    } else if st.finished {
        run_bytes(frame, section, colors, transparency, bit_buffer, bit_count, st, h,
            bytes.drop_first())
    } else {
        let bb2 = (bit_buffer >> 8) | ((bytes[0] as u32) << 24);
        let bc2 = (bit_count + 8) as u8;
        let d = drain_register(frame, section, colors, transparency, bb2, bc2, st, h);
        if d.4 is Some {
            d
        } else {
            run_bytes(frame, section, colors, transparency, d.0, d.1, d.2, d.3,
                bytes.drop_first())
        }
    }
}

/// Decodes a whole image-data stream of sub-blocks — each block's length
/// byte, its data bytes, and the zero terminator — assuming every renderer
/// call succeeds.  A stream that runs dry is `FileEnded`; otherwise the
/// first symbol error stops it.
pub open spec fn run_chain(
    frame: ImageArea,
    section: int,
    colors: Seq<u16>,
    transparency: Option<u8>,
    bit_buffer: u32,
    bit_count: u8,
    st: DecodeCore,
    h: Seq<RenderEvent>,
    stream: Seq<u8>,
) -> (u32, u8, DecodeCore, Seq<RenderEvent>, Option<Error>)
    decreases stream.len(),
{
    if stream.len() == 0 {
        (bit_buffer, bit_count, st, h, Some(Error::FileEnded))
    } else if stream[0] == 0 {
        (bit_buffer, bit_count, st, h, None)
    } else if stream.len() < 1 + stream[0] as int {
        let r1 = run_bytes(frame, section, colors, transparency, bit_buffer, bit_count, st, h,
            stream.drop_first());
        if r1.4 is Some {
            r1
        } else {
            (r1.0, r1.1, r1.2, r1.3, Some(Error::FileEnded))
        }
    } else {
        let r1 = run_bytes(frame, section, colors, transparency, bit_buffer, bit_count, st, h,
            stream.subrange(1, 1 + stream[0] as int));
        if r1.4 is Some {
            r1
        } else {
            run_chain(frame, section, colors, transparency, r1.0, r1.1, r1.2, r1.3,
                stream.skip(1 + stream[0] as int))
        }
    }
}

} // verus!
