use vstd::prelude::*;
use crate::byte_source::ByteSource;
use crate::frame_decoder::{
    FrameDecoder, GifFrameMetadata, GraphicsControlExtension, ImageArea, DecodeCore, run_chain,
};
use crate::frame_decoder::LzwEntry;
use crate::lzw::LzwState;
use crate::sink::SinkState;
use crate::gif_error::Error;
use crate::renderer::{ImageRenderer, RenderEvent};
use crate::sink::frame_delta;
use crate::util::{color565_from_rgb, spec_color565};

verus! {

/// Largest accepted width or height of the logical screen.
pub const MAX_SIZE: u16 = 360;

/// Length of the chain-expansion stack.
pub const REVERSE_BUF_LEN: usize = 512;

/// Length of the line batcher's output buffer: twenty 240-pixel lines.
pub const OUT_BUF_LEN: usize = 240 * 20;

/// A byte source that can start over from its beginning, for looping
/// animations.  `origin` is the full stream the source was built over.
pub trait Rewindable: ByteSource {
    /// The bytes the source yields when fresh or rewound.
    spec fn origin(&self) -> Seq<u8>;

    /// Returns to the start of the stream, or fails with `RewindError`.
    fn rewind(&mut self) -> (r: Result<(), Error>)
        ensures
            r is Ok ==> final(self).remaining() == old(self).origin() && final(self).origin()
                == old(self).origin(),
            r is Err ==> r == Err::<(), Error>(Error::RewindError),
    ;
}

/// The logical-screen metadata of a GIF file.
#[derive(Clone, Copy, Debug)]
pub struct GifFileMetadata {
    pub width: u16,
    pub height: u16,
    pub global_color_table_size: usize,
    pub has_global_color_table: bool,
}

/// A 16-bit little-endian quantity, as the wire format stores it.
pub open spec fn le16(lo: u8, hi: u8) -> int {
    lo as int + 256 * (hi as int)
}

/// The six header bytes every accepted file must start with: `GIF89a`.
pub open spec fn header_ok(s: Seq<u8>) -> bool {
    &&& s.len() >= 6
    &&& s[0] == 0x47u8
    &&& s[1] == 0x49u8
    &&& s[2] == 0x46u8
    &&& s[3] == 0x38u8
    &&& s[4] == 0x39u8
    &&& s[5] == 0x61u8
}

/// The logical screen descriptor, read from its seven bytes.
pub open spec fn spec_screen_descriptor(s: Seq<u8>) -> GifFileMetadata {
    GifFileMetadata {
        width: le16(s[0], s[1]) as u16,
        height: le16(s[2], s[3]) as u16,
        has_global_color_table: (s[4] & 0x80) != 0,
        global_color_table_size: (1usize << (((s[4] & 0x07) + 1) as usize)),
    }
}

/// A graphics-control extension, read from its five bytes: the packed
/// fields, the delay in hundredths of a second, the transparency index and
/// the block terminator.
pub open spec fn spec_graphics_control(s: Seq<u8>) -> GraphicsControlExtension {
    GraphicsControlExtension {
        millis_delay: (le16(s[1], s[2]) * 10) as u32,
        has_transparency: (s[0] & 1) != 0,
        transparency_index: s[3],
    }
}

/// An image descriptor, read from its nine bytes after the separator.
pub open spec fn spec_image_descriptor(
    s: Seq<u8>,
    extension: Option<GraphicsControlExtension>,
) -> GifFrameMetadata {
    GifFrameMetadata {
        frame_area: ImageArea {
            xpos: le16(s[0], s[1]) as u16,
            ypos: le16(s[2], s[3]) as u16,
            width: le16(s[4], s[5]) as u16,
            height: le16(s[6], s[7]) as u16,
        },
        has_local_color_table: (s[8] & 0x80) != 0,
        local_color_table_size: (1usize << (((s[8] & 0x07) + 1) as usize)),
        extension,
    }
}

/// How many bytes a chain of sub-blocks occupies, terminator included, or
/// `None` when the stream ends inside it.
pub open spec fn skip_subblocks(s: Seq<u8>) -> Option<int>
    decreases s.len(),
{
    if s.len() == 0 {
        None
    } else if s[0] == 0 {
        Some(1)
    } else if s.len() < 1 + s[0] as int {
        None
    } else {
        match skip_subblocks(s.skip(1 + s[0] as int)) {
            Some(k) => Some(1 + s[0] as int + k),
            None => None,
        }
    }
}

/// What searching the block stream for the next image descriptor finds.
pub enum FrameScan {
    /// An image descriptor starts `at` bytes in, with the last
    /// graphics-control extension seen on the way, if any.
    Found { at: int, ext: Option<GraphicsControlExtension> },
    /// The file trailer.
    Ended,
    /// A byte that introduces no block.
    BadIntroducer,
    /// The stream ended first.
    TooShort,
    /// A graphics-control extension without its zero terminator.
    BadTerminator,
}

/// Walks the block stream — image separator, extensions, trailer — exactly
/// as `parse_frame_metadata` does, and says where it stops.
pub open spec fn scan_frame(s: Seq<u8>, ext: Option<GraphicsControlExtension>) -> FrameScan
    decreases s.len(),
{
    if s.len() == 0 {
        FrameScan::TooShort
    } else if s[0] == 0x2C {
        FrameScan::Found { at: 1, ext }
    } else if s[0] == 0x3B {
        FrameScan::Ended
    } else if s[0] != 0x21 {
        FrameScan::BadIntroducer
    } else if s.len() < 3 {
        FrameScan::TooShort
    } else if s[1] == 0xF9 {
        if s.len() < 8 {
            FrameScan::TooShort
        } else if s[7] != 0 {
            FrameScan::BadTerminator
        } else {
            match scan_frame(s.skip(8), Some(spec_graphics_control(s.skip(3)))) {
                FrameScan::Found { at, ext } => FrameScan::Found { at: at + 8, ext },
                other => other,
            }
        }
    } else {
        match skip_subblocks(s.skip(2)) {
            None => FrameScan::TooShort,
            Some(k) => if 1 <= k && 2 + k <= s.len() {
                match scan_frame(s.skip(2 + k), ext) {
                    FrameScan::Found { at, ext } => FrameScan::Found { at: at + 2 + k, ext },
                    other => other,
                }
            } else {
                // skip_subblocks never answers this (see its bounds lemma)
                FrameScan::TooShort
            },
        }
    }
}

/// A chain of sub-blocks occupies at least its terminator and at most the
/// whole stream.
pub proof fn lemma_skip_subblocks_bounds(s: Seq<u8>)
    requires
        skip_subblocks(s) is Some,
    ensures
        1 <= skip_subblocks(s).unwrap() <= s.len(),
    decreases s.len(),
{
    if s.len() == 0 {
    } else if s[0] == 0 {
    } else if s.len() < 1 + s[0] as int {
    } else {
        lemma_skip_subblocks_bounds(s.skip(1 + s[0] as int));
    }
}

/// The state a frame decoder starts in for a given initial LZW code size:
/// the dictionary holds only the implicit literals and the two control
/// codes, the batcher is empty, and nothing has finished.
pub open spec fn fresh_core(initial_lzw_size: u8) -> DecodeCore {
    DecodeCore {
        lzw: LzwState {
            clear_code: (1u16 << (initial_lzw_size as u16)) as int,
            initial_symbol_size: initial_lzw_size as int + 1,
            current_symbol_size: initial_lzw_size as int + 1,
            table_index: (1u16 << (initial_lzw_size as u16)) as int + 1,
            table: Seq::new(4096nat, |i: int| (LzwEntry { first: 0, last: 0 })),
            last_symbol: None,
        },
        sink: SinkState {
            buf: Seq::new(OUT_BUF_LEN as nat, |i: int| 0u8),
            index: 0,
            line: 0,
        },
        finished: false,
    }
}

/// Streaming GIF decoder.
///
/// Owns a byte source serving a GIF file and a renderer, and decodes the
/// file frame by frame: `parse_gif_metadata` once, then for each frame
/// `parse_frame_metadata` followed by `decode_frame_image`.
pub struct GifDecoder<DS, R> {
    pub data_source: DS,
    pub renderer: R,
    pub file_metadata: Option<GifFileMetadata>,
    pub current_frame_metadata: Option<GifFrameMetadata>,
    pub global_color_table: Vec<u16>,
    pub current_local_color_table: Vec<u16>,
}

impl<DS: ByteSource, R: ImageRenderer> GifDecoder<DS, R> {
    /// Both color tables hold exactly 256 slots.
    pub open spec fn wf(self) -> bool {
        &&& self.global_color_table@.len() == 256
        &&& self.current_local_color_table@.len() == 256
    }

    /// Everything but the byte source kept as it was.
    pub open spec fn only_source_changed(a: Self, b: Self) -> bool {
        &&& b.renderer == a.renderer
        &&& b.file_metadata == a.file_metadata
        &&& b.current_frame_metadata == a.current_frame_metadata
        &&& b.global_color_table@ == a.global_color_table@
        &&& b.current_local_color_table@ == a.current_local_color_table@
    }

    /// Takes ownership of the source and the renderer; the color tables and
    /// the working buffers of the frame decoder live inside.
    pub fn new(data_source: DS, renderer: R) -> (d: Self)
        ensures
            d.wf(),
            d.data_source == data_source,
            d.renderer == renderer,
            d.file_metadata is None,
            d.current_frame_metadata is None,
    {
        GifDecoder {
            data_source,
            renderer,
            file_metadata: None,
            current_frame_metadata: None,
            global_color_table: vec![0u16; 256],
            current_local_color_table: vec![0u16; 256],
        }
    }

    /// Pulls one byte from the source; an exhausted source is `FileEnded`.
    fn next_byte(&mut self) -> (r: Result<u8, Error>)
        requires
            old(self).wf(),
        ensures
            final(self).wf(),
            Self::only_source_changed(*old(self), *final(self)),
            match r {
                Ok(b) => old(self).data_source.remaining().len() > 0 && b == old(self).data_source.remaining()[0] && final(self).data_source.remaining() == old(self).data_source.remaining().drop_first(),
                Err(e) => e == Error::FileEnded && old(self).data_source.remaining().len() == 0
                    && final(self).data_source.remaining() == old(self).data_source.remaining(),
            },
    {
        match self.data_source.next() {
            Some(b) => Ok(b),
            None => Err(Error::FileEnded),
        }
    }

    /// Pulls a 16-bit little-endian quantity.
    fn next_short(&mut self) -> (r: Result<u16, Error>)
        requires
            old(self).wf(),
        ensures
            final(self).wf(),
            Self::only_source_changed(*old(self), *final(self)),
            match r {
                Ok(v) => old(self).data_source.remaining().len() >= 2 && v as int == le16(
                    old(self).data_source.remaining()[0],
                    old(self).data_source.remaining()[1],
                ) && final(self).data_source.remaining() == old(self).data_source.remaining().skip(2),
                Err(e) => e == Error::FileEnded && old(self).data_source.remaining().len() < 2
                    && final(self).data_source.remaining().len() == 0,
            },
    {
        let lo = self.next_byte()?;
        let hi = self.next_byte()?;
        let v: u16 = (lo as u16) | ((hi as u16) << 8);
        proof {
            let l: u16 = lo as u16;
            let h: u16 = hi as u16;
            assert(l < 256 && h < 256 ==> (l | (h << 8)) == l + 256 * h) by (bit_vector);
            assert(old(self).data_source.remaining().drop_first().drop_first() =~= old(self).data_source.remaining().skip(2));
        }
        Ok(v)
    }

    /// Checks the magic number and version of the file: `GIF89a`.
    fn validate_header(&mut self) -> (r: Result<(), Error>)
        requires
            old(self).wf(),
        ensures
            final(self).wf(),
            Self::only_source_changed(*old(self), *final(self)),
            ({
                let s = old(self).data_source.remaining();
                &&& (r is Ok <==> header_ok(s))
                &&& (r is Ok ==> final(self).data_source.remaining() == s.skip(6))
                &&& (r == Err::<(), Error>(Error::WrongFiletype) <==> s.len() >= 6
                    && !header_ok(s))
                &&& (r == Err::<(), Error>(Error::FileEnded) <==> s.len() < 6)
            }),
    {
        let ghost s = self.data_source.remaining();
        let b0 = self.next_byte()?;
        let b1 = self.next_byte()?;
        let b2 = self.next_byte()?;
        let b3 = self.next_byte()?;
        let b4 = self.next_byte()?;
        let b5 = self.next_byte()?;
        proof {
            assert(final(self).data_source.remaining() =~= s.skip(6));
        }
        if b0 == 0x47 && b1 == 0x49 && b2 == 0x46 && b3 == 0x38 && b4 == 0x39 && b5 == 0x61 {
            Ok(())
        } else {
            Err(Error::WrongFiletype)
        }
    }

    /// Reads the seven-byte logical screen descriptor.  The background color
    /// index and the aspect ratio are read and ignored.
    fn parse_logical_screen_descriptor(&mut self) -> (r: Result<GifFileMetadata, Error>)
        requires
            old(self).wf(),
        ensures
            final(self).wf(),
            Self::only_source_changed(*old(self), *final(self)),
            ({
                let s = old(self).data_source.remaining();
                match r {
                    Ok(m) => s.len() >= 7 && m == spec_screen_descriptor(s) && final(self).data_source.remaining() == s.skip(7),
                    Err(e) => e == Error::FileEnded && s.len() < 7,
                }
            }),
    {
        let ghost s = self.data_source.remaining();
        let width = self.next_short()?;
        let height = self.next_short()?;
        let packed_fields = self.next_byte()?;
        let _background_color_index = self.next_byte()?;
        self.next_byte()?;  // aspect ratio, ignored

        let has_global_color_table = (packed_fields & (1u8 << 7)) != 0;
        proof {
            assert((packed_fields & 0b00000111) <= 7) by (bit_vector);
        }
        let table_bits = (packed_fields & 0b00000111) + 1;
        let global_color_table_size: usize = 1usize << (table_bits as usize);

        proof {
            assert(s.skip(2).skip(2) =~= s.skip(4));
            assert(s.skip(4).drop_first() =~= s.skip(5));
            assert(s.skip(5).drop_first() =~= s.skip(6));
            assert(s.skip(6).drop_first() =~= s.skip(7));
            assert((packed_fields & (1u8 << 7)) == (packed_fields & 0x80)) by (bit_vector);
        }

        Ok(GifFileMetadata {
            width,
            height,
            has_global_color_table,
            global_color_table_size,
        })
    }

    /// Reads `size` three-byte color triples into the global color table,
    /// packing each as RGB565.  Slots beyond `size` keep their old bytes.
    fn parse_global_color_table(&mut self, size: usize) -> (r: Result<(), Error>)
        requires
            old(self).wf(),
            size <= 256,
        ensures
            final(self).wf(),
            final(self).renderer == old(self).renderer,
            final(self).file_metadata == old(self).file_metadata,
            final(self).current_frame_metadata == old(self).current_frame_metadata,
            final(self).current_local_color_table@ == old(self).current_local_color_table@,
            ({
                let s = old(self).data_source.remaining();
                match r {
                    Ok(()) => s.len() >= 3 * size && final(self).data_source.remaining()
                        == s.skip(3 * size) && (forall|i: int|
                        0 <= i < size ==> final(self).global_color_table@[i] == spec_color565(
                            s[3 * i],
                            s[3 * i + 1],
                            s[3 * i + 2],
                        )) && (forall|i: int|
                        size <= i < 256 ==> final(self).global_color_table@[i] == old(self).global_color_table@[i]),
                    Err(e) => e == Error::FileEnded && s.len() < 3 * size,
                }
            }),
    {
        let ghost s = self.data_source.remaining();
        let mut i: usize = 0;
        while i < size
            invariant
                i <= size,
                size <= 256,
                self.wf(),
                self.renderer == old(self).renderer,
                self.file_metadata == old(self).file_metadata,
                self.current_frame_metadata == old(self).current_frame_metadata,
                self.current_local_color_table@ == old(self).current_local_color_table@,
                s == old(self).data_source.remaining(),
                s.len() >= 3 * i,
                self.data_source.remaining() == s.skip(3 * i),
                forall|j: int|
                    0 <= j < i ==> self.global_color_table@[j] == spec_color565(
                        s[3 * j],
                        s[3 * j + 1],
                        s[3 * j + 2],
                    ),
                forall|j: int|
                    i <= j < 256 ==> self.global_color_table@[j] == old(self).global_color_table@[j],
            decreases size - i,
        {
            let r = self.next_byte()?;
            let g = self.next_byte()?;
            let b = self.next_byte()?;

            self.global_color_table[i] = color565_from_rgb(r, g, b);
            proof {
                assert(s.skip(3 * i as int).drop_first().drop_first().drop_first() =~= s.skip(
                    3 * (i as int + 1),
                ));
            }
            i = i + 1;
        }
        Ok(())
    }

    /// Reads `size` three-byte color triples into the local color table of
    /// the current frame, packing each as RGB565.
    fn parse_local_color_table(&mut self, size: usize) -> (r: Result<(), Error>)
        requires
            old(self).wf(),
            size <= 256,
        ensures
            final(self).wf(),
            final(self).renderer == old(self).renderer,
            final(self).file_metadata == old(self).file_metadata,
            final(self).current_frame_metadata == old(self).current_frame_metadata,
            final(self).global_color_table@ == old(self).global_color_table@,
            ({
                let s = old(self).data_source.remaining();
                match r {
                    Ok(()) => s.len() >= 3 * size && final(self).data_source.remaining()
                        == s.skip(3 * size) && (forall|i: int|
                        0 <= i < size ==> final(self).current_local_color_table@[i]
                            == spec_color565(s[3 * i], s[3 * i + 1], s[3 * i + 2])) && (forall|
                        i: int,
                    |
                        size <= i < 256 ==> final(self).current_local_color_table@[i] == old(self).current_local_color_table@[i]),
                    Err(e) => e == Error::FileEnded && s.len() < 3 * size,
                }
            }),
    {
        let ghost s = self.data_source.remaining();
        let mut i: usize = 0;
        while i < size
            invariant
                i <= size,
                size <= 256,
                self.wf(),
                self.renderer == old(self).renderer,
                self.file_metadata == old(self).file_metadata,
                self.current_frame_metadata == old(self).current_frame_metadata,
                self.global_color_table@ == old(self).global_color_table@,
                s == old(self).data_source.remaining(),
                s.len() >= 3 * i,
                self.data_source.remaining() == s.skip(3 * i),
                forall|j: int|
                    0 <= j < i ==> self.current_local_color_table@[j] == spec_color565(
                        s[3 * j],
                        s[3 * j + 1],
                        s[3 * j + 2],
                    ),
                forall|j: int|
                    i <= j < 256 ==> self.current_local_color_table@[j] == old(self).current_local_color_table@[j],
            decreases size - i,
        {
            let r = self.next_byte()?;
            let g = self.next_byte()?;
            let b = self.next_byte()?;

            self.current_local_color_table[i] = color565_from_rgb(r, g, b);
            proof {
                assert(s.skip(3 * i as int).drop_first().drop_first().drop_first() =~= s.skip(
                    3 * (i as int + 1),
                ));
            }
            i = i + 1;
        }
        Ok(())
    }

    /// Parses and consumes the initial metadata of the file: the header, the
    /// logical screen descriptor, and the global color table when one is
    /// declared.  A screen wider or taller than `MAX_SIZE` is refused.
    pub fn parse_gif_metadata(&mut self) -> (r: Result<(), Error>)
        requires
            old(self).wf(),
        ensures
            final(self).wf(),
            final(self).renderer == old(self).renderer,
            final(self).current_frame_metadata == old(self).current_frame_metadata,
            final(self).current_local_color_table@ == old(self).current_local_color_table@,
            r is Err ==> final(self).file_metadata == old(self).file_metadata,
            ({
                let s = old(self).data_source.remaining();
                &&& (s.len() < 6 ==> r == Err::<(), Error>(Error::FileEnded))
                &&& (s.len() >= 6 && !header_ok(s) ==> r == Err::<(), Error>(
                    Error::WrongFiletype,
                ))
                &&& (header_ok(s) && s.skip(6).len() < 7 ==> r == Err::<(), Error>(
                    Error::FileEnded,
                ))
                &&& (header_ok(s) && s.skip(6).len() >= 7 ==> {
                    let m = spec_screen_descriptor(s.skip(6));
                    &&& (m.width > MAX_SIZE || m.height > MAX_SIZE ==> r == Err::<(), Error>(
                        Error::ImageTooBig,
                    ))
                    &&& (m.width <= MAX_SIZE && m.height <= MAX_SIZE ==> {
                        let rest = s.skip(13);
                        &&& (m.has_global_color_table && rest.len() < 3
                            * m.global_color_table_size ==> r == Err::<(), Error>(
                            Error::FileEnded,
                        ))
                        &&& (r is Ok ==> final(self).file_metadata == Some(m) && (
                        m.has_global_color_table ==> rest.len() >= 3 * m.global_color_table_size
                            && final(self).data_source.remaining() == rest.skip(
                            3 * m.global_color_table_size,
                        ) && (forall|i: int|
                            0 <= i < m.global_color_table_size
                                ==> final(self).global_color_table@[i] == spec_color565(
                                rest[3 * i],
                                rest[3 * i + 1],
                                rest[3 * i + 2],
                            ))) && (!m.has_global_color_table ==> final(self).data_source.remaining() == rest && final(self).global_color_table@
                            == old(self).global_color_table@))
                        &&& (m.has_global_color_table ==> (r is Ok <==> rest.len() >= 3
                            * m.global_color_table_size))
                        &&& (!m.has_global_color_table ==> r is Ok)
                    })
                })
            }),
    {
        self.validate_header()?;
        let metadata = self.parse_logical_screen_descriptor()?;

        if metadata.width > MAX_SIZE || metadata.height > MAX_SIZE {
            return Err(Error::ImageTooBig);
        }
        if metadata.has_global_color_table {
            proof {
                let packed = old(self).data_source.remaining().skip(6)[4];
                assert((1usize << ((((packed & 0x07) + 1)) as usize)) <= 256) by (bit_vector);
            }
            self.parse_global_color_table(metadata.global_color_table_size)?;
        }
        self.file_metadata = Some(metadata);

        Ok(())
    }

    /// Reads a graphics-control extension.  The introducer, the label and
    /// the block size were consumed by the caller; five bytes follow: the
    /// packed fields, the delay, the transparency index and the terminator.
    fn parse_graphics_control_extension(&mut self) -> (r: Result<
        GraphicsControlExtension,
        Error,
    >)
        requires
            old(self).wf(),
        ensures
            final(self).wf(),
            Self::only_source_changed(*old(self), *final(self)),
            ({
                let s = old(self).data_source.remaining();
                match r {
                    Ok(e) => s.len() >= 5 && s[4] == 0 && e == spec_graphics_control(s)
                        && final(self).data_source.remaining() == s.skip(5),
                    Err(e) => (e == Error::FileEnded <==> s.len() < 5) && (e
                        == Error::MissingBlockterminator <==> s.len() >= 5 && s[4] != 0) && (e
                        == Error::FileEnded || e == Error::MissingBlockterminator),
                }
            }),
    {
        let ghost s = self.data_source.remaining();
        let packed_fields = self.next_byte()?;
        let hundredths_delay = self.next_short()?;
        let transparency_index = self.next_byte()?;

        let has_transparency = packed_fields & 1 != 0;

        let terminator = self.next_byte()?;
        proof {
            assert(s.drop_first().skip(2) =~= s.skip(3));
            assert(s.skip(3).drop_first() =~= s.skip(4));
            assert(s.skip(4).drop_first() =~= s.skip(5));
        }
        if terminator != 0 {
            return Err(Error::MissingBlockterminator);
        }

        Ok(GraphicsControlExtension {
            millis_delay: hundredths_delay as u32 * 10,
            has_transparency,
            transparency_index,
        })
    }

    /// Reads an image descriptor.  The image separator was consumed by the
    /// caller; nine bytes follow.  An interlaced image is refused, and so is
    /// a frame wider or taller than `MAX_SIZE`.
    fn parse_image_descriptor(&mut self, extension: Option<GraphicsControlExtension>) -> (r:
        Result<GifFrameMetadata, Error>)
        requires
            old(self).wf(),
        ensures
            final(self).wf(),
            Self::only_source_changed(*old(self), *final(self)),
            ({
                let s = old(self).data_source.remaining();
                match r {
                    Ok(m) => s.len() >= 9 && m == spec_image_descriptor(s, extension) && (s[8]
                        & 0x40) == 0 && 1 <= m.frame_area.width <= MAX_SIZE
                        && m.frame_area.height <= MAX_SIZE && m.frame_area.ypos
                        + m.frame_area.height <= 65535 && final(self).data_source.remaining()
                        == s.skip(9),
                    Err(e) => {
                        &&& (e == Error::FileEnded <==> s.len() < 9)
                        &&& (e == Error::InterlacingNotSupported <==> s.len() >= 9 && (s[8]
                            & 0x40) != 0)
                        &&& (e == Error::ImageTooBig <==> s.len() >= 9 && (s[8] & 0x40) == 0
                            && (le16(s[4], s[5]) == 0 || le16(s[4], s[5]) > MAX_SIZE as int
                            || le16(s[6], s[7]) > MAX_SIZE as int || le16(s[2], s[3]) + le16(
                            s[6],
                            s[7],
                        ) > 65535))
                        &&& (e == Error::FileEnded || e == Error::InterlacingNotSupported || e
                            == Error::ImageTooBig)
                    },
                }
            }),
    {
        let ghost s = self.data_source.remaining();
        let xpos = self.next_short()?;
        let ypos = self.next_short()?;
        let width = self.next_short()?;
        let height = self.next_short()?;
        let packed_fields = self.next_byte()?;

        proof {
            assert(s.skip(2).skip(2) =~= s.skip(4));
            assert(s.skip(4).skip(2) =~= s.skip(6));
            assert(s.skip(6).skip(2) =~= s.skip(8));
            assert(s.skip(8).drop_first() =~= s.skip(9));
            assert((packed_fields & (1u8 << 7)) == (packed_fields & 0x80)) by (bit_vector);
            assert((packed_fields & (1u8 << 6)) == (packed_fields & 0x40)) by (bit_vector);
            assert((packed_fields & 0b00000111) <= 7) by (bit_vector);
        }

        let has_local_color_table = (packed_fields & (1u8 << 7)) != 0;
        let interlace = (packed_fields & (1u8 << 6)) != 0;
        let color_table_bits = packed_fields & 0b00000111;
        let local_color_table_size: usize = 1usize << ((color_table_bits + 1) as usize);

        if interlace {
            return Err(Error::InterlacingNotSupported);
        }
        // a frame the decoder could not place or batch is refused here:
        // zero-width frames divide nothing, and the bottom edge must stay
        // addressable in 16 bits
        if width == 0 || width > MAX_SIZE || height > MAX_SIZE {
            return Err(Error::ImageTooBig);
        }
        if (ypos as u32) + (height as u32) > 65535 {
            return Err(Error::ImageTooBig);
        }

        Ok(GifFrameMetadata {
            frame_area: ImageArea { xpos, ypos, width, height },
            local_color_table_size,
            has_local_color_table,
            extension,
        })
    }

    /// Parses and consumes the metadata of the next frame: every extension
    /// up to the image descriptor, the descriptor itself, and the local
    /// color table when one is declared.  Returns `GifEnded` at the file
    /// trailer: there is no frame left.
    #[verifier::rlimit(50)]
    pub fn parse_frame_metadata(&mut self) -> (r: Result<(), Error>)
        requires
            old(self).wf(),
        ensures
            final(self).wf(),
            final(self).renderer == old(self).renderer,
            final(self).file_metadata == old(self).file_metadata,
            final(self).global_color_table@ == old(self).global_color_table@,
            r is Err ==> final(self).current_frame_metadata == old(self).current_frame_metadata,
            // on success the frame on record fits the decoder: nonzero width
            // within the size cap, and a bottom edge addressable in 16 bits
            r is Ok ==> final(self).current_frame_metadata is Some && ({
                let m = final(self).current_frame_metadata.unwrap();
                &&& 1 <= m.frame_area.width <= MAX_SIZE
                &&& m.frame_area.height <= MAX_SIZE
                &&& m.frame_area.ypos + m.frame_area.height <= 65535
            }),
            ({
                let s = old(self).data_source.remaining();
                match scan_frame(s, None::<GraphicsControlExtension>) {
                    FrameScan::Ended => r == Err::<(), Error>(Error::GifEnded),
                    FrameScan::BadIntroducer => r == Err::<(), Error>(
                        Error::InvalidBlockintroducer,
                    ),
                    FrameScan::TooShort => r == Err::<(), Error>(Error::FileEnded),
                    FrameScan::BadTerminator => r == Err::<(), Error>(
                        Error::MissingBlockterminator,
                    ),
                    FrameScan::Found { at, ext } => {
                        let d = s.skip(at);
                        &&& (d.len() < 9 ==> r == Err::<(), Error>(Error::FileEnded))
                        &&& (d.len() >= 9 && (d[8] & 0x40) != 0 ==> r == Err::<(), Error>(
                            Error::InterlacingNotSupported,
                        ))
                        &&& (d.len() >= 9 && (d[8] & 0x40) == 0 && (le16(d[4], d[5]) == 0
                            || le16(d[4], d[5]) > MAX_SIZE as int || le16(d[6], d[7])
                            > MAX_SIZE as int || le16(d[2], d[3]) + le16(d[6], d[7]) > 65535)
                            ==> r == Err::<(), Error>(Error::ImageTooBig))
                        &&& (d.len() >= 9 && (d[8] & 0x40) == 0 && 1 <= le16(d[4], d[5])
                            <= MAX_SIZE as int && le16(d[6], d[7]) <= MAX_SIZE as int && le16(
                            d[2],
                            d[3],
                        ) + le16(d[6], d[7]) <= 65535 ==> {
                            let m = spec_image_descriptor(d, ext);
                            &&& (m.has_local_color_table ==> (r is Ok <==> d.skip(9).len()
                                >= 3 * m.local_color_table_size))
                            &&& (m.has_local_color_table && d.skip(9).len() < 3
                                * m.local_color_table_size ==> r == Err::<(), Error>(
                                Error::FileEnded,
                            ))
                            &&& (!m.has_local_color_table ==> r is Ok)
                            &&& (r is Ok ==> final(self).current_frame_metadata == Some(m)
                                && (!m.has_local_color_table ==> final(self).data_source.remaining() == d.skip(9) && final(self).current_local_color_table@ == old(self).current_local_color_table@)
                                && (m.has_local_color_table ==> final(self).data_source.remaining() == d.skip(9).skip(
                                3 * m.local_color_table_size,
                            ) && (forall|i: int|
                                0 <= i < m.local_color_table_size ==> final(self).current_local_color_table@[i] == spec_color565(
                                    d.skip(9)[3 * i],
                                    d.skip(9)[3 * i + 1],
                                    d.skip(9)[3 * i + 2],
                                ))))
                        })
                    },
                }
            }),
    {
        let ghost s0 = self.data_source.remaining();
        let mut extension: Option<GraphicsControlExtension> = None;

        loop
            invariant
                self.wf(),
                self.renderer == old(self).renderer,
                self.file_metadata == old(self).file_metadata,
                self.global_color_table@ == old(self).global_color_table@,
                self.current_local_color_table@ == old(self).current_local_color_table@,
                self.current_frame_metadata == old(self).current_frame_metadata,
                s0 == old(self).data_source.remaining(),
                self.data_source.remaining().len() <= s0.len(),
                self.data_source.remaining() == s0.skip(
                    s0.len() - self.data_source.remaining().len(),
                ),
                ({
                    let cur = self.data_source.remaining();
                    match scan_frame(cur, extension) {
                        FrameScan::Found { at, ext } => scan_frame(
                            s0,
                            None::<GraphicsControlExtension>,
                        ) == (FrameScan::Found { at: at + (s0.len() - cur.len()), ext }),
                        other => scan_frame(s0, None::<GraphicsControlExtension>) == other,
                    }
                }),
            decreases self.data_source.remaining().len(),
        {
            let ghost cur = self.data_source.remaining();
            let ghost off = s0.len() - cur.len();

            let block_introducer = self.next_byte()?;

            if block_introducer == 0x2C {
                // image descriptor: the frame begins here
                let ghost d = self.data_source.remaining();
                proof {
                    assert(scan_frame(cur, extension) == (FrameScan::Found {
                        at: 1,
                        ext: extension,
                    }));
                    assert(d =~= s0.skip(off + 1));
                }
                let metadata = self.parse_image_descriptor(extension)?;

                if metadata.has_local_color_table {
                    proof {
                        let packed = d[8];
                        assert((1usize << ((((packed & 0x07) + 1)) as usize)) <= 256) by (
                        bit_vector);
                        assert(d.skip(9) =~= self.data_source.remaining());
                    }
                    self.parse_local_color_table(metadata.local_color_table_size)?;
                }
                self.current_frame_metadata = Some(metadata);

                return Ok(());
            } else if block_introducer == 0x21 {
                // an extension: a graphics-control one is kept, others skipped
                let extension_label = self.next_byte()?;
                let mut block_size = self.next_byte()?;

                if extension_label == 0xF9 {
                    proof {
                        assert(self.data_source.remaining() =~= cur.skip(3));
                    }
                    let gce = self.parse_graphics_control_extension()?;
                    proof {
                        assert(cur.skip(3)[4] == cur[7]);
                        assert(cur.skip(3).skip(5) =~= cur.skip(8));
                        assert(self.data_source.remaining() =~= s0.skip(off + 8));
                    }
                    extension = Some(gce);
                } else {
                    // skip the sub-block chain of an unknown extension
                    let ghost c0 = cur.skip(2);
                    proof {
                        assert(seq![block_size] + self.data_source.remaining() =~= c0);
                    }
                    while block_size != 0
                        invariant
                            self.wf(),
                            self.renderer == old(self).renderer,
                            self.file_metadata == old(self).file_metadata,
                            self.global_color_table@ == old(self).global_color_table@,
                            self.current_local_color_table@ == old(self).current_local_color_table@,
                            self.current_frame_metadata == old(self).current_frame_metadata,
                            s0 == old(self).data_source.remaining(),
                            c0 == cur.skip(2),
                            cur == s0.skip(off),
                            off == s0.len() - cur.len(),
                            cur.len() >= 3,
                            cur[0] == 0x21u8,
                            cur[1] == extension_label,
                            extension_label != 0xF9u8,
                            ({
                                let chain = seq![block_size] + self.data_source.remaining();
                                &&& chain.len() <= c0.len()
                                &&& chain == c0.skip(c0.len() - chain.len())
                                &&& match skip_subblocks(chain) {
                                    Some(k) => skip_subblocks(c0) == Some(
                                        k + (c0.len() - chain.len()),
                                    ),
                                    None => skip_subblocks(c0) is None,
                                }
                            }),
                            ({
                                match scan_frame(cur, extension) {
                                    FrameScan::Found { at, ext } => scan_frame(
                                        s0,
                                        None::<GraphicsControlExtension>,
                                    ) == (FrameScan::Found { at: at + off, ext }),
                                    other => scan_frame(
                                        s0,
                                        None::<GraphicsControlExtension>,
                                    ) == other,
                                }
                            }),
                        decreases self.data_source.remaining().len(),
                    {
                        let ghost chain = seq![block_size] + self.data_source.remaining();
                        let ghost rem0 = self.data_source.remaining();
                        let mut i: u8 = 0;
                        while i < block_size
                            invariant
                                i <= block_size,
                                block_size != 0,
                                self.wf(),
                                self.renderer == old(self).renderer,
                                self.file_metadata == old(self).file_metadata,
                                self.global_color_table@ == old(self).global_color_table@,
                                self.current_local_color_table@ == old(self).current_local_color_table@,
                                self.current_frame_metadata == old(self).current_frame_metadata,
                                s0 == old(self).data_source.remaining(),
                                c0 == cur.skip(2),
                                cur == s0.skip(off),
                                off == s0.len() - cur.len(),
                                cur.len() >= 3,
                                cur[0] == 0x21u8,
                                cur[1] == extension_label,
                                extension_label != 0xF9u8,
                                chain == seq![block_size] + rem0,
                                chain.len() <= c0.len(),
                                chain == c0.skip(c0.len() - chain.len()),
                                match skip_subblocks(chain) {
                                    Some(k) => skip_subblocks(c0) == Some(
                                        k + (c0.len() - chain.len()),
                                    ),
                                    None => skip_subblocks(c0) is None,
                                },
                                ({
                                    match scan_frame(cur, extension) {
                                        FrameScan::Found { at, ext } => scan_frame(
                                            s0,
                                            None::<GraphicsControlExtension>,
                                        ) == (FrameScan::Found { at: at + off, ext }),
                                        other => scan_frame(
                                            s0,
                                            None::<GraphicsControlExtension>,
                                        ) == other,
                                    }
                                }),
                                self.data_source.remaining() == rem0.skip(i as int),
                                rem0.len() >= i as int,
                            decreases block_size - i,
                        {
                            let b = self.next_byte();
                            if b.is_err() {
                                proof {
                                    assert(chain.len() == 1 + i as int);
                                    assert(chain.len() < 1 + block_size as int);
                                    assert(skip_subblocks(chain) is None);
                                }
                                return Err(Error::FileEnded);
                            }
                            proof {
                                assert(rem0.skip(i as int).drop_first() =~= rem0.skip(
                                    i as int + 1,
                                ));
                            }
                            i = i + 1;
                        }
                        proof {
                            assert(self.data_source.remaining() =~= chain.skip(
                                1 + block_size as int,
                            ));
                        }
                        let nb = self.next_byte();
                        match nb {
                            Ok(v) => {
                                proof {
                                    let chain2 = seq![v] + self.data_source.remaining();
                                    assert(chain2 =~= chain.skip(1 + block_size as int));
                                    assert(chain == c0.skip(c0.len() - chain.len()));
                                    assert(chain2 =~= c0.skip(c0.len() - chain2.len()));
                                }
                                block_size = v;
                            },
                            Err(_) => {
                                proof {
                                    assert(chain.len() == 1 + block_size as int);
                                    assert(chain.skip(1 + block_size as int).len() == 0);
                                    assert(skip_subblocks(chain.skip(1 + block_size as int))
                                        is None);
                                    assert(skip_subblocks(chain) is None);
                                }
                                return Err(Error::FileEnded);
                            },
                        }
                    }
                    proof {
                        let chain = seq![block_size] + self.data_source.remaining();
                        assert(skip_subblocks(chain) == Some(1int));
                        let k0 = 1 + (c0.len() - chain.len());
                        assert(skip_subblocks(c0) == Some(k0));
                        assert(1 <= k0 && 2 + k0 <= cur.len());
                        assert(self.data_source.remaining() =~= chain.drop_first());
                        assert(self.data_source.remaining() =~= cur.skip(2 + k0));
                        assert(self.data_source.remaining() =~= s0.skip(off + 2 + k0));
                    }
                }
            } else if block_introducer == 0x3B {
                return Err(Error::GifEnded);
            } else {
                return Err(Error::InvalidBlockintroducer);
            }
        }
    }

    /// The logical-screen metadata, once `parse_gif_metadata` has read it.
    pub fn get_gif_metadata(&self) -> (r: Option<&GifFileMetadata>)
        ensures
            match r {
                Some(m) => self.file_metadata == Some(*m),
                None => self.file_metadata is None,
            },
    {
        self.file_metadata.as_ref()
    }

    /// A fresh copy of one color table, for the frame decoder to own.
    fn copy_color_table(table: &Vec<u16>) -> (r: Vec<u16>)
        ensures
            r@ == table@,
    {
        let mut r: Vec<u16> = Vec::new();
        let mut i: usize = 0;
        while i < table.len()
            invariant
                i <= table@.len(),
                r@ == table@.take(i as int),
            decreases table@.len() - i,
        {
            r.push(table[i]);
            i = i + 1;
            proof {
                assert(r@ =~= table@.take(i as int));
            }
        }
        proof {
            assert(table@.take(table@.len() as int) =~= table@);
        }
        r
    }

    /// Decodes and consumes the image data of the current frame.  The first
    /// byte is the initial LZW code size; the sub-blocks after it feed the
    /// frame decoder.  The renderer receives the frame as contiguous
    /// `write_area` rectangles, and — when the stop code closed the image —
    /// one final `flush_frame` after the last of them, the frame then fully
    /// painted.
    pub fn decode_frame_image(&mut self) -> (r: Result<(), Error>)
        requires
            old(self).wf(),
            old(self).current_frame_metadata is Some,
            ({
                let m = old(self).current_frame_metadata.unwrap();
                &&& 1 <= m.frame_area.width <= MAX_SIZE
                &&& m.frame_area.height <= MAX_SIZE
                &&& m.frame_area.ypos + m.frame_area.height <= 65535
            }),
        ensures
            final(self).wf(),
            final(self).file_metadata == old(self).file_metadata,
            final(self).current_frame_metadata == old(self).current_frame_metadata,
            final(self).global_color_table@ == old(self).global_color_table@,
            final(self).current_local_color_table@ == old(self).current_local_color_table@,
            old(self).data_source.remaining().len() == 0 ==> r == Err::<(), Error>(
                Error::FileEnded,
            ),
            // a code size the wire format does not allow is refused
            ({
                let s = old(self).data_source.remaining();
                s.len() >= 1 && !(2 <= s[0] <= 8) ==> r == Err::<(), Error>(
                    Error::InvalidSymbol,
                )
            }),
            // a legal code size followed by the empty sub-block chain is a
            // complete, if pixel-less, image data section: it cannot fail
            ({
                let s = old(self).data_source.remaining();
                s.len() >= 2 && 2 <= s[0] <= 8 && s[1] == 0 ==> r is Ok && final(self).renderer == old(self).renderer
            }),
            r is Err ==> r == Err::<(), Error>(Error::FileEnded) || r == Err::<(), Error>(
                Error::InvalidSymbol,
            ) || r == Err::<(), Error>(Error::DecoderAlreadyFinished) || r == Err::<(), Error>(
                Error::ReverseBufferOverflow,
            ) || r == Err::<(), Error>(Error::RenderError),
            r is Ok ==> ({
                let m = old(self).current_frame_metadata.unwrap();
                exists|line: int, flushed: bool|
                    frame_delta(
                        old(self).renderer.history(),
                        final(self).renderer.history(),
                        m.frame_area,
                        0,
                        line,
                        flushed,
                    ) && (flushed ==> line == m.frame_area.height as int)
            }),
            // the sub-block stream after the code size byte decodes exactly
            // as the interpreter says, against the frame's color table and
            // transparency index; a failing renderer can only substitute its
            // own error for the outcome
            ({
                let s = old(self).data_source.remaining();
                let m = old(self).current_frame_metadata.unwrap();
                s.len() >= 1 && 2 <= s[0] <= 8 ==> ({
                    let run = run_chain(
                        m.frame_area,
                        OUT_BUF_LEN as int / m.frame_area.width as int,
                        if m.has_local_color_table {
                            old(self).current_local_color_table@
                        } else {
                            old(self).global_color_table@
                        },
                        match m.extension {
                            Some(e) => if e.has_transparency {
                                Some(e.transparency_index)
                            } else {
                                None
                            },
                            None => None::<u8>,
                        },
                        0u32,
                        0u8,
                        fresh_core(s[0]),
                        old(self).renderer.history(),
                        s.skip(1),
                    );
                    &&& (run.4 is None ==> r is Ok || r == Err::<(), Error>(
                        Error::RenderError,
                    ))
                    &&& (r is Ok ==> run.4 is None && final(self).renderer.history() == run.3)
                    &&& (run.4 is Some ==> r is Err && (r == Err::<(), Error>(run.4.unwrap())
                        || r == Err::<(), Error>(Error::RenderError)))
                })
            }),
            // on success, what left the source is the initial code size byte
            // and exactly one sub-block chain, terminator included
            r is Ok ==> ({
                let s = old(self).data_source.remaining();
                &&& s.len() >= 1
                &&& skip_subblocks(s.skip(1)) is Some
                &&& final(self).data_source.remaining() == s.skip(1).skip(
                    skip_subblocks(s.skip(1)).unwrap(),
                )
            }),
    {
        let ghost s = self.data_source.remaining();
        let initial_lzw_size = self.next_byte()?;
        proof {
            assert(self.data_source.remaining() =~= s.skip(1));
            assert(s.len() >= 2 ==> s.skip(1)[0] == s[1]);
        }
        if initial_lzw_size < 2 || initial_lzw_size > 8 {
            return Err(Error::InvalidSymbol);
        }

        let metadata = self.current_frame_metadata.unwrap();

        let color_table = if metadata.has_local_color_table {
            Self::copy_color_table(&self.current_local_color_table)
        } else {
            Self::copy_color_table(&self.global_color_table)
        };

        let mut frame_decoder = FrameDecoder::new(&metadata, color_table, initial_lzw_size);
        proof {
            assert(frame_decoder.decode_core() == fresh_core(initial_lzw_size));
        }

        let r = frame_decoder.decode_frame(&mut self.data_source, &mut self.renderer);
        proof {
            if r is Ok {
                let m = old(self).current_frame_metadata.unwrap();
                assert(frame_delta(
                    old(self).renderer.history(),
                    self.renderer.history(),
                    m.frame_area,
                    0,
                    frame_decoder.output_line as int,
                    frame_decoder.finished,
                ));
            }
        }
        r
    }

    /// Mutable access to the byte source, to manage it between frames.
    pub fn get_data_source(&mut self) -> (r: &mut DS)
        ensures
            *r == old(self).data_source,
            final(self).data_source == *final(r),
            final(self).renderer == old(self).renderer,
            final(self).file_metadata == old(self).file_metadata,
            final(self).current_frame_metadata == old(self).current_frame_metadata,
            final(self).global_color_table@ == old(self).global_color_table@,
            final(self).current_local_color_table@ == old(self).current_local_color_table@,
    {
        &mut self.data_source
    }
}

// optional rewind capability of the data source
impl<DS: Rewindable, R> GifDecoder<DS, R> {
    /// Starts the byte stream over, for the next pass of a looping
    /// animation.
    pub fn rewind(&mut self) -> (r: Result<(), Error>)
        ensures
            r is Ok ==> final(self).data_source.remaining() == old(self).data_source.origin(),
            r is Err ==> r == Err::<(), Error>(Error::RewindError),
            final(self).renderer == old(self).renderer,
            final(self).file_metadata == old(self).file_metadata,
            final(self).current_frame_metadata == old(self).current_frame_metadata,
            final(self).global_color_table@ == old(self).global_color_table@,
            final(self).current_local_color_table@ == old(self).current_local_color_table@,
    {
        self.data_source.rewind()
    }
}

} // verus!
