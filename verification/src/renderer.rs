use vstd::prelude::*;
use crate::frame_decoder::ImageArea;
use crate::gif_error::Error;

verus! {

/// One renderer call, as the specifications see it: a rectangle of palette
/// indices handed to `write_area`, or a `flush_frame`.
pub enum RenderEvent {
    Write {
        xpos: u16,
        ypos: u16,
        width: u16,
        height: u16,
        pixels: Seq<u8>,
        colors: Seq<u16>,
        transparency: Option<u8>,
    },
    Flush,
}

/// The sink that receives decoded pixel regions.  The spec function `history`
/// records every call the renderer has accepted, oldest first; the contracts
/// of the decoder are stated over that history.
pub trait ImageRenderer: Sized {
    /// Every call this renderer has accepted so far, oldest first.
    spec fn history(&self) -> Seq<RenderEvent>;

    /// Paints a rectangle of palette indices.  The first
    /// `area.width * area.height` bytes of `buffer` are the pixels of the
    /// rectangle, row-major; `color_table` maps each index to an RGB565
    /// color; a pixel equal to `transparency_index` is transparent.
    fn write_area(
        &mut self,
        area: ImageArea,
        buffer: &[u8],
        color_table: &[u16],
        transparency_index: Option<u8>,
    ) -> (r: Result<(), Error>)
        requires
            area.width as int * area.height as int <= buffer@.len(),
            color_table@.len() == 256,
        ensures
            r is Ok ==> final(self).history() == old(self).history().push(
                RenderEvent::Write {
                    xpos: area.xpos,
                    ypos: area.ypos,
                    width: area.width,
                    height: area.height,
                    pixels: buffer@.take(area.width as int * area.height as int),
                    colors: color_table@,
                    transparency: transparency_index,
                },
            ),
            r is Err ==> r == Err::<(), Error>(Error::RenderError),
    ;

    /// Marks the end of one frame; the last renderer call of the frame.
    fn flush_frame(&mut self) -> (r: Result<(), Error>)
        ensures
            r is Ok ==> final(self).history() == old(self).history().push(RenderEvent::Flush),
            r is Err ==> r == Err::<(), Error>(Error::RenderError),
    ;
}

/// One recorded `write_area` call.
pub struct RecordedWrite {
    pub xpos: u16,
    pub ypos: u16,
    pub width: u16,
    pub height: u16,
    pub pixels: Vec<u8>,
    pub colors: Vec<u16>,
    pub transparency_index: Option<u8>,
}

/// One recorded renderer call.
pub enum RecordedCall {
    Write(RecordedWrite),
    Flush,
}

/// How a recorded call reads as a history event.
pub open spec fn call_event(c: RecordedCall) -> RenderEvent {
    match c {
        RecordedCall::Write(w) => RenderEvent::Write {
            xpos: w.xpos,
            ypos: w.ypos,
            width: w.width,
            height: w.height,
            pixels: w.pixels@,
            colors: w.colors@,
            transparency: w.transparency_index,
        },
        RecordedCall::Flush => RenderEvent::Flush,
    }
}

/// A renderer that keeps every call it receives, for inspection.
pub struct RecordingRenderer {
    pub calls: Vec<RecordedCall>,
}

impl RecordingRenderer {
    /// A recorder with an empty history.
    pub fn new() -> (r: Self)
        ensures
            r.history() == Seq::<RenderEvent>::empty(),
            r.calls@.len() == 0,
    {
        let r = RecordingRenderer { calls: Vec::new() };
        proof {
            assert(r.history() =~= Seq::<RenderEvent>::empty());
        }
        r
    }
}

impl ImageRenderer for RecordingRenderer {
    open spec fn history(&self) -> Seq<RenderEvent> {
        self.calls@.map_values(|c: RecordedCall| call_event(c))
    }

    fn write_area(
        &mut self,
        area: ImageArea,
        buffer: &[u8],
        color_table: &[u16],
        transparency_index: Option<u8>,
    ) -> (r: Result<(), Error>) {
        proof {
            assert(area.width as int * area.height as int <= 0xFFFF * 0xFFFF) by (nonlinear_arith)
                requires
                    area.width <= 0xFFFF,
                    area.height <= 0xFFFF,
            ;
        }
        let n: usize = (area.width as usize) * (area.height as usize);
        let mut pixels: Vec<u8> = Vec::new();
        let mut i: usize = 0;
        while i < n
            invariant
                i <= n,
                n == area.width as int * area.height as int,
                n <= buffer@.len(),
                pixels@ == buffer@.take(i as int),
            decreases n - i,
        {
            pixels.push(buffer[i]);
            i = i + 1;
            proof {
                assert(pixels@ =~= buffer@.take(i as int));
            }
        }
        let mut colors: Vec<u16> = Vec::new();
        let mut j: usize = 0;
        while j < color_table.len()
            invariant
                j <= color_table@.len(),
                colors@ == color_table@.take(j as int),
            decreases color_table@.len() - j,
        {
            colors.push(color_table[j]);
            j = j + 1;
            proof {
                assert(colors@ =~= color_table@.take(j as int));
            }
        }
        proof {
            assert(colors@ =~= color_table@);
        }
        let w = RecordedWrite {
            xpos: area.xpos,
            ypos: area.ypos,
            width: area.width,
            height: area.height,
            pixels,
            colors,
            transparency_index,
        };
        self.calls.push(RecordedCall::Write(w));
        proof {
            assert(self.history() =~= old(self).history().push(
                RenderEvent::Write {
                    xpos: area.xpos,
                    ypos: area.ypos,
                    width: area.width,
                    height: area.height,
                    pixels: buffer@.take(area.width as int * area.height as int),
                    colors: color_table@,
                    transparency: transparency_index,
                },
            ));
        }
        Ok(())
    }

    fn flush_frame(&mut self) -> (r: Result<(), Error>) {
        self.calls.push(RecordedCall::Flush);
        proof {
            assert(self.history() =~= old(self).history().push(RenderEvent::Flush));
        }
        Ok(())
    }
}

} // verus!
