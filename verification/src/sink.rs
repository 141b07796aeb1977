use vstd::prelude::*;
use crate::frame_decoder::ImageArea;
use crate::renderer::RenderEvent;

verus! {

/// The line batcher of one frame: the output buffer, the number of pixels in
/// it, and the number of scan lines already flushed to the renderer.
pub struct SinkState {
    pub buf: Seq<u8>,
    pub index: int,
    pub line: int,
}

/// Feeding one pixel into the batcher: the pixel goes into the buffer; when
/// it fills a whole section, the section is handed to the renderer as one
/// `write_area` call — carrying the frame's color table and transparency
/// index — and the buffer restarts.
pub open spec fn feed_one(
    frame: ImageArea,
    section: int,
    colors: Seq<u16>,
    transparency: Option<u8>,
    s: SinkState,
    h: Seq<RenderEvent>,
    p: u8,
) -> (SinkState, Seq<RenderEvent>) {
    let buf2 = s.buf.update(s.index, p);
    if s.index + 1 == frame.width as int * section {
        (
            SinkState { buf: buf2, index: 0, line: s.line + section },
            h.push(
                RenderEvent::Write {
                    xpos: frame.xpos,
                    ypos: (frame.ypos + s.line) as u16,
                    width: frame.width,
                    height: section as u16,
                    pixels: buf2.take(frame.width as int * section),
                    colors: colors,
                    transparency: transparency,
                },
            ),
        )
    } else {
        (SinkState { buf: buf2, index: s.index + 1, line: s.line }, h)
    }
}

/// Feeding a pixel sequence into the batcher, oldest first.
pub open spec fn feed(
    frame: ImageArea,
    section: int,
    colors: Seq<u16>,
    transparency: Option<u8>,
    s: SinkState,
    h: Seq<RenderEvent>,
    ps: Seq<u8>,
) -> (SinkState, Seq<RenderEvent>)
    decreases ps.len(),
{
    if ps.len() == 0 {
        (s, h)
    } else {
        let next = feed_one(frame, section, colors, transparency, s, h, ps[0]);
        feed(frame, section, colors, transparency, next.0, next.1, ps.drop_first())
    }
}

/// A run of `write_area` calls that paints the frame area top to bottom:
/// every call has the frame's horizontal extent, starts exactly under the
/// previous one, carries one byte per pixel, and together they advance from
/// line `line0` to line `line1`.
pub open spec fn writes_shape(
    delta: Seq<RenderEvent>,
    frame: ImageArea,
    line0: int,
    line1: int,
) -> bool
    decreases delta.len(),
{
    if delta.len() == 0 {
        line0 == line1
    } else {
        match delta[0] {
            RenderEvent::Write { xpos, ypos, width, height, pixels, .. } => {
                &&& xpos == frame.xpos
                &&& width == frame.width
                &&& ypos == frame.ypos + line0
                &&& 1 <= height
                &&& pixels.len() == frame.width as int * height as int
                &&& writes_shape(delta.drop_first(), frame, line0 + height, line1)
            },
            RenderEvent::Flush => false,
        }
    }
}

/// The sum of the heights of the `write_area` calls in a run.
pub open spec fn height_sum(delta: Seq<RenderEvent>) -> int
    decreases delta.len(),
{
    if delta.len() == 0 {
        0
    } else {
        (match delta[0] {
            RenderEvent::Write { height, .. } => height as int,
            RenderEvent::Flush => 0,
        }) + height_sum(delta.drop_first())
    }
}

/// What a piece of decoding appends to a renderer history: the old history
/// stays untouched at the front; the new events are contiguous writes from
/// line `line0` to line `line1`, followed — exactly when `flushed` — by one
/// final `flush_frame` as the very last call.
pub open spec fn frame_delta(
    h0: Seq<RenderEvent>,
    h1: Seq<RenderEvent>,
    frame: ImageArea,
    line0: int,
    line1: int,
    flushed: bool,
) -> bool {
    &&& h0.len() <= h1.len()
    &&& h1.take(h0.len() as int) == h0
    &&& if flushed {
        let d = h1.skip(h0.len() as int);
        &&& d.len() >= 1
        &&& d.last() == RenderEvent::Flush
        &&& writes_shape(d.take(d.len() - 1), frame, line0, line1)
    } else {
        writes_shape(h1.skip(h0.len() as int), frame, line0, line1)
    }
}

/// Contiguous runs compose.
pub proof fn lemma_writes_shape_concat(
    d1: Seq<RenderEvent>,
    d2: Seq<RenderEvent>,
    frame: ImageArea,
    line0: int,
    line1: int,
    line2: int,
)
    requires
        writes_shape(d1, frame, line0, line1),
        writes_shape(d2, frame, line1, line2),
    ensures
        writes_shape(d1 + d2, frame, line0, line2),
    decreases d1.len(),
{
    if d1.len() == 0 {
        assert(d1 + d2 =~= d2);
    } else {
        lemma_writes_shape_concat(d1.drop_first(), d2, frame, line0 + (match d1[0] {
            RenderEvent::Write { height, .. } => height as int,
            RenderEvent::Flush => 0,
        }), line1, line2);
        assert((d1 + d2).drop_first() =~= d1.drop_first() + d2);
        assert((d1 + d2)[0] == d1[0]);
    }
}

/// A contiguous run advances by the sum of its heights.
pub proof fn lemma_writes_shape_height_sum(
    delta: Seq<RenderEvent>,
    frame: ImageArea,
    line0: int,
    line1: int,
)
    requires
        writes_shape(delta, frame, line0, line1),
    ensures
        height_sum(delta) == line1 - line0,
    decreases delta.len(),
{
    if delta.len() == 0 {
    } else {
        match delta[0] {
            RenderEvent::Write { height, .. } => {
                lemma_writes_shape_height_sum(delta.drop_first(), frame, line0 + height, line1);
            },
            RenderEvent::Flush => {},
        }
    }
}

/// A history extends itself by nothing.
pub proof fn lemma_frame_delta_refl(h: Seq<RenderEvent>, frame: ImageArea, line: int)
    ensures
        frame_delta(h, h, frame, line, line, false),
{
    assert(h.take(h.len() as int) =~= h);
    assert(h.skip(h.len() as int) =~= Seq::<RenderEvent>::empty());
}

/// Extensions of a history compose; a final flush stays final.
pub proof fn lemma_frame_delta_trans(
    h0: Seq<RenderEvent>,
    h1: Seq<RenderEvent>,
    h2: Seq<RenderEvent>,
    frame: ImageArea,
    line0: int,
    line1: int,
    line2: int,
    flushed: bool,
)
    requires
        frame_delta(h0, h1, frame, line0, line1, false),
        frame_delta(h1, h2, frame, line1, line2, flushed),
    ensures
        frame_delta(h0, h2, frame, line0, line2, flushed),
{
    let d1 = h1.skip(h0.len() as int);
    let d2 = h2.skip(h1.len() as int);
    assert(h2.take(h0.len() as int) =~= h0);
    assert(h2.skip(h0.len() as int) =~= d1 + d2);
    if flushed {
        let d = d1 + d2;
        assert(d.last() == d2.last());
        assert(d.take(d.len() - 1) =~= d1 + d2.take(d2.len() - 1));
        lemma_writes_shape_concat(d1, d2.take(d2.len() - 1), frame, line0, line1, line2);
    } else {
        lemma_writes_shape_concat(d1, d2, frame, line0, line1, line2);
    }
}

/// A history extended by one contiguous write.
pub proof fn lemma_frame_delta_one_write(
    h: Seq<RenderEvent>,
    ev: RenderEvent,
    frame: ImageArea,
    line0: int,
    line1: int,
)
    requires
        writes_shape(seq![ev], frame, line0, line1),
    ensures
        frame_delta(h, h.push(ev), frame, line0, line1, false),
{
    assert(h.push(ev).skip(h.len() as int) =~= seq![ev]);
    assert(h.push(ev).take(h.len() as int) =~= h);
}

/// Feeding a single pixel is one step of the batcher.
pub proof fn lemma_feed_singleton(
    frame: ImageArea,
    section: int,
    colors: Seq<u16>,
    transparency: Option<u8>,
    s: SinkState,
    h: Seq<RenderEvent>,
    p: u8,
)
    ensures
        feed(frame, section, colors, transparency, s, h, seq![p]) == feed_one(frame, section,
            colors, transparency, s, h, p),
{
    let ps = seq![p];
    let next = feed_one(frame, section, colors, transparency, s, h, ps[0]);
    assert(ps.drop_first() =~= Seq::<u8>::empty());
    assert(feed(frame, section, colors, transparency, next.0, next.1, ps.drop_first())
        == next);
}

/// Pixels that do not fill a section only land in the buffer: the history
/// and the line stay, the index advances by one per pixel.
pub proof fn lemma_feed_no_flush(
    frame: ImageArea,
    section: int,
    colors: Seq<u16>,
    transparency: Option<u8>,
    s: SinkState,
    h: Seq<RenderEvent>,
    ps: Seq<u8>,
)
    requires
        0 <= s.index,
        s.index + ps.len() < frame.width as int * section,
    ensures
        ({
            let r = feed(frame, section, colors, transparency, s, h, ps);
            &&& r.1 == h
            &&& r.0.index == s.index + ps.len()
            &&& r.0.line == s.line
        }),
    decreases ps.len(),
{
    if ps.len() == 0 {
    } else {
        let next = feed_one(frame, section, colors, transparency, s, h, ps[0]);
        assert(s.index + 1 < frame.width as int * section);
        assert(next.0.index == s.index + 1 && next.0.line == s.line && next.1 == h);
        lemma_feed_no_flush(frame, section, colors, transparency, next.0, next.1,
            ps.drop_first());
        assert(feed(frame, section, colors, transparency, s, h, ps) == feed(frame, section,
            colors, transparency, next.0, next.1, ps.drop_first()));
    }
}

/// The flushed line count never goes backward while pixels are fed.
pub proof fn lemma_feed_line_monotone(
    frame: ImageArea,
    section: int,
    colors: Seq<u16>,
    transparency: Option<u8>,
    s: SinkState,
    h: Seq<RenderEvent>,
    ps: Seq<u8>,
)
    requires
        0 <= section,
    ensures
        feed(frame, section, colors, transparency, s, h, ps).0.line >= s.line,
    decreases ps.len(),
{
    if ps.len() == 0 {
    } else {
        let next = feed_one(frame, section, colors, transparency, s, h, ps[0]);
        lemma_feed_line_monotone(frame, section, colors, transparency, next.0, next.1,
            ps.drop_first());
    }
}

/// Feeding a concatenation is feeding the parts in turn.
pub proof fn lemma_feed_concat(
    frame: ImageArea,
    section: int,
    colors: Seq<u16>,
    transparency: Option<u8>,
    s: SinkState,
    h: Seq<RenderEvent>,
    a: Seq<u8>,
    b: Seq<u8>,
)
    ensures
        ({
            let mid = feed(frame, section, colors, transparency, s, h, a);
            feed(frame, section, colors, transparency, s, h, a + b) == feed(frame, section,
                colors, transparency, mid.0, mid.1, b)
        }),
    decreases a.len(),
{
    if a.len() == 0 {
        assert(a + b =~= b);
    } else {
        let next = feed_one(frame, section, colors, transparency, s, h, a[0]);
        assert((a + b)[0] == a[0]);
        assert((a + b).drop_first() =~= a.drop_first() + b);
        lemma_feed_concat(frame, section, colors, transparency, next.0, next.1,
            a.drop_first(), b);
    }
}

} // verus!
