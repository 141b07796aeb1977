use gifdec::byte_source::{ByteSource, VecByteSource};
use gifdec::frame_decoder::ImageArea;
use gifdec::gif_decoder::{GifDecoder, Rewindable};
use gifdec::gif_error::Error;
use gifdec::renderer::{ImageRenderer, RenderEvent};
use vstd::prelude::Seq;

/// A sink that refuses every call, as a broken display would.
struct FailingRenderer;

impl ImageRenderer for FailingRenderer {
    fn history(&self) -> Seq<RenderEvent> {
        unreachable!()
    }

    fn write_area(
        &mut self,
        _area: ImageArea,
        _buffer: &[u8],
        _color_table: &[u16],
        _transparency_index: Option<u8>,
    ) -> Result<(), Error> {
        Err(Error::RenderError)
    }

    fn flush_frame(&mut self) -> Result<(), Error> {
        Err(Error::RenderError)
    }
}

/// A source that yields its bytes but cannot start over.
struct OneWaySource {
    inner: VecByteSource,
}

impl ByteSource for OneWaySource {
    fn remaining(&self) -> Seq<u8> {
        unreachable!()
    }

    fn next(&mut self) -> Option<u8> {
        self.inner.next()
    }
}

impl Rewindable for OneWaySource {
    fn origin(&self) -> Seq<u8> {
        unreachable!()
    }

    fn rewind(&mut self) -> Result<(), Error> {
        Err(Error::RewindError)
    }
}

fn minimal_1x1() -> Vec<u8> {
    let mut b: Vec<u8> = Vec::new();
    b.extend_from_slice(b"GIF89a");
    b.extend_from_slice(&[0x01, 0x00, 0x01, 0x00, 0x80, 0x00, 0x00]);
    b.extend_from_slice(&[0xFF, 0xFF, 0xFF, 0x00, 0x00, 0x00]);
    b.extend_from_slice(&[0x2C, 0x00, 0x00, 0x00, 0x00, 0x01, 0x00, 0x01, 0x00, 0x00]);
    b.extend_from_slice(&[0x02, 0x02, 0x44, 0x01, 0x00]);
    b.push(0x3B);
    b
}

#[test]
fn renderer_failure_short_circuits_the_frame() {
    let source = VecByteSource::new(minimal_1x1());
    let mut d = GifDecoder::new(source, FailingRenderer);
    assert_eq!(d.parse_gif_metadata(), Ok(()));
    assert_eq!(d.parse_frame_metadata(), Ok(()));
    assert_eq!(d.decode_frame_image(), Err(Error::RenderError));
}

#[test]
fn rewind_on_a_one_way_source_fails() {
    let source = OneWaySource { inner: VecByteSource::new(minimal_1x1()) };
    let mut d = GifDecoder::new(source, FailingRenderer);
    assert_eq!(d.rewind(), Err(Error::RewindError));
}
