//! Graphics configuration parsing and framebuffer geometry.

use libtinyos::gfx::{
    BatchedFlushes, BoundingBox, FrameBufferConfig, FrameBufferDimensions, GFXConfig,
    GraphicsError, KernelFBWrapper, RawBitMap, RawFrameBuffer,
};

#[test]
fn config_parses_ten_numbers() {
    let text = b"0 8 8 8 16 8 32 1024 768 4096".to_vec();
    let c = GFXConfig::parse(&text).unwrap();
    assert_eq!(c.red_mask_shift, 0);
    assert_eq!(c.red_mask_size, 8);
    assert_eq!(c.green_mask_shift, 8);
    assert_eq!(c.green_mask_size, 8);
    assert_eq!(c.blue_mask_shift, 16);
    assert_eq!(c.blue_mask_size, 8);
    assert_eq!(c.bpp, 32);
    assert_eq!(c.width, 1024);
    assert_eq!(c.height, 768);
    assert_eq!(c.pitch, 4096);
}

#[test]
fn config_accepts_any_whitespace_layout() {
    let text = b"0 8\n8\t8 16 8\r\n32  1024\n768 4096\n".to_vec();
    let c = GFXConfig::parse(&text).unwrap();
    assert_eq!(c.width, 1024);
    assert_eq!(c.pitch, 4096);
}

#[test]
fn config_rejects_short_and_malformed_texts() {
    assert!(GFXConfig::parse(&b"0 8 8 8 16 8 32 1024 768".to_vec()).is_none());
    assert!(GFXConfig::parse(&Vec::new()).is_none());
    assert!(GFXConfig::parse(&b"0 8 8 8 16 8 32 10x4 768 4096".to_vec()).is_none());
    // a mask width must fit one byte
    assert!(GFXConfig::parse(&b"256 8 8 8 16 8 32 1024 768 4096".to_vec()).is_none());
    // a dimension must fit 32 bits
    assert!(GFXConfig::parse(&b"0 8 8 8 16 8 32 99999999999 768 4096".to_vec()).is_none());
}

#[test]
fn config_ignores_trailing_numbers() {
    let text = b"0 8 8 8 16 8 32 1024 768 4096 123 456".to_vec();
    assert!(GFXConfig::parse(&text).is_some());
}

fn rgb888() -> FrameBufferConfig {
    FrameBufferConfig {
        red_mask_shift: 16,
        red_mask_size: 8,
        green_mask_shift: 8,
        green_mask_size: 8,
        blue_mask_shift: 0,
        blue_mask_size: 8,
        bpp: 32,
    }
}

#[test]
fn pixel_packing_places_each_channel() {
    let c = rgb888();
    assert_eq!(c.get_rgb_pixel(0x12, 0x34, 0x56), 0x0012_3456);
    assert_eq!(c.get_rgb_pixel(0xff, 0, 0), 0x00ff_0000);
    assert_eq!(c.get_rgb_pixel(0, 0, 0), 0);
}

#[test]
fn pixel_packing_masks_narrow_channels() {
    let c = FrameBufferConfig {
        red_mask_shift: 11,
        red_mask_size: 5,
        green_mask_shift: 5,
        green_mask_size: 6,
        blue_mask_shift: 0,
        blue_mask_size: 5,
        bpp: 16,
    };
    // 5-bit red keeps only the low five bits of the channel
    assert_eq!(c.get_rgb_pixel(0xff, 0, 0), 0b11111 << 11);
}

#[test]
fn pixel_offsets_walk_rows_and_columns() {
    let fb = KernelFBWrapper {
        addr: 0x3000_0000,
        dim: FrameBufferDimensions { height: 768, width: 1024, pitch: 4096 },
        config: rgb888(),
    };
    assert_eq!(fb.pixel_offset(0, 0), 0);
    assert_eq!(fb.pixel_offset(10, 2), 2 * 4096 + 10 * 4);
    assert_eq!(fb.size(), 768 * 4096);
    assert_eq!(fb.addr(), 0x3000_0000);
}

#[test]
fn raw_framebuffer_shares_the_geometry() {
    let fb = RawFrameBuffer {
        buf: RawBitMap { addr: 0x4000_0000, size: 768 * 4096 },
        dim: FrameBufferDimensions { height: 768, width: 1024, pitch: 4096 },
        config: rgb888(),
    };
    assert_eq!(fb.pixel_offset(1, 1), 4096 + 4);
    assert_eq!(fb.addr(), 0x4000_0000);
    assert_eq!(fb.buf.size(), 768 * 4096);
}

#[test]
fn bounding_box_from_rect_keeps_the_fields() {
    let b = BoundingBox::from_rect(3, 4, 10, 20);
    assert_eq!(b, BoundingBox { x: 3, y: 4, width: 10, height: 20 });
}

#[test]
fn batched_flushes_collect_and_drain() {
    let mut batch = BatchedFlushes::new();
    assert!(batch.is_empty());
    batch.push(BoundingBox { x: 0, y: 0, width: 1, height: 1 });
    batch.push(BoundingBox { x: 5, y: 5, width: 2, height: 2 });
    assert_eq!(batch.len(), 2);
    assert_eq!(batch.inner[1].x, 5);
    // a failed device write keeps every rectangle queued for a retry
    assert_eq!(batch.flush_done(false), Err(GraphicsError::Unknown));
    assert_eq!(batch.len(), 2);
    // a successful write drops exactly the flushed rectangles
    assert_eq!(batch.flush_done(true), Ok(()));
    assert!(batch.is_empty());
}

#[test]
fn graphics_error_describes_itself() {
    let e = GraphicsError::default();
    assert_eq!(e, GraphicsError::Unknown);
    assert_eq!(e.describe(), "Unknown graphics error");
}
