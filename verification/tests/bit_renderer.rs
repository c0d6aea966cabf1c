use nand_flash_viewer::bit_renderer::{BitRenderer, Pixel, PixelBuffer};

#[test]
fn test_pixel_creation() {
    let pixel = Pixel::new(255, 128, 64);
    assert_eq!(pixel.r, 255);
    assert_eq!(pixel.g, 128);
    assert_eq!(pixel.b, 64);
}

#[test]
fn test_pixel_black() {
    let black = Pixel::black();
    assert_eq!(black.r, 0);
    assert_eq!(black.g, 0);
    assert_eq!(black.b, 0);
}

#[test]
fn test_pixel_white() {
    let white = Pixel::white();
    assert_eq!(white.r, 255);
    assert_eq!(white.g, 255);
    assert_eq!(white.b, 255);
}

#[test]
fn test_pixel_buffer_creation() {
    let buffer = PixelBuffer::new(10, 20);
    assert_eq!(buffer.width(), 10);
    assert_eq!(buffer.height(), 20);
    // All pixels should be white by default
    assert_eq!(buffer.get(0, 0), Some(Pixel::white()));
    assert_eq!(buffer.get(9, 19), Some(Pixel::white()));
}

#[test]
fn test_pixel_buffer_with_fill() {
    let buffer = PixelBuffer::with_fill(5, 5, Pixel::black());
    assert_eq!(buffer.get(0, 0), Some(Pixel::black()));
    assert_eq!(buffer.get(4, 4), Some(Pixel::black()));
}

#[test]
fn test_pixel_buffer_set_and_get() {
    let mut buffer = PixelBuffer::new(10, 10);
    let pixel = Pixel::new(100, 150, 200);
    buffer.set(5, 5, pixel).unwrap();
    assert_eq!(buffer.get(5, 5), Some(pixel));
}

#[test]
fn test_pixel_buffer_out_of_bounds() {
    let mut buffer = PixelBuffer::new(10, 10);
    let pixel = Pixel::black();
    assert!(buffer.set(10, 5, pixel).is_err());
    assert!(buffer.set(5, 10, pixel).is_err());
    assert!(buffer.get(10, 5).is_none());
    assert!(buffer.get(5, 10).is_none());
}

#[test]
fn test_render_bit_zero() {
    let pixel = BitRenderer::render_bit(0);
    assert_eq!(pixel, Pixel::white());
}

#[test]
fn test_render_bit_one() {
    let pixel = BitRenderer::render_bit(1);
    assert_eq!(pixel, Pixel::black());
}

#[test]
fn test_render_byte_all_zeros() {
    let mut buffer = PixelBuffer::new(8, 1);
    BitRenderer::render_byte(0x00, 0, 0, &mut buffer).unwrap();
    
    // All pixels should be white
    for x in 0..8 {
        assert_eq!(buffer.get(x, 0), Some(Pixel::white()));
    }
}

#[test]
fn test_render_byte_all_ones() {
    let mut buffer = PixelBuffer::new(8, 1);
    BitRenderer::render_byte(0xFF, 0, 0, &mut buffer).unwrap();
    
    // All pixels should be black
    for x in 0..8 {
        assert_eq!(buffer.get(x, 0), Some(Pixel::black()));
    }
}

#[test]
fn test_render_byte_alternating_pattern() {
    let mut buffer = PixelBuffer::new(8, 1);
    // 0xAA = 10101010 in binary
    BitRenderer::render_byte(0xAA, 0, 0, &mut buffer).unwrap();
    
    // Pattern should be: black, white, black, white, black, white, black, white
    assert_eq!(buffer.get(0, 0), Some(Pixel::black()));  // MSB = 1
    assert_eq!(buffer.get(1, 0), Some(Pixel::white())); // 0
    assert_eq!(buffer.get(2, 0), Some(Pixel::black()));  // 1
    assert_eq!(buffer.get(3, 0), Some(Pixel::white())); // 0
    assert_eq!(buffer.get(4, 0), Some(Pixel::black()));  // 1
    assert_eq!(buffer.get(5, 0), Some(Pixel::white())); // 0
    assert_eq!(buffer.get(6, 0), Some(Pixel::black()));  // 1
    assert_eq!(buffer.get(7, 0), Some(Pixel::white())); // LSB = 0
}

#[test]
fn test_render_byte_reverse_pattern() {
    let mut buffer = PixelBuffer::new(8, 1);
    // 0x55 = 01010101 in binary
    BitRenderer::render_byte(0x55, 0, 0, &mut buffer).unwrap();
    
    // Pattern should be: white, black, white, black, white, black, white, black
    assert_eq!(buffer.get(0, 0), Some(Pixel::white())); // MSB = 0
    assert_eq!(buffer.get(1, 0), Some(Pixel::black()));  // 1
    assert_eq!(buffer.get(2, 0), Some(Pixel::white())); // 0
    assert_eq!(buffer.get(3, 0), Some(Pixel::black()));  // 1
    assert_eq!(buffer.get(4, 0), Some(Pixel::white())); // 0
    assert_eq!(buffer.get(5, 0), Some(Pixel::black()));  // 1
    assert_eq!(buffer.get(6, 0), Some(Pixel::white())); // 0
    assert_eq!(buffer.get(7, 0), Some(Pixel::black()));  // LSB = 1
}

#[test]
fn test_render_byte_msb_only() {
    let mut buffer = PixelBuffer::new(8, 1);
    // 0x80 = 10000000 in binary (only MSB set)
    BitRenderer::render_byte(0x80, 0, 0, &mut buffer).unwrap();
    
    assert_eq!(buffer.get(0, 0), Some(Pixel::black()));  // MSB = 1
    for x in 1..8 {
        assert_eq!(buffer.get(x, 0), Some(Pixel::white())); // Rest = 0
    }
}

#[test]
fn test_render_byte_lsb_only() {
    let mut buffer = PixelBuffer::new(8, 1);
    // 0x01 = 00000001 in binary (only LSB set)
    BitRenderer::render_byte(0x01, 0, 0, &mut buffer).unwrap();
    
    for x in 0..7 {
        assert_eq!(buffer.get(x, 0), Some(Pixel::white())); // First 7 = 0
    }
    assert_eq!(buffer.get(7, 0), Some(Pixel::black()));  // LSB = 1
}

#[test]
fn test_render_byte_with_offset() {
    let mut buffer = PixelBuffer::new(16, 1);
    // Render 0xFF at offset 4
    BitRenderer::render_byte(0xFF, 4, 0, &mut buffer).unwrap();
    
    // First 4 pixels should be white (default)
    for x in 0..4 {
        assert_eq!(buffer.get(x, 0), Some(Pixel::white()));
    }
    // Next 8 pixels should be black
    for x in 4..12 {
        assert_eq!(buffer.get(x, 0), Some(Pixel::black()));
    }
    // Last 4 pixels should be white (default)
    for x in 12..16 {
        assert_eq!(buffer.get(x, 0), Some(Pixel::white()));
    }
}

#[test]
fn test_render_byte_out_of_bounds() {
    let mut buffer = PixelBuffer::new(8, 1);
    // Try to render at x=5, which would go to x=12 (out of bounds)
    let result = BitRenderer::render_byte(0xFF, 5, 0, &mut buffer);
    assert!(result.is_err());
}

#[test]
fn test_render_byte_multiple_rows() {
    let mut buffer = PixelBuffer::new(8, 3);
    
    // Render different bytes on different rows
    BitRenderer::render_byte(0xFF, 0, 0, &mut buffer).unwrap();
    BitRenderer::render_byte(0x00, 0, 1, &mut buffer).unwrap();
    BitRenderer::render_byte(0xAA, 0, 2, &mut buffer).unwrap();
    
    // Row 0: all black
    for x in 0..8 {
        assert_eq!(buffer.get(x, 0), Some(Pixel::black()));
    }
    
    // Row 1: all white
    for x in 0..8 {
        assert_eq!(buffer.get(x, 1), Some(Pixel::white()));
    }
    
    // Row 2: alternating pattern
    assert_eq!(buffer.get(0, 2), Some(Pixel::black()));
    assert_eq!(buffer.get(1, 2), Some(Pixel::white()));
}
