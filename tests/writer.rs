use led_panels::codec::pixel_to_packet;
use led_panels::panel::{PanelEntry, PanelError, Panels, Point};
use led_panels::writer::PanelWriter;

fn entry(socket: &str, x: usize, y: usize) -> PanelEntry {
    PanelEntry { socket: socket.to_string(), position: Point { x, y } }
}

fn writer(size: Point, offset: Point, entries: Vec<PanelEntry>, w: usize, h: usize) -> PanelWriter {
    PanelWriter::new(Panels::new(size, offset, &entries, w, h).unwrap())
}

/// A BGRA frame whose pixel (x, y) has blue 4x, green 4y and red 4(x+y).
fn gradient(w: usize, h: usize) -> Vec<u8> {
    let mut v = Vec::new();
    for y in 0..h {
        for x in 0..w {
            v.push((4 * x) as u8);
            v.push((4 * y) as u8);
            v.push((4 * (x + y)) as u8);
            v.push(0xAA);
        }
    }
    v
}

#[test]
fn black_and_white_row() {
    let w = writer(Point { x: 2, y: 1 }, Point { x: 0, y: 0 }, vec![entry("h:1", 0, 0)], 2, 1);
    let image = [0, 0, 0, 0, 252, 252, 252, 0];
    let rows = w.display_image(&image, 2, 1).unwrap();
    assert_eq!(rows.len(), 1);
    assert_eq!(rows[0].panel, 0);
    let mut expected = pixel_to_packet(0, 0, 0, 0, 0).to_vec();
    expected.extend_from_slice(&pixel_to_packet(1, 0, 63, 63, 63));
    assert_eq!(rows[0].data, expected);
    assert_eq!(rows[0].data, vec![0x00, 0x00, 0x00, 0x00, 0x00, 0x07, 0xFF, 0xFF]);
}

#[test]
fn rows_leave_in_panel_then_row_order() {
    let entries = vec![entry("h:1", 2, 0), entry("h:2", 0, 0), entry("h:3", 0, 2)];
    let w = writer(Point { x: 2, y: 2 }, Point { x: 0, y: 0 }, entries, 4, 4);
    let image = gradient(4, 4);
    let rows = w.display_image(&image, 4, 4).unwrap();
    assert_eq!(rows.len(), 6);
    let panels: Vec<usize> = rows.iter().map(|r| r.panel).collect();
    assert_eq!(panels, vec![0, 0, 1, 1, 2, 2]);
    for (k, r) in rows.iter().enumerate() {
        assert_eq!(r.data.len(), 8);
        assert_eq!(r.data[0] as usize, k % 2);
        assert_eq!(r.data[4] as usize, k % 2);
    }
    // panel 0 sits at (2, 0): its first pixel is source (2, 0)
    assert_eq!(&rows[0].data[0..4], &pixel_to_packet(0, 0, 2, 0, 2));
    // panel 2, row 1, pixel 1 is source (1, 3)
    assert_eq!(&rows[5].data[4..8], &pixel_to_packet(1, 1, 4, 3, 1));
}

#[test]
fn offset_moves_every_panel() {
    let w = writer(Point { x: 1, y: 1 }, Point { x: 1, y: 2 }, vec![entry("h:1", 2, 1)], 4, 4);
    let image = gradient(4, 4);
    let rows = w.display_image(&image, 4, 4).unwrap();
    assert_eq!(rows.len(), 1);
    assert_eq!(rows[0].data, pixel_to_packet(0, 0, 6, 3, 3).to_vec());
}

#[test]
fn datagram_width_and_count_follow_the_size() {
    let w = writer(Point { x: 64, y: 3 }, Point { x: 0, y: 0 }, vec![entry("h:1", 0, 0), entry("h:2", 0, 3)], 64, 6);
    let image = gradient(64, 6);
    let rows = w.display_image(&image, 64, 6).unwrap();
    assert_eq!(rows.len(), 6);
    assert!(rows.iter().all(|r| r.data.len() == 256));
    assert_eq!(rows[5].data[63 * 4 + 1] >> 2, 63);
}

#[test]
fn short_frame_is_a_geometry_error() {
    let w = writer(Point { x: 2, y: 1 }, Point { x: 0, y: 0 }, vec![entry("h:1", 0, 0)], 2, 1);
    let image = [0u8; 7];
    assert_eq!(w.display_image(&image, 2, 1).err(), Some(PanelError::Geometry));
}

#[test]
fn frame_smaller_than_the_layout_is_a_geometry_error() {
    let w = writer(Point { x: 2, y: 2 }, Point { x: 0, y: 0 }, vec![entry("h:1", 1, 0)], 3, 2);
    let image = gradient(3, 2);
    assert!(w.display_image(&image, 3, 2).is_ok());
    let image = gradient(2, 2);
    assert_eq!(w.display_image(&image, 2, 2).err(), Some(PanelError::Geometry));
    assert_eq!(w.display_image(&image, usize::MAX, 2).err(), Some(PanelError::Geometry));
}

#[test]
fn every_packet_carries_its_row() {
    let w = writer(Point { x: 3, y: 5 }, Point { x: 0, y: 0 }, vec![entry("h:1", 0, 0), entry("h:2", 3, 0)], 6, 5);
    let image = gradient(6, 5);
    let rows = w.display_image(&image, 6, 5).unwrap();
    assert_eq!(rows.len(), 10);
    for (k, r) in rows.iter().enumerate() {
        assert_eq!(r.panel, k / 5);
        for j in 0..3 {
            assert_eq!(r.data[4 * j] as usize, k % 5);
            assert_eq!((r.data[4 * j + 1] >> 2) as usize, j);
        }
    }
}
