use led_panels::endpoint::ConfigurationError;
use led_panels::panel::{PanelEntry, PanelError, Panels, Point};

fn entry(socket: &str, x: usize, y: usize) -> PanelEntry {
    PanelEntry { socket: socket.to_string(), position: Point { x, y } }
}

fn grid() -> Vec<PanelEntry> {
    vec![
        entry("192.168.178.50:26177", 0, 0),
        entry("192.168.178.50:26184", 64, 0),
        entry("192.168.178.50:26180", 0, 32),
        entry("192.168.178.50:26192", 64, 32),
    ]
}

#[test]
fn builds_a_two_by_two_grid() {
    let p = Panels::new(Point { x: 64, y: 32 }, Point { x: 0, y: 0 }, &grid(), 128, 64).unwrap();
    assert_eq!(p.size(), Point { x: 64, y: 32 });
    assert_eq!(p.offset(), Point { x: 0, y: 0 });
    assert_eq!(p.panels().len(), 4);
    assert_eq!(p.panels()[1].position, Point { x: 64, y: 0 });
    assert_eq!(p.panels()[1].endpoint.host, "192.168.178.50");
    assert_eq!(p.panels()[1].endpoint.port, 26184);
    assert_eq!(p.panels()[3].endpoint.port, 26192);
}

#[test]
fn socket_without_colon_fails_construction() {
    let entries = vec![entry("bad", 0, 0)];
    let r = Panels::new(Point { x: 2, y: 1 }, Point { x: 0, y: 0 }, &entries, 2, 1);
    assert_eq!(
        r.err(),
        Some(PanelError::Configuration(ConfigurationError::MalformedSocket))
    );
}

#[test]
fn first_bad_socket_decides_the_error() {
    let entries = vec![entry("h:1", 0, 0), entry("h:x", 0, 0), entry("bad", 0, 0)];
    let r = Panels::new(Point { x: 2, y: 1 }, Point { x: 0, y: 0 }, &entries, 2, 1);
    assert_eq!(r.err(), Some(PanelError::Configuration(ConfigurationError::InvalidPort)));
}

#[test]
fn panel_beyond_the_frame_is_a_geometry_error() {
    let r = Panels::new(Point { x: 64, y: 32 }, Point { x: 0, y: 0 }, &grid(), 127, 64);
    assert_eq!(r.err(), Some(PanelError::Geometry));
    let r = Panels::new(Point { x: 64, y: 32 }, Point { x: 0, y: 0 }, &grid(), 128, 63);
    assert_eq!(r.err(), Some(PanelError::Geometry));
    let r = Panels::new(Point { x: 64, y: 32 }, Point { x: 1, y: 0 }, &grid(), 128, 64);
    assert_eq!(r.err(), Some(PanelError::Geometry));
    let r = Panels::new(Point { x: 64, y: 32 }, Point { x: 1, y: 0 }, &grid(), 129, 64);
    assert!(r.is_ok());
}

#[test]
fn huge_coordinates_do_not_overflow() {
    let entries = vec![entry("h:1", usize::MAX, 0)];
    let r = Panels::new(Point { x: 2, y: 1 }, Point { x: usize::MAX, y: 0 }, &entries, usize::MAX, 1);
    assert_eq!(r.err(), Some(PanelError::Geometry));
}

#[test]
fn panel_size_must_fit_six_bits() {
    let entries = vec![entry("h:1", 0, 0)];
    let frame = 1000;
    for size in [Point { x: 0, y: 1 }, Point { x: 1, y: 0 }, Point { x: 65, y: 1 }, Point { x: 1, y: 65 }] {
        let r = Panels::new(size, Point { x: 0, y: 0 }, &entries, frame, frame);
        assert_eq!(r.err(), Some(PanelError::Geometry));
    }
    let r = Panels::new(Point { x: 64, y: 64 }, Point { x: 0, y: 0 }, &entries, frame, frame);
    assert!(r.is_ok());
}

#[test]
fn empty_panel_list_is_accepted() {
    let r = Panels::new(Point { x: 8, y: 8 }, Point { x: 0, y: 0 }, &Vec::new(), 0, 0);
    assert_eq!(r.unwrap().panels().len(), 0);
}

#[test]
fn two_panels_on_one_endpoint_are_refused() {
    let entries = vec![entry("10.0.0.1:5000", 0, 0), entry("10.0.0.2:5000", 2, 0), entry("10.0.0.1:5000", 4, 0)];
    let r = Panels::new(Point { x: 2, y: 1 }, Point { x: 0, y: 0 }, &entries, 6, 1);
    assert_eq!(r.err(), Some(PanelError::Configuration(ConfigurationError::SharedEndpoint)));
}

#[test]
fn same_endpoint_written_two_ways_is_refused() {
    let entries = vec![entry("h:80", 0, 0), entry("h:+080", 2, 0)];
    let r = Panels::new(Point { x: 2, y: 1 }, Point { x: 0, y: 0 }, &entries, 4, 1);
    assert_eq!(r.err(), Some(PanelError::Configuration(ConfigurationError::SharedEndpoint)));
}

#[test]
fn shared_endpoint_is_found_before_geometry() {
    let entries = vec![entry("h:1", 0, 0), entry("h:1", 100, 0)];
    let r = Panels::new(Point { x: 2, y: 1 }, Point { x: 0, y: 0 }, &entries, 4, 1);
    assert_eq!(r.err(), Some(PanelError::Configuration(ConfigurationError::SharedEndpoint)));
}

#[test]
fn bad_socket_is_found_before_a_shared_endpoint() {
    let entries = vec![entry("h:1", 0, 0), entry("h:1", 2, 0), entry("bad", 4, 0)];
    let r = Panels::new(Point { x: 2, y: 1 }, Point { x: 0, y: 0 }, &entries, 6, 1);
    assert_eq!(r.err(), Some(PanelError::Configuration(ConfigurationError::MalformedSocket)));
}

#[test]
fn same_host_on_other_ports_is_accepted() {
    let entries = vec![entry("h:1", 0, 0), entry("h:2", 2, 0), entry("g:1", 4, 0)];
    let r = Panels::new(Point { x: 2, y: 1 }, Point { x: 0, y: 0 }, &entries, 6, 1);
    assert_eq!(r.unwrap().panels().len(), 3);
}
