use vstd::prelude::*;
use vstd::utf8::{encode_utf8, encode_utf8_decode_utf8};

use crate::endpoint::{parse_socket, socket_of, ConfigurationError, Endpoint};

verus! {

/// A pair of pixel coordinates, or a width and a height.
#[derive(Clone, Copy, Debug, PartialEq, Eq, Structural)]
pub struct Point {
    pub x: usize,
    pub y: usize,
}

/// One panel as configuration describes it: a socket string and the
/// panel's top-left corner in the composed display.
#[derive(Debug)]
pub struct PanelEntry {
    pub socket: String,
    pub position: Point,
}

/// One LED panel: its top-left corner in the composed display, before the
/// global offset, and the endpoint its rows are sent to.
#[derive(Debug)]
pub struct Panel {
    pub position: Point,
    pub endpoint: Endpoint,
}

/// Why a panel layout was refused.
#[derive(Clone, Copy, Debug, PartialEq, Eq, Structural)]
pub enum PanelError {
    /// A socket string could not be read.
    Configuration(ConfigurationError),
    /// The panel size is out of range, or a panel does not lie inside the
    /// source frame.
    Geometry,
}

/// The largest panel side that the wire format can address (6 bits).
pub const MAX_PANEL_SIDE: usize = 64;

/// The panel size can be addressed by the wire format.
pub open spec fn size_ok(size: Point) -> bool {
    0 < size.x <= MAX_PANEL_SIDE && 0 < size.y <= MAX_PANEL_SIDE
}

/// A panel of `size` at `position`, moved by `offset`, lies inside a frame of
/// `width` by `height` pixels.
pub open spec fn fits(size: Point, offset: Point, position: Point, width: int, height: int) -> bool {
    &&& offset.x + position.x + size.x <= width
    &&& offset.y + position.y + size.y <= height
}

/// The bytes of a configured socket string.
pub open spec fn socket_bytes(entry: PanelEntry) -> Seq<u8> {
    encode_utf8(entry.socket@)
}

/// The host bytes and port of an endpoint, as `socket_of` gives them.
pub open spec fn endpoint_view(e: Endpoint) -> (Seq<u8>, u16) {
    (encode_utf8(e.host@), e.port)
}

/// An ordered set of panels that share one size and one global offset.
pub struct Panels {
    size: Point,
    offset: Point,
    panels: Vec<Panel>,
}

/// What a `Panels` holds.
pub struct PanelsView {
    pub size: Point,
    pub offset: Point,
    pub panels: Seq<Panel>,
}

impl View for Panels {
    type V = PanelsView;

    closed spec fn view(&self) -> PanelsView {
        PanelsView { size: self.size, offset: self.offset, panels: self.panels@ }
    }
}

impl PanelsView {
    /// The size is addressable, and no panel's far corner overflows `usize`.
    pub open spec fn wf(self) -> bool {
        &&& size_ok(self.size)
        &&& forall|i: int|
            0 <= i < self.panels.len() ==> fits(
                self.size,
                self.offset,
                #[trigger] self.panels[i].position,
                usize::MAX as int,
                usize::MAX as int,
            )
    }
}

/// No two of `panels` share an endpoint.
pub open spec fn distinct_endpoints(panels: Seq<Panel>) -> bool {
    forall|i: int, j: int|
        0 <= i < j < panels.len() ==> endpoint_view(#[trigger] panels[i].endpoint)
            != endpoint_view(#[trigger] panels[j].endpoint)
}

/// Decides whether two endpoints name the same host and port.
fn same_endpoint(a: &Endpoint, b: &Endpoint) -> (r: bool)
    ensures
        r == (endpoint_view(*a) == endpoint_view(*b)),
{
    proof {
        encode_utf8_decode_utf8(a.host@);
        encode_utf8_decode_utf8(b.host@);
    }
    a.port == b.port && a.host == b.host
}

/// Decides `distinct_endpoints`.
fn endpoints_distinct(panels: &Vec<Panel>) -> (r: bool)
    ensures
        r == distinct_endpoints(panels@),
{
    let mut i: usize = 0;
    while i < panels.len()
        invariant
            i <= panels@.len(),
            forall|a: int, b: int|
                0 <= a < i && a < b < panels@.len() ==> endpoint_view(
                    #[trigger] panels@[a].endpoint,
                ) != endpoint_view(#[trigger] panels@[b].endpoint),
        decreases panels@.len() - i,
    {
        let mut j: usize = i + 1;
        while j < panels.len()
            invariant
                i < panels@.len(),
                i < j <= panels@.len(),
                forall|a: int, b: int|
                    0 <= a < i && a < b < panels@.len() ==> endpoint_view(
                        #[trigger] panels@[a].endpoint,
                    ) != endpoint_view(#[trigger] panels@[b].endpoint),
                forall|b: int|
                    i < b < j ==> endpoint_view(panels@[i as int].endpoint) != endpoint_view(
                        #[trigger] panels@[b].endpoint,
                    ),
            decreases panels@.len() - j,
        {
            if same_endpoint(&panels[i].endpoint, &panels[j].endpoint) {
                return false;
            }
            j = j + 1;
        }
        i = i + 1;
    }
    true
}

/// Decides `fits` without overflow.
pub(crate) fn fits_in(size: Point, offset: Point, position: Point, width: usize, height: usize) -> (r: bool)
    ensures
        r == fits(size, offset, position, width as int, height as int),
{
    offset.x <= width && position.x <= width - offset.x && size.x <= width - offset.x - position.x
        && offset.y <= height && position.y <= height - offset.y && size.y <= height - offset.y
        - position.y
}

impl Panels {
    #[verifier::type_invariant]
    pub(crate) open spec fn inv(self) -> bool {
        self@.wf()
    }

    /// Builds a panel set from its configuration and the dimensions of the
    /// frames it will show. Every socket string is read first, in order; then
    /// no two panels may name the same endpoint; then the size must be
    /// addressable and every panel must lie inside the frame.
    pub fn new(
        size: Point,
        offset: Point,
        entries: &Vec<PanelEntry>,
        frame_width: usize,
        frame_height: usize,
    ) -> (r: Result<Panels, PanelError>)
        ensures
            match r {
                Ok(p) => {
                    &&& p@.wf()
                    &&& size_ok(size)
                    &&& p@.size == size
                    &&& p@.offset == offset
                    &&& p@.panels.len() == entries@.len()
                    &&& distinct_endpoints(p@.panels)
                    &&& forall|i: int|
                        0 <= i < entries@.len() ==> {
                            &&& fits(
                                size,
                                offset,
                                entries@[i].position,
                                frame_width as int,
                                frame_height as int,
                            )
                            &&& (#[trigger] p@.panels[i]).position == entries@[i].position
                            &&& socket_of(socket_bytes(entries@[i])) == Ok::<
                                _,
                                ConfigurationError,
                            >(endpoint_view(p@.panels[i].endpoint))
                        }
                },
                Err(PanelError::Configuration(ConfigurationError::SharedEndpoint)) => {
                    &&& forall|j: int|
                        0 <= j < entries@.len() ==> socket_of(
                            socket_bytes(#[trigger] entries@[j]),
                        ) is Ok
                    &&& exists|i: int, j: int|
                        0 <= i < j < entries@.len() && socket_of(
                            socket_bytes(#[trigger] entries@[i]),
                        ) == socket_of(socket_bytes(#[trigger] entries@[j]))
                },
                Err(PanelError::Configuration(e)) => exists|k: int|
                    0 <= k < entries@.len() && socket_of(socket_bytes(#[trigger] entries@[k]))
                        == Err::<(Seq<u8>, u16), _>(e) && forall|j: int|
                        0 <= j < k ==> socket_of(socket_bytes(#[trigger] entries@[j])) is Ok,
                Err(PanelError::Geometry) => {
                    &&& forall|j: int|
                        0 <= j < entries@.len() ==> socket_of(
                            socket_bytes(#[trigger] entries@[j]),
                        ) is Ok
                    &&& forall|i: int, j: int|
                        0 <= i < j < entries@.len() ==> socket_of(
                            socket_bytes(#[trigger] entries@[i]),
                        ) != socket_of(socket_bytes(#[trigger] entries@[j]))
                    &&& !(size_ok(size) && forall|j: int|
                        0 <= j < entries@.len() ==> fits(
                            size,
                            offset,
                            (#[trigger] entries@[j]).position,
                            frame_width as int,
                            frame_height as int,
                        ))
                },
            },
    {
        let mut panels: Vec<Panel> = Vec::new();
        let mut i: usize = 0;
        while i < entries.len()
            invariant
                i <= entries@.len(),
                panels@.len() == i,
                forall|j: int|
                    0 <= j < i ==> {
                        &&& (#[trigger] panels@[j]).position == entries@[j].position
                        &&& socket_of(socket_bytes(entries@[j])) == Ok::<_, ConfigurationError>(
                            endpoint_view(panels@[j].endpoint),
                        )
                    },
            decreases entries@.len() - i,
        {
            let entry = &entries[i];
            match parse_socket(entry.socket.as_str()) {
                Ok(endpoint) => {
                    panels.push(Panel { position: entry.position, endpoint });
                },
                Err(e) => {
                    assert forall|j: int| 0 <= j < i implies socket_of(
                        socket_bytes(#[trigger] entries@[j]),
                    ) is Ok by {
                        assert(panels@[j].position == entries@[j].position);
                    }
                    return Err(PanelError::Configuration(e));
                },
            }
            i = i + 1;
        }
        assert forall|j: int| 0 <= j < entries@.len() implies socket_of(
            socket_bytes(#[trigger] entries@[j]),
        ) is Ok by {
            assert(panels@[j].position == entries@[j].position);
        }
        if !endpoints_distinct(&panels) {
            proof {
                let (a, b) = choose|a: int, b: int|
                    0 <= a < b < panels@.len() && endpoint_view(#[trigger] panels@[a].endpoint)
                        == endpoint_view(#[trigger] panels@[b].endpoint);
                assert(socket_of(socket_bytes(entries@[a])) == socket_of(
                    socket_bytes(entries@[b]),
                ));
            }
            return Err(PanelError::Configuration(ConfigurationError::SharedEndpoint));
        }
        assert forall|a: int, b: int| 0 <= a < b < entries@.len() implies socket_of(
            socket_bytes(#[trigger] entries@[a]),
        ) != socket_of(socket_bytes(#[trigger] entries@[b])) by {
            assert(endpoint_view(panels@[a].endpoint) != endpoint_view(panels@[b].endpoint));
        }
        if size.x == 0 || size.x > MAX_PANEL_SIDE || size.y == 0 || size.y > MAX_PANEL_SIDE {
            return Err(PanelError::Geometry);
        }
        let mut k: usize = 0;
        while k < entries.len()
            invariant
                k <= entries@.len(),
                size_ok(size),
                panels@.len() == entries@.len(),
                forall|j: int|
                    0 <= j < entries@.len() ==> {
                        &&& (#[trigger] panels@[j]).position == entries@[j].position
                        &&& socket_of(socket_bytes(entries@[j])) == Ok::<_, ConfigurationError>(
                            endpoint_view(panels@[j].endpoint),
                        )
                    },
                forall|j: int|
                    0 <= j < entries@.len() ==> socket_of(
                        socket_bytes(#[trigger] entries@[j]),
                    ) is Ok,
                distinct_endpoints(panels@),
                forall|a: int, b: int|
                    0 <= a < b < entries@.len() ==> socket_of(
                        socket_bytes(#[trigger] entries@[a]),
                    ) != socket_of(socket_bytes(#[trigger] entries@[b])),
                forall|j: int|
                    0 <= j < k ==> fits(
                        size,
                        offset,
                        (#[trigger] entries@[j]).position,
                        frame_width as int,
                        frame_height as int,
                    ),
            decreases entries@.len() - k,
        {
            if !fits_in(size, offset, entries[k].position, frame_width, frame_height) {
                return Err(PanelError::Geometry);
            }
            k = k + 1;
        }
        let r = Panels { size, offset, panels };
        assert forall|j: int| 0 <= j < r@.panels.len() implies fits(
            size,
            offset,
            #[trigger] r@.panels[j].position,
            usize::MAX as int,
            usize::MAX as int,
        ) by {
            assert(fits(size, offset, entries@[j].position, frame_width as int, frame_height as int));
        }
        Ok(r)
    }

    /// The size shared by every panel.
    pub fn size(&self) -> (r: Point)
        ensures
            r == self@.size,
    {
        self.size
    }

    /// The offset added to every panel's position.
    pub fn offset(&self) -> (r: Point)
        ensures
            r == self@.offset,
    {
        self.offset
    }

    /// The panels, in dispatch order.
    pub fn panels(&self) -> (r: &Vec<Panel>)
        ensures
            r@ == self@.panels,
    {
        &self.panels
    }
}

} // verus!
