use vstd::prelude::*;

use crate::codec::{packet, pixel_to_packet};
use crate::panel::{fits, fits_in, PanelError, Panels, PanelsView};

verus! {

/// One row of one panel, ready to be sent as a single datagram to the
/// panel with index `panel`.
#[derive(Debug)]
pub struct Datagram {
    pub panel: usize,
    pub data: Vec<u8>,
}

/// The panel that the `k`-th datagram of a frame goes to.
pub open spec fn panel_of(v: PanelsView, k: int) -> int {
    k / v.size.y as int
}

/// The row of its panel that the `k`-th datagram of a frame carries.
pub open spec fn line_of(v: PanelsView, k: int) -> int {
    k % v.size.y as int
}

/// Where the BGRA pixel that lands at `(x, y)` of panel `p` starts in a
/// frame `width` pixels wide.
pub open spec fn source_index(v: PanelsView, width: int, p: int, x: int, y: int) -> int {
    let sx = x + v.panels[p].position.x + v.offset.x;
    let sy = y + v.panels[p].position.y + v.offset.y;
    (sy * width + sx) * 4
}

/// The packet for local pixel `(x, y)` of panel `p`: each colour channel of
/// the source pixel reduced from 8 to 6 bits.
pub open spec fn pixel_bytes(v: PanelsView, image: Seq<u8>, width: int, p: int, x: int, y: int) -> Seq<u8> {
    let i = source_index(v, width, p, x, y);
    packet(x as u8, y as u8, image[i + 2] / 4u8, image[i + 1] / 4u8, image[i] / 4u8)
}

/// The packets of the first `n` pixels of row `y` of panel `p`, left to right.
pub open spec fn row_bytes(v: PanelsView, image: Seq<u8>, width: int, p: int, y: int, n: nat) -> Seq<u8>
    decreases n,
{
    if n == 0 {
        Seq::empty()
    } else {
        row_bytes(v, image, width, p, y, (n - 1) as nat) + pixel_bytes(v, image, width, p, n - 1, y)
    }
}

/// A frame of `width` by `height` pixels, held in `len` bytes, holds every
/// panel.
pub open spec fn frame_fits(v: PanelsView, width: int, height: int, len: int) -> bool {
    &&& 4 * width * height <= len
    &&& forall|i: int|
        0 <= i < v.panels.len() ==> fits(
            v.size,
            v.offset,
            #[trigger] v.panels[i].position,
            width,
            height,
        )
}

/// Turns captured frames into the datagrams of a panel set.
pub struct PanelWriter {
    panels: Panels,
}

impl View for PanelWriter {
    type V = PanelsView;

    closed spec fn view(&self) -> PanelsView {
        self.panels@
    }
}

proof fn lemma_index_in_frame(row: int, col: int, width: int, height: int)
    requires
        0 <= row < height,
        0 <= col < width,
    ensures
        0 <= (row * width + col) * 4,
        (row * width + col) * 4 + 3 < 4 * width * height,
{
    assert(row * width + col < width * height) by (nonlinear_arith)
        requires
            0 <= row < height,
            0 <= col < width,
    ;
    assert(4 * (width * height) == 4 * width * height) by (nonlinear_arith);
    assert(0 <= row * width) by (nonlinear_arith)
        requires
            0 <= row,
            0 <= col < width,
    ;
}

proof fn lemma_frame_too_large(width: int, height: int, len: int)
    requires
        0 <= width,
        0 <= height,
        width * height > usize::MAX,
        len <= usize::MAX,
    ensures
        4 * width * height > len,
{
    assert(4 * width * height == 4 * (width * height)) by (nonlinear_arith);
}

proof fn lemma_row_position(p: int, y: int, n: int)
    requires
        0 <= p,
        0 <= y < n,
    ensures
        (p * n + y) / n == p,
        (p * n + y) % n == y,
{
    vstd::arithmetic::div_mod::lemma_fundamental_div_mod_converse(p * n + y, n, p, y);
}

/// A row of `n` pixels is `4 * n` bytes long.
pub proof fn lemma_row_len(v: PanelsView, image: Seq<u8>, width: int, p: int, y: int, n: nat)
    ensures
        row_bytes(v, image, width, p, y, n).len() == 4 * n,
    decreases n,
{
    if n > 0 {
        lemma_row_len(v, image, width, p, y, (n - 1) as nat);
    }
}

/// Bytes `4 * j .. 4 * j + 4` of a row are the packet of pixel `j` of that
/// row; so the first byte of every packet in row `y` carries `y`.
pub proof fn lemma_row_packets(
    v: PanelsView,
    image: Seq<u8>,
    width: int,
    p: int,
    y: int,
    n: nat,
    j: int,
)
    requires
        0 <= j < n,
    ensures
        row_bytes(v, image, width, p, y, n).subrange(4 * j, 4 * j + 4) == pixel_bytes(
            v,
            image,
            width,
            p,
            j,
            y,
        ),
        0 <= y < 64 ==> row_bytes(v, image, width, p, y, n)[4 * j] == y as u8,
    decreases n,
{
    let prev = row_bytes(v, image, width, p, y, (n - 1) as nat);
    let last = pixel_bytes(v, image, width, p, n - 1, y);
    lemma_row_len(v, image, width, p, y, (n - 1) as nat);
    if j == n - 1 {
        assert((prev + last).subrange(4 * j, 4 * j + 4) =~= last);
    } else {
        lemma_row_packets(v, image, width, p, y, (n - 1) as nat, j);
        assert((prev + last).subrange(4 * j, 4 * j + 4) =~= prev.subrange(4 * j, 4 * j + 4));
    }
    let row = row_bytes(v, image, width, p, y, n);
    assert(row[4 * j] == row.subrange(4 * j, 4 * j + 4)[0]);
    if 0 <= y < 64 {
        let yy = y as u8;
        assert(yy & 0x3f == yy) by (bit_vector)
            requires
                yy < 64,
        ;
    }
}

/// Datagrams leave in panel order, and within one panel from the top row
/// down: a later datagram goes to a later panel, or to the same panel and a
/// lower row.
pub proof fn lemma_frame_order(v: PanelsView, k1: int, k2: int)
    requires
        v.wf(),
        0 <= k1 < k2,
    ensures
        panel_of(v, k1) < panel_of(v, k2) || (panel_of(v, k1) == panel_of(v, k2) && line_of(v, k1)
            < line_of(v, k2)),
{
    let n = v.size.y as int;
    vstd::arithmetic::div_mod::lemma_div_is_ordered(k1, k2, n);
    vstd::arithmetic::div_mod::lemma_fundamental_div_mod(k1, n);
    vstd::arithmetic::div_mod::lemma_fundamental_div_mod(k2, n);
}

/// A frame's datagrams cover every panel and every row exactly once: row `y`
/// of panel `p` is carried by datagram `p * size.y + y` and by no other, and
/// every datagram of a frame carries a row of a panel of the set.
pub proof fn lemma_frame_rows(v: PanelsView, k: int, p: int, y: int)
    requires
        v.wf(),
        0 <= p < v.panels.len(),
        0 <= y < v.size.y,
        0 <= k < v.panels.len() * v.size.y,
    ensures
        0 <= p * v.size.y + y < v.panels.len() * v.size.y,
        panel_of(v, p * v.size.y + y) == p,
        line_of(v, p * v.size.y + y) == y,
        0 <= panel_of(v, k) < v.panels.len(),
        0 <= line_of(v, k) < v.size.y,
        panel_of(v, k) == p && line_of(v, k) == y ==> k == p * v.size.y + y,
{
    let n = v.size.y as int;
    let m = v.panels.len() as int;
    lemma_row_position(p, y, n);
    assert(p * n + y < m * n) by (nonlinear_arith)
        requires
            0 <= p < m,
            0 <= y < n,
    ;
    assert(0 <= p * n) by (nonlinear_arith)
        requires
            0 <= p,
            0 < n,
    ;
    vstd::arithmetic::div_mod::lemma_fundamental_div_mod(k, n);
    vstd::arithmetic::div_mod::lemma_div_pos_is_pos(k, n);
    vstd::arithmetic::div_mod::lemma_mod_bound(k, n);
    let q = k / n;
    assert(q < m) by (nonlinear_arith)
        requires
            k == n * q + k % n,
            0 <= k % n,
            k < m * n,
            0 < n,
    ;
    assert(n * p == p * n) by (nonlinear_arith);
}

impl PanelWriter {
    /// A writer for `panels`.
    pub fn new(panels: Panels) -> (r: Self)
        ensures
            r@ == panels@,
            r@.wf(),
    {
        proof {
            use_type_invariant(&panels);
        }
        PanelWriter { panels }
    }

    /// The panel set this writer serves.
    pub fn panels(&self) -> (r: &Panels)
        ensures
            r@ == self@,
    {
        &self.panels
    }

    /// Cuts a BGRA frame, 8 bits per channel, into the datagrams that show it
    /// on the panels: for each panel in order, one datagram per row from top
    /// to bottom, each holding one 4-byte packet per pixel from left to
    /// right, with the colour reduced to 6 bits per channel.
    pub fn display_image(&self, image_data: &[u8], image_width: usize, image_height: usize) -> (r:
        Result<Vec<Datagram>, PanelError>)
        ensures
            match r {
                Ok(rows) => {
                    &&& frame_fits(
                        self@,
                        image_width as int,
                        image_height as int,
                        image_data@.len() as int,
                    )
                    &&& rows@.len() == self@.panels.len() * self@.size.y
                    &&& forall|k: int|
                        0 <= k < rows@.len() ==> {
                            &&& (#[trigger] rows@[k]).panel == panel_of(self@, k)
                            &&& rows@[k].data@.len() == 4 * self@.size.x
                            &&& rows@[k].data@ == row_bytes(
                                self@,
                                image_data@,
                                image_width as int,
                                panel_of(self@, k),
                                line_of(self@, k),
                                self@.size.x as nat,
                            )
                        }
                },
                Err(e) => {
                    &&& e == PanelError::Geometry
                    &&& !frame_fits(
                        self@,
                        image_width as int,
                        image_height as int,
                        image_data@.len() as int,
                    )
                },
            },
    {
        proof {
            use_type_invariant(&self.panels);
        }
        let ghost v = self@;
        let size = self.panels.size();
        let offset = self.panels.offset();
        let panels = self.panels.panels();
        let ghost w = image_width as int;
        let ghost h = image_height as int;
        let ghost len = image_data@.len() as int;
        let frame_len = image_data.len();
        let area = match image_width.checked_mul(image_height) {
            Some(a) => a,
            None => {
                proof {
                    lemma_frame_too_large(w, h, len);
                }
                return Err(PanelError::Geometry);
            },
        };
        let bytes = match area.checked_mul(4) {
            Some(b) => b,
            None => {
                assert(4 * w * h == area * 4) by (nonlinear_arith)
                    requires
                        area == w * h,
                ;
                return Err(PanelError::Geometry);
            },
        };
        assert(4 * w * h == bytes) by (nonlinear_arith)
            requires
                area == w * h,
                bytes == area * 4,
        ;
        if bytes > frame_len {
            return Err(PanelError::Geometry);
        }
        let mut c: usize = 0;
        while c < panels.len()
            invariant
                c <= panels@.len(),
                panels@ == v.panels,
                v == self@,
                w == image_width as int,
                h == image_height as int,
                len == image_data@.len() as int,
                len <= usize::MAX,
                size == v.size,
                offset == v.offset,
                forall|j: int|
                    0 <= j < c ==> fits(size, offset, (#[trigger] panels@[j]).position, w, h),
            decreases panels@.len() - c,
        {
            if !fits_in(size, offset, panels[c].position, image_width, image_height) {
                assert(!fits(size, offset, v.panels[c as int].position, w, h));
                assert(!frame_fits(v, w, h, len));
                return Err(PanelError::Geometry);
            }
            c = c + 1;
        }
        assert(frame_fits(v, w, h, len));
        let mut rows: Vec<Datagram> = Vec::new();
        let mut p: usize = 0;
        while p < panels.len()
            invariant
                v.wf(),
                frame_fits(v, w, h, len),
                p <= panels@.len(),
                panels@ == v.panels,
                v == self@,
                w == image_width as int,
                h == image_height as int,
                len == image_data@.len() as int,
                len <= usize::MAX,
                size == v.size,
                offset == v.offset,
                rows@.len() == p * size.y,
                forall|k: int|
                    0 <= k < rows@.len() ==> {
                        &&& (#[trigger] rows@[k]).panel == panel_of(v, k)
                        &&& rows@[k].data@.len() == 4 * size.x
                        &&& rows@[k].data@ == row_bytes(
                            v,
                            image_data@,
                            w,
                            panel_of(v, k),
                            line_of(v, k),
                            size.x as nat,
                        )
                    },
            decreases panels@.len() - p,
        {
            let position = panels[p].position;
            assert(fits(size, offset, v.panels[p as int].position, w, h));
            let mut y: usize = 0;
            while y < size.y
                invariant
                    v.wf(),
                    frame_fits(v, w, h, len),
                    p < panels@.len(),
                    panels@ == v.panels,
                    v == self@,
                    w == image_width as int,
                    h == image_height as int,
                    len == image_data@.len() as int,
                    len <= usize::MAX,
                    size == v.size,
                    offset == v.offset,
                    position == v.panels[p as int].position,
                    fits(size, offset, position, w, h),
                    y <= size.y,
                    rows@.len() == p * size.y + y,
                    forall|k: int|
                        0 <= k < rows@.len() ==> {
                            &&& (#[trigger] rows@[k]).panel == panel_of(v, k)
                            &&& rows@[k].data@.len() == 4 * size.x
                            &&& rows@[k].data@ == row_bytes(
                                v,
                                image_data@,
                                w,
                                panel_of(v, k),
                                line_of(v, k),
                                size.x as nat,
                            )
                        },
                decreases size.y - y,
            {
                let mut data: Vec<u8> = Vec::new();
                let mut x: usize = 0;
                while x < size.x
                    invariant
                        v.wf(),
                        frame_fits(v, w, h, len),
                        p < panels@.len(),
                        size == v.size,
                        offset == v.offset,
                        w == image_width as int,
                        h == image_height as int,
                        len == image_data@.len() as int,
                        len <= usize::MAX,
                        position == v.panels[p as int].position,
                        fits(size, offset, position, w, h),
                        y < size.y,
                        x <= size.x,
                        data@ == row_bytes(v, image_data@, w, p as int, y as int, x as nat),
                    decreases size.x - x,
                {
                    let src_y = y + position.y + offset.y;
                    let src_x = x + position.x + offset.x;
                    proof {
                        lemma_index_in_frame(src_y as int, src_x as int, w, h);
                    }
                    let index = (src_y * image_width + src_x) * 4;
                    let packet_bytes = pixel_to_packet(
                        x as u8,
                        y as u8,
                        image_data[index + 2] / 4,
                        image_data[index + 1] / 4,
                        image_data[index] / 4,
                    );
                    let mut q: usize = 0;
                    let ghost before = data@;
                    while q < 4
                        invariant
                            q <= 4,
                            data@ == before + packet_bytes@.subrange(0, q as int),
                        decreases 4 - q,
                    {
                        data.push(packet_bytes[q]);
                        q = q + 1;
                    }
                    assert(packet_bytes@.subrange(0, 4) =~= packet_bytes@);
                    x = x + 1;
                }
                proof {
                    lemma_row_len(v, image_data@, w, p as int, y as int, size.x as nat);
                    lemma_row_position(p as int, y as int, size.y as int);
                }
                rows.push(Datagram { panel: p, data });
                y = y + 1;
            }
            assert(p * size.y + size.y == (p + 1) * size.y) by (nonlinear_arith);
            p = p + 1;
        }
        Ok(rows)
    }
}

} // verus!
