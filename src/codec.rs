use vstd::prelude::*;

verus! {

/// The four wire bytes that carry one pixel: its local coordinates and
/// its 6-bit colour channels.
pub open spec fn packet(x: u8, y: u8, r: u8, g: u8, b: u8) -> Seq<u8> {
    seq![
        y & 0x3f,
        ((x << 2u8) | (r >> 4u8)) as u8,
        ((r << 4u8) | (g >> 2u8)) as u8,
        ((g << 6u8) | b) as u8,
    ]
}

/// Takes a position and a colour and packs them into the 4-byte datagram
/// unit that an LED panel expects.
pub fn pixel_to_packet(x: u8, y: u8, r: u8, g: u8, b: u8) -> (data: [u8; 4])
    ensures
        data@ == packet(x, y, r, g, b),
{
    let mut data: [u8; 4] = [0, 0, 0, 0];
    data[0] = y & 0b00111111;
    data[1] = (x << 2u8) | (r >> 4u8);
    data[2] = (r << 4u8) | (g >> 2u8);
    data[3] = (g << 6u8) | b;
    assert(data@ =~= packet(x, y, r, g, b));
    data
}

/// The five 6-bit fields read back out of a packet, as
/// `(x, y, r, g, b)`: the shifts of `packet` undone.
pub open spec fn unpack(p: Seq<u8>) -> (u8, u8, u8, u8, u8)
    recommends
        p.len() == 4,
{
    (
        p[1] >> 2u8,
        p[0] & 0x3f,
        (((p[1] & 0x03) << 4u8) | (p[2] >> 4u8)) as u8,
        (((p[2] & 0x0f) << 2u8) | (p[3] >> 6u8)) as u8,
        p[3] & 0x3f,
    )
}

/// Reads the position and colour back out of a 4-byte packet.
pub fn packet_to_pixel(data: [u8; 4]) -> (pixel: (u8, u8, u8, u8, u8))
    ensures
        pixel == unpack(data@),
{
    let x = data[1] >> 2u8;
    let y = data[0] & 0x3f;
    let r = ((data[1] & 0x03) << 4u8) | (data[2] >> 4u8);
    let g = ((data[2] & 0x0f) << 2u8) | (data[3] >> 6u8);
    let b = data[3] & 0x3f;
    (x, y, r, g, b)
}

/// Every field of a packet is recovered exactly when each of x, y, r, g
/// and b is below 64.
pub proof fn lemma_round_trip(x: u8, y: u8, r: u8, g: u8, b: u8)
    requires
        x < 64,
        y < 64,
        r < 64,
        g < 64,
        b < 64,
    ensures
        unpack(packet(x, y, r, g, b)) == (x, y, r, g, b),
{
    let p = packet(x, y, r, g, b);
    assert((y & 0x3f) & 0x3f == y) by (bit_vector)
        requires
            y < 64,
    ;
    assert((((x << 2u8) | (r >> 4u8)) as u8) >> 2u8 == x) by (bit_vector)
        requires
            x < 64,
            r < 64,
    ;
    assert(((((((x << 2u8) | (r >> 4u8)) as u8) & 0x03) << 4u8) | ((((r << 4u8) | (g >> 2u8)) as u8) >> 4u8)) as u8 == r) by (bit_vector)
        requires
            x < 64,
            r < 64,
            g < 64,
    ;
    assert(((((((r << 4u8) | (g >> 2u8)) as u8) & 0x0f) << 2u8) | ((((g << 6u8) | b) as u8) >> 6u8)) as u8 == g) by (bit_vector)
        requires
            g < 64,
            b < 64,
    ;
    assert((((g << 6u8) | b) as u8) & 0x3f == b) by (bit_vector)
        requires
            b < 64,
    ;
}

/// Packing is a function of its five arguments alone: two packets built
/// from the same arguments are the same bytes.
pub proof fn lemma_packet_deterministic(
    first: Seq<u8>,
    second: Seq<u8>,
    x: u8,
    y: u8,
    r: u8,
    g: u8,
    b: u8,
)
    requires
        first == packet(x, y, r, g, b),
        second == packet(x, y, r, g, b),
    ensures
        first == second,
        first.len() == 4,
{
}

} // verus!
